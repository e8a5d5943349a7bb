//! Image codec helpers over `Array2`: trimming to even dimensions, and
//! gathering the cells into 2-by-2 blocks and back.

use vstd::prelude::*;
use crate::array2::Array2;

verus! {

/// Trim the last row of an array if the number of rows is odd.
/// Likewise for columns.
pub fn trim_image<T: Clone>(array: Array2<T>) -> (r: Array2<T>)
    requires
        array.wf(),
    ensures
        r.wf(),
        r.width == array.width - array.width % 2,
        r.height == array.height - array.height % 2,
        array.width % 2 == 0 && array.height % 2 == 0 ==> r == array,
        forall|i: int, j: int|
            0 <= i < r.height && 0 <= j < r.width ==> cloned(
                array.grid()[i][j],
                #[trigger] r.grid()[i][j],
            ),
{
    if array.width % 2 == 0 && array.height % 2 == 0 {
        return array;
    }

    let new_width = array.width - array.width % 2;
    let new_height = array.height - array.height % 2;
    let mut rows: Vec<Vec<T>> = Vec::new();
    while rows.len() < new_height
        invariant
            array.wf(),
            new_width <= array.width,
            new_height <= array.height,
            rows.len() <= new_height,
            forall|i: int| 0 <= i < rows.len() ==> (#[trigger] rows@[i]).len() == new_width,
            forall|i: int, j: int|
                0 <= i < rows.len() && 0 <= j < new_width ==> cloned(
                    array.grid()[i][j],
                    #[trigger] rows@[i]@[j],
                ),
        decreases new_height - rows.len(),
    {
        let i = rows.len();
        let mut row: Vec<T> = Vec::new();
        while row.len() < new_width
            invariant
                array.wf(),
                new_width <= array.width,
                new_height <= array.height,
                i < new_height,
                row.len() <= new_width,
                forall|j: int|
                    0 <= j < row.len() ==> cloned(array.grid()[i as int][j], #[trigger] row@[j]),
            decreases new_width - row.len(),
        {
            let j = row.len();
            let v = match array.get(i, j) {
                Some(v) => v.clone(),
                None => unreached(),
            };
            row.push(v);
        }
        rows.push(row);
    }
    Array2 { width: new_width, height: new_height, array: rows }
}

/// Transform an `Array2` with even dimensions into a set of 2x2 blocks.
/// The original values are not modified.
pub fn blockify<T: Clone>(array: Array2<T>, default_value: T) -> (r: Array2<Array2<T>>)
    requires
        array.wf(),
        array.width % 2 == 0,
        array.height % 2 == 0,
    ensures
        r.wf(),
        r.width == array.width as int / 2,
        r.height == array.height as int / 2,
        forall|bi: int, bj: int|
            0 <= bi < r.height && 0 <= bj < r.width ==> block_of(
                array,
                #[trigger] r.grid()[bi][bj],
                bi,
                bj,
            ),
{
    let block_width = array.width / 2;
    let block_height = array.height / 2;
    let _ = default_value;
    let mut rows: Vec<Vec<Array2<T>>> = Vec::new();
    while rows.len() < block_height
        invariant
            array.wf(),
            array.width % 2 == 0,
            array.height % 2 == 0,
            block_width == array.width as int / 2,
            block_height == array.height as int / 2,
            rows.len() <= block_height,
            forall|i: int| 0 <= i < rows.len() ==> (#[trigger] rows@[i]).len() == block_width,
            forall|bi: int, bj: int|
                0 <= bi < rows.len() && 0 <= bj < block_width ==> block_of(
                    array,
                    #[trigger] rows@[bi]@[bj],
                    bi,
                    bj,
                ),
        decreases block_height - rows.len(),
    {
        let bi = rows.len();
        let mut row: Vec<Array2<T>> = Vec::new();
        while row.len() < block_width
            invariant
                array.wf(),
                array.width % 2 == 0,
                array.height % 2 == 0,
                block_width == array.width as int / 2,
                block_height == array.height as int / 2,
                bi < block_height,
                row.len() <= block_width,
                forall|bj: int|
                    0 <= bj < row.len() ==> block_of(array, #[trigger] row@[bj], bi as int, bj),
            decreases block_width - row.len(),
        {
            let bj = row.len();
            let block = gather_block(&array, bi, bj);
            row.push(block);
        }
        rows.push(row);
    }
    Array2 { width: block_width, height: block_height, array: rows }
}

/// The 2x2 block at block position `(bi, bj)` holds clones of the four
/// cells of the array it was gathered from.
pub open spec fn block_of<T: Clone>(array: Array2<T>, b: Array2<T>, bi: int, bj: int) -> bool {
    &&& b.wf()
    &&& b.width == 2
    &&& b.height == 2
    &&& forall|u: int, v: int|
        0 <= u < 2 && 0 <= v < 2 ==> cloned(
            array.grid()[2 * bi + u][2 * bj + v],
            #[trigger] b.grid()[u][v],
        )
}

/// Clone one 2x2 block out of the array.
fn gather_block<T: Clone>(array: &Array2<T>, bi: usize, bj: usize) -> (b: Array2<T>)
    requires
        array.wf(),
        2 * bi + 1 < array.height,
        2 * bj + 1 < array.width,
    ensures
        block_of(*array, b, bi as int, bj as int),
{
    let mut rows: Vec<Vec<T>> = Vec::new();
    let mut u: usize = 0;
    while u < 2
        invariant
            array.wf(),
            2 * bi + 1 < array.height,
            2 * bj + 1 < array.width,
            u <= 2,
            rows.len() == u,
            forall|i: int| 0 <= i < u ==> (#[trigger] rows@[i]).len() == 2,
            forall|i: int, j: int|
                0 <= i < u && 0 <= j < 2 ==> cloned(
                    array.grid()[2 * (bi as int) + i][2 * (bj as int) + j],
                    #[trigger] rows@[i]@[j],
                ),
        decreases 2 - u,
    {
        let mut row: Vec<T> = Vec::new();
        let mut v: usize = 0;
        while v < 2
            invariant
                array.wf(),
                2 * bi + 1 < array.height,
                2 * bj + 1 < array.width,
                u < 2,
                v <= 2,
                row.len() == v,
                forall|j: int|
                    0 <= j < v ==> cloned(
                        array.grid()[2 * (bi as int) + u][2 * (bj as int) + j],
                        #[trigger] row@[j],
                    ),
            decreases 2 - v,
        {
            let item = match array.get(2 * bi + u, 2 * bj + v) {
                Some(x) => x.clone(),
                None => unreached(),
            };
            row.push(item);
            v = v + 1;
        }
        rows.push(row);
        u = u + 1;
    }
    Array2 { width: 2, height: 2, array: rows }
}

/// Flatten a blockified `Array2` into its original form.
/// The initial order of the elements is preserved.
pub fn deblockify<T: Clone>(array: Array2<Array2<T>>, default_value: T) -> (r: Array2<T>)
    requires
        array.wf(),
        array.width * 2 <= usize::MAX,
        array.height * 2 <= usize::MAX,
        forall|bi: int, bj: int|
            0 <= bi < array.height && 0 <= bj < array.width ==> {
                let b = #[trigger] array.grid()[bi][bj];
                b.wf() && b.width == 2 && b.height == 2
            },
    ensures
        r.wf(),
        r.width == array.width * 2,
        r.height == array.height * 2,
        forall|i: int, j: int|
            0 <= i < r.height && 0 <= j < r.width ==> cloned(
                array.grid()[i / 2][j / 2].grid()[i % 2][j % 2],
                #[trigger] r.grid()[i][j],
            ),
{
    let new_width = array.width * 2;
    let new_height = array.height * 2;
    let _ = default_value;
    let mut rows: Vec<Vec<T>> = Vec::new();
    while rows.len() < new_height
        invariant
            array.wf(),
            new_width == array.width * 2,
            new_height == array.height * 2,
            forall|bi: int, bj: int|
                0 <= bi < array.height && 0 <= bj < array.width ==> {
                    let b = #[trigger] array.grid()[bi][bj];
                    b.wf() && b.width == 2 && b.height == 2
                },
            rows.len() <= new_height,
            forall|i: int| 0 <= i < rows.len() ==> (#[trigger] rows@[i]).len() == new_width,
            forall|i: int, j: int|
                0 <= i < rows.len() && 0 <= j < new_width ==> cloned(
                    array.grid()[i / 2][j / 2].grid()[i % 2][j % 2],
                    #[trigger] rows@[i]@[j],
                ),
        decreases new_height - rows.len(),
    {
        let i = rows.len();
        let mut row: Vec<T> = Vec::new();
        while row.len() < new_width
            invariant
                array.wf(),
                new_width == array.width * 2,
                new_height == array.height * 2,
                forall|bi: int, bj: int|
                    0 <= bi < array.height && 0 <= bj < array.width ==> {
                        let b = #[trigger] array.grid()[bi][bj];
                        b.wf() && b.width == 2 && b.height == 2
                    },
                i < new_height,
                row.len() <= new_width,
                forall|j: int|
                    0 <= j < row.len() ==> cloned(
                        array.grid()[i as int / 2][j / 2].grid()[i as int % 2][j % 2],
                        #[trigger] row@[j],
                    ),
            decreases new_width - row.len(),
        {
            let j = row.len();
            let block = match array.get(i / 2, j / 2) {
                Some(b) => b,
                None => unreached(),
            };
            let item = match block.get(i % 2, j % 2) {
                Some(x) => x.clone(),
                None => unreached(),
            };
            row.push(item);
        }
        rows.push(row);
    }
    Array2 { width: new_width, height: new_height, array: rows }
}

} // verus!
