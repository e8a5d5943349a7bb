//! A two-dimensional array of values, with row-major and column-major
//! construction and traversal.

use vstd::prelude::*;

verus! {

/// A two-dimensional array of type `T`. `T` must implement the `Clone`
/// trait.
#[derive(Clone)]
pub struct Array2<T> {
    pub width: usize,
    pub height: usize,
    pub array: Vec<Vec<T>>,
}

/// A row-major iterator over an `Array2`.
pub struct Array2IterRowMajor<'a, T> where T: Clone {
    row: usize,
    column: usize,
    array2: &'a Array2<T>,
}

/// A column-major iterator over an `Array2.`
pub struct Array2IterColumnMajor<'a, T> where T: Clone {
    row: usize,
    column: usize,
    array2: &'a Array2<T>,
}

impl<T> Array2<T> {
    /// The rows of the array.
    pub open spec fn grid(&self) -> Seq<Seq<T>> {
        self.array@.map_values(|row: Vec<T>| row@)
    }

    /// The stored rows match the stated width and height.
    pub open spec fn wf(&self) -> bool {
        &&& self.grid().len() == self.height
        &&& forall|i: int| 0 <= i < self.height ==> (#[trigger] self.grid()[i]).len() == self.width
    }
}

impl<T: Clone> Array2<T> {
    /// Return an `Array2` with a defined `width` and `height`. Each value
    /// will be set to `value`.
    pub fn from_single_value(value: T, width: usize, height: usize) -> (r: Array2<T>)
        ensures
            r.wf(),
            r.width == width,
            r.height == height,
            forall|i: int, j: int|
                0 <= i < height && 0 <= j < width ==> cloned(value, #[trigger] r.grid()[i][j]),
    {
        let mut array: Vec<Vec<T>> = Vec::new();
        while array.len() < height
            invariant
                array.len() <= height,
                forall|i: int| 0 <= i < array.len() ==> (#[trigger] array@[i]).len() == width,
                forall|i: int, j: int|
                    0 <= i < array.len() && 0 <= j < width ==> cloned(
                        value,
                        #[trigger] array@[i]@[j],
                    ),
            decreases height - array.len(),
        {
            let mut row: Vec<T> = Vec::new();
            while row.len() < width
                invariant
                    row.len() <= width,
                    forall|j: int| 0 <= j < row.len() ==> cloned(value, #[trigger] row@[j]),
                decreases width - row.len(),
            {
                row.push(value.clone());
            }
            array.push(row);
        }
        Array2 { width, height, array }
    }

    /// Return an `Array2` built from a `Vec`, where each row will be of
    /// length `width`. The height of the `Array2` is inferred; words past
    /// the last full row are dropped.
    pub fn from_row_major(vec: Vec<T>, width: usize) -> (r: Array2<T>)
        requires
            width > 0,
        ensures
            r.wf(),
            r.width == width,
            r.height == vec@.len() as int / width as int,
            forall|i: int, j: int|
                0 <= i < r.height && 0 <= j < width ==> cloned(
                    vec@[i * width + j],
                    #[trigger] r.grid()[i][j],
                ),
    {
        let height = vec.len() / width;
        proof {
            vstd::arithmetic::div_mod::lemma_fundamental_div_mod(vec@.len() as int, width as int);
        }
        let mut array: Vec<Vec<T>> = Vec::new();
        while array.len() < height
            invariant
                width > 0,
                height == vec@.len() as int / width as int,
                height * width as int <= vec@.len(),
                vec@.len() <= usize::MAX,
                array.len() <= height,
                forall|i: int| 0 <= i < array.len() ==> (#[trigger] array@[i]).len() == width,
                forall|i: int, j: int|
                    0 <= i < array.len() && 0 <= j < width ==> cloned(
                        vec@[i * width + j],
                        #[trigger] array@[i]@[j],
                    ),
            decreases height - array.len(),
        {
            let i = array.len();
            let mut row: Vec<T> = Vec::new();
            while row.len() < width
                invariant
                    width > 0,
                    height == vec@.len() as int / width as int,
                    height * width as int <= vec@.len(),
                    vec@.len() <= usize::MAX,
                    i < height,
                    row.len() <= width,
                    forall|j: int|
                        0 <= j < row.len() ==> cloned(vec@[i * width + j], #[trigger] row@[j]),
                decreases width - row.len(),
            {
                let j = row.len();
                proof {
                    vstd::arithmetic::mul::lemma_mul_inequality(
                        i as int + 1,
                        height as int,
                        width as int,
                    );
                    vstd::arithmetic::mul::lemma_mul_is_distributive_add_other_way(
                        width as int,
                        i as int,
                        1,
                    );
                    vstd::arithmetic::mul::lemma_mul_basics(width as int);
                    assert(i * width + j < vec@.len());
                }
                row.push(vec[i * width + j].clone());
            }
            array.push(row);
        }
        Array2 { width, height, array }
    }

    /// Return an `Array2` built from a `Vec`, where each column will be
    /// of length `height`. The width of the `Array2` is inferred; values
    /// past the last full column are dropped.
    pub fn from_col_major(vec: Vec<T>, height: usize) -> (r: Array2<T>)
        requires
            height > 0,
        ensures
            r.wf(),
            r.height == height,
            r.width == vec@.len() as int / height as int,
            forall|i: int, j: int|
                0 <= i < height && 0 <= j < r.width ==> cloned(
                    vec@[j * height + i],
                    #[trigger] r.grid()[i][j],
                ),
    {
        let width = vec.len() / height;
        proof {
            vstd::arithmetic::div_mod::lemma_fundamental_div_mod(vec@.len() as int, height as int);
        }
        let mut array: Vec<Vec<T>> = Vec::new();
        while array.len() < height
            invariant
                height > 0,
                width == vec@.len() as int / height as int,
                width * height as int <= vec@.len(),
                vec@.len() <= usize::MAX,
                array.len() <= height,
                forall|i: int| 0 <= i < array.len() ==> (#[trigger] array@[i]).len() == width,
                forall|i: int, j: int|
                    0 <= i < array.len() && 0 <= j < width ==> cloned(
                        vec@[j * height + i],
                        #[trigger] array@[i]@[j],
                    ),
            decreases height - array.len(),
        {
            let i = array.len();
            let mut row: Vec<T> = Vec::new();
            while row.len() < width
                invariant
                    height > 0,
                    width == vec@.len() as int / height as int,
                    width * height as int <= vec@.len(),
                    vec@.len() <= usize::MAX,
                    i < height,
                    row.len() <= width,
                    forall|j: int|
                        0 <= j < row.len() ==> cloned(vec@[j * height + i], #[trigger] row@[j]),
                decreases width - row.len(),
            {
                let j = row.len();
                proof {
                    vstd::arithmetic::mul::lemma_mul_inequality(
                        j as int + 1,
                        width as int,
                        height as int,
                    );
                    vstd::arithmetic::mul::lemma_mul_is_distributive_add_other_way(
                        height as int,
                        j as int,
                        1,
                    );
                    vstd::arithmetic::mul::lemma_mul_basics(height as int);
                    assert(j * height + i < vec@.len());
                }
                row.push(vec[j * height + i].clone());
            }
            array.push(row);
        }
        Array2 { width, height, array }
    }

    /// Retrieve an immutable reference to the element at position
    /// `(row, column)`. Returns `None` if the element does not exist.
    pub fn get(&self, row: usize, column: usize) -> (r: Option<&T>)
        requires
            self.wf(),
        ensures
            row < self.height && column < self.width ==> (r matches Some(v) && *v == self.grid(
            )[row as int][column as int]),
            row >= self.height || column >= self.width ==> r is None,
    {
        if row < self.height && column < self.width {
            proof {
                assert(self.grid().len() == self.array@.len());
                assert(self.grid()[row as int] == self.array@[row as int]@);
            }
            Some(&self.array[row][column])
        } else {
            None
        }
    }

    /// Retrieve a mutable reference to the element at position
    /// `(row, column)`, which must exist.
    pub fn get_mut(&mut self, row: usize, column: usize) -> (r: &mut T)
        requires
            old(self).wf(),
            row < old(self).height,
            column < old(self).width,
        ensures
            *r == old(self).grid()[row as int][column as int],
            final(self).width == old(self).width,
            final(self).height == old(self).height,
            final(self).grid().len() == old(self).grid().len(),
            forall|i: int|
                0 <= i < old(self).grid().len() && i != row ==> final(self).grid()[i] == old(
                    self,
                ).grid()[i],
            final(self).grid()[row as int] == old(self).grid()[row as int].update(
                column as int,
                *final(r),
            ),
    {
        proof {
            assert(self.grid().len() == self.array@.len());
            assert(self.grid()[row as int] == self.array@[row as int]@);
        }
        let r = &mut self.array[row][column];
        r
    }

    /// Generate a row-major iterator over the `Array2`.
    pub fn iter_row_major(&self) -> (it: Array2IterRowMajor<'_, T>)
        ensures
            it.view_array() == *self,
            it.position() == (0int, 0int),
    {
        Array2IterRowMajor { row: 0, column: 0, array2: self }
    }

    /// Generate a column-major iterator over the `Array2`.
    pub fn iter_col_major(&self) -> (it: Array2IterColumnMajor<'_, T>)
        ensures
            it.view_array() == *self,
            it.position() == (0int, 0int),
    {
        Array2IterColumnMajor { row: 0, column: 0, array2: self }
    }
}

impl<'a, T: Clone> Array2IterRowMajor<'a, T> {
    /// The array being traversed.
    pub closed spec fn view_array(&self) -> Array2<T> {
        *self.array2
    }

    /// The current row and column.
    pub closed spec fn position(&self) -> (int, int) {
        (self.row as int, self.column as int)
    }

    /// The element under the cursor, cloned; `None` once the cursor has
    /// left the array. The cursor advances along the row, wrapping to the
    /// start of the next row at the end of one.
    pub fn next(&mut self) -> (r: Option<T>)
        requires
            old(self).view_array().wf(),
            old(self).view_array().width > 0,
            old(self).position().0 <= old(self).view_array().height,
            old(self).position().0 < usize::MAX,
            old(self).position().1 < old(self).view_array().width,
        ensures
            final(self).view_array() == old(self).view_array(),
            ({
                let (row, column) = old(self).position();
                let a = old(self).view_array();
                &&& (row < a.height ==> (r matches Some(v) && cloned(a.grid()[row][column], v)))
                &&& (row >= a.height ==> r is None)
                &&& final(self).position() == (if column == a.width - 1 {
                    ((row + 1) as int, 0int)
                } else {
                    (row, column + 1)
                })
            }),
    {
        let return_value = match self.array2.get(self.row, self.column) {
            Some(v) => Some(v.clone()),
            None => None,
        };

        if self.column == self.array2.width - 1 {
            // "Wrap around" if end of row is reached
            self.column = 0;
            self.row = self.row + 1;
        } else {
            self.column = self.column + 1;
        }

        return_value
    }
}

impl<'a, T: Clone> Array2IterColumnMajor<'a, T> {
    /// The array being traversed.
    pub closed spec fn view_array(&self) -> Array2<T> {
        *self.array2
    }

    /// The current row and column.
    pub closed spec fn position(&self) -> (int, int) {
        (self.row as int, self.column as int)
    }

    /// The element under the cursor, cloned; `None` once the cursor has
    /// left the array. The cursor advances down the column, wrapping to
    /// the top of the next column at the bottom of one.
    pub fn next(&mut self) -> (r: Option<T>)
        requires
            old(self).view_array().wf(),
            old(self).view_array().height > 0,
            old(self).position().1 <= old(self).view_array().width,
            old(self).position().1 < usize::MAX,
            old(self).position().0 < old(self).view_array().height,
        ensures
            final(self).view_array() == old(self).view_array(),
            ({
                let (row, column) = old(self).position();
                let a = old(self).view_array();
                &&& (column < a.width ==> (r matches Some(v) && cloned(a.grid()[row][column], v)))
                &&& (column >= a.width ==> r is None)
                &&& final(self).position() == (if row == a.height - 1 {
                    (0int, (column + 1) as int)
                } else {
                    (row + 1, column)
                })
            }),
    {
        let return_value = match self.array2.get(self.row, self.column) {
            Some(v) => Some(v.clone()),
            None => None,
        };

        if self.row == self.array2.height - 1 {
            // "Wrap around" if end of column is reached
            self.row = 0;
            self.column = self.column + 1;
        } else {
            self.row = self.row + 1;
        }

        return_value
    }
}

} // verus!
