//! Grid puzzle validation: every row, column and 3x3 sub-square of a
//! 9x9 board must hold nine distinct values that sum to 45 — for values
//! drawn from 0 to 9, exactly the digits 1 to 9.

use vstd::prelude::*;
use crate::array2::Array2;

verus! {

/// How many distinct values a sequence holds, counting each at its
/// first occurrence.
pub open spec fn distinct_count(s: Seq<u16>) -> int
    decreases s.len(),
{
    if s.len() == 0 {
        0
    } else if s.drop_last().contains(s.last()) {
        distinct_count(s.drop_last())
    } else {
        distinct_count(s.drop_last()) + 1
    }
}

/// The sum of the distinct values of a sequence, each counted once.
pub open spec fn distinct_sum(s: Seq<u16>) -> int
    decreases s.len(),
{
    if s.len() == 0 {
        0
    } else if s.drop_last().contains(s.last()) {
        distinct_sum(s.drop_last())
    } else {
        distinct_sum(s.drop_last()) + s.last()
    }
}

/// A valid set of nine: nine distinct values whose sum is 45.
pub open spec fn nine_valid(s: Seq<u16>) -> bool {
    distinct_count(s) == 9 && distinct_sum(s) == 45
}

/// Every prefix holds at most as many distinct values as the whole.
proof fn lemma_distinct_count_mono(s: Seq<u16>, i: int)
    requires
        0 <= i <= s.len(),
    ensures
        distinct_count(s.take(i)) <= distinct_count(s.take(s.len() as int)),
    decreases s.len() - i,
{
    if i < s.len() {
        assert(s.take(i + 1).drop_last() =~= s.take(i));
        lemma_distinct_count_mono(s, i + 1);
    }
}

/// The distinct values number at most the length, and their sum stays
/// under length times the largest value.
proof fn lemma_distinct_bounds(s: Seq<u16>)
    ensures
        0 <= distinct_count(s) <= s.len(),
        0 <= distinct_sum(s) <= distinct_count(s) * 0xFFFF,
    decreases s.len(),
{
    if s.len() > 0 {
        lemma_distinct_bounds(s.drop_last());
        let c = distinct_count(s.drop_last());
        assert(c * 0xFFFF + 0xFFFF == (c + 1) * 0xFFFF) by (nonlinear_arith);
    }
}

/// Check if a given Vec of values follows the puzzle's rules for a set
/// of nine: it holds exactly nine distinct values, summing to 45.
pub fn set_of_nine_values_valid(values: Vec<u16>) -> (r: bool)
    ensures
        r == nine_valid(values@),
{
    let mut count: u32 = 0;
    let mut sum: u32 = 0;
    let mut i: usize = 0;
    while i < values.len()
        invariant
            i <= values@.len(),
            count == distinct_count(values@.take(i as int)),
            sum == distinct_sum(values@.take(i as int)),
            count <= 9,
            sum <= 9 * 0xFFFF,
        decreases values@.len() - i,
    {
        let v = values[i];
        let mut seen = false;
        let mut j: usize = 0;
        while j < i
            invariant
                j <= i < values@.len(),
                v == values@[i as int],
                seen == exists|k: int| 0 <= k < j && values@[k] == v,
            decreases i - j,
        {
            if values[j] == v {
                seen = true;
            }
            j += 1;
        }
        proof {
            assert(values@.take(i as int + 1).drop_last() =~= values@.take(i as int));
            assert(values@.take(i as int + 1).last() == v);
            if seen {
                let k = choose|k: int| 0 <= k < i && values@[k] == v;
                assert(values@.take(i as int)[k] == v);
            }
            if values@.take(i as int).contains(v) {
                let k = choose|k: int|
                    0 <= k < values@.take(i as int).len() && values@.take(i as int)[k] == v;
                assert(values@[k] == v);
            }
            assert(seen == values@.take(i as int).contains(v));
        }
        if !seen {
            count = count + 1;
            sum = sum + v as u32;
            if count > 9 {
                proof {
                    lemma_distinct_count_mono(values@, i as int + 1);
                    assert(values@.take(values@.len() as int) =~= values@);
                }
                return false;
            }
            proof {
                lemma_distinct_bounds(values@.take(i as int + 1));
                assert(count * 0xFFFF <= 9 * 0xFFFF) by (nonlinear_arith)
                    requires
                        count <= 9,
                ;
            }
        }
        i += 1;
    }
    proof {
        assert(values@.take(values@.len() as int) =~= values@);
    }
    count == 9 && sum == 45
}

/// The column `j` of a 9x9 board, top to bottom.
pub open spec fn column_of(board: Array2<u16>, j: int) -> Seq<u16> {
    Seq::new(9, |i: int| board.grid()[i][j])
}

/// The 3x3 sub-square of a 9x9 board whose top-left corner is at
/// `(3*si, 3*sj)`, in row-major order.
pub open spec fn square_of(board: Array2<u16>, si: int, sj: int) -> Seq<u16> {
    Seq::new(9, |k: int| board.grid()[3 * si + k / 3][3 * sj + k % 3])
}

/// Check if each row on the board is valid.
pub fn all_rows_valid(board: &Array2<u16>) -> (r: bool)
    requires
        board.wf(),
        board.width == 9,
        board.height == 9,
    ensures
        r == forall|i: int| 0 <= i < 9 ==> nine_valid(#[trigger] board.grid()[i]),
{
    let mut i: usize = 0;
    while i < 9
        invariant
            board.wf(),
            board.width == 9,
            board.height == 9,
            i <= 9,
            forall|k: int| 0 <= k < i ==> nine_valid(#[trigger] board.grid()[k]),
        decreases 9 - i,
    {
        let mut row: Vec<u16> = Vec::new();
        let mut j: usize = 0;
        while j < 9
            invariant
                board.wf(),
                board.width == 9,
                board.height == 9,
                i < 9,
                j <= 9,
                row@.len() == j,
                forall|k: int| 0 <= k < j ==> row@[k] == board.grid()[i as int][k],
            decreases 9 - j,
        {
            let v = match board.get(i, j) {
                Some(v) => *v,
                None => unreached(),
            };
            row.push(v);
            j += 1;
        }
        proof {
            assert(row@ =~= board.grid()[i as int]);
        }
        if !set_of_nine_values_valid(row) {
            return false;
        }
        i += 1;
    }
    true
}

/// Check if each column on the board is valid.
pub fn all_columns_valid(board: &Array2<u16>) -> (r: bool)
    requires
        board.wf(),
        board.width == 9,
        board.height == 9,
    ensures
        r == forall|j: int| 0 <= j < 9 ==> nine_valid(#[trigger] column_of(*board, j)),
{
    let mut j: usize = 0;
    while j < 9
        invariant
            board.wf(),
            board.width == 9,
            board.height == 9,
            j <= 9,
            forall|k: int| 0 <= k < j ==> nine_valid(#[trigger] column_of(*board, k)),
        decreases 9 - j,
    {
        let mut column: Vec<u16> = Vec::new();
        let mut i: usize = 0;
        while i < 9
            invariant
                board.wf(),
                board.width == 9,
                board.height == 9,
                j < 9,
                i <= 9,
                column@.len() == i,
                forall|k: int| 0 <= k < i ==> column@[k] == board.grid()[k][j as int],
            decreases 9 - i,
        {
            let v = match board.get(i, j) {
                Some(v) => *v,
                None => unreached(),
            };
            column.push(v);
            i += 1;
        }
        proof {
            assert(column@ =~= column_of(*board, j as int));
        }
        if !set_of_nine_values_valid(column) {
            return false;
        }
        j += 1;
    }
    true
}

/// Check if each 3x3 sub-square on the board is valid.
pub fn all_squares_valid(board: &Array2<u16>) -> (r: bool)
    requires
        board.wf(),
        board.width == 9,
        board.height == 9,
    ensures
        r == forall|si: int, sj: int|
            0 <= si < 3 && 0 <= sj < 3 ==> nine_valid(#[trigger] square_of(*board, si, sj)),
{
    let mut si: usize = 0;
    while si < 3
        invariant
            board.wf(),
            board.width == 9,
            board.height == 9,
            si <= 3,
            forall|a: int, b: int|
                0 <= a < si && 0 <= b < 3 ==> nine_valid(#[trigger] square_of(*board, a, b)),
        decreases 3 - si,
    {
        let mut sj: usize = 0;
        while sj < 3
            invariant
                board.wf(),
                board.width == 9,
                board.height == 9,
                si < 3,
                sj <= 3,
                forall|a: int, b: int|
                    0 <= a < si && 0 <= b < 3 ==> nine_valid(#[trigger] square_of(*board, a, b)),
                forall|b: int|
                    0 <= b < sj ==> nine_valid(#[trigger] square_of(*board, si as int, b)),
            decreases 3 - sj,
        {
            let mut values: Vec<u16> = Vec::new();
            let mut k: usize = 0;
            while k < 9
                invariant
                    board.wf(),
                    board.width == 9,
                    board.height == 9,
                    si < 3,
                    sj < 3,
                    k <= 9,
                    values@.len() == k,
                    forall|t: int|
                        0 <= t < k ==> values@[t] == board.grid()[3 * (si as int) + t / 3][3 * (
                        sj as int) + t % 3],
                decreases 9 - k,
            {
                let v = match board.get(3 * si + k / 3, 3 * sj + k % 3) {
                    Some(v) => *v,
                    None => unreached(),
                };
                values.push(v);
                k += 1;
            }
            proof {
                assert(values@ =~= square_of(*board, si as int, sj as int));
            }
            if !set_of_nine_values_valid(values) {
                return false;
            }
            sj += 1;
        }
        si += 1;
    }
    true
}

} // verus!
