//! One row of the chart: a bit for each quarter-day cell.

use vstd::prelude::*;
use vstd::string::*;
use crate::chartperiod::ChartPeriod;
use crate::text::{decimal_string, decimal_text};

verus! {

/// Why a row refused an operation.
#[derive(Debug, Clone, Copy, PartialEq, Eq, Structural)]
pub enum RowError {
    /// The cell has no place in a row of this width.
    CellOutOfRange { cell: u32, width: u32 },
    /// A transfer was recorded though none was left to make.
    TooManyTransfers,
}

/// What a transfer did: how many cells it moved, how many of those asked for
/// it could not move, and the lowest and the highest cell that it moved.
#[derive(Debug, Clone, Copy, PartialEq, Eq, Structural)]
pub struct TransferResult {
    pub earliest: Option<u32>,
    pub latest: Option<u32>,
    pub transferred: u32,
    pub failed: u32,
}

impl TransferResult {
    /// The result of a transfer of `to_transfer` cells that has moved none yet.
    pub fn new(to_transfer: u32) -> (r: TransferResult)
        ensures
            r == (TransferResult {
                earliest: None,
                latest: None,
                transferred: 0,
                failed: to_transfer,
            }),
    {
        TransferResult { earliest: None, latest: None, transferred: 0, failed: to_transfer }
    }

    /// How many cells are still to be moved.
    pub fn to_transfer(&self) -> (r: u32)
        ensures
            r == self.failed,
    {
        self.failed
    }

    /// Records that `cell` was moved. Where none was left to move, the record
    /// stays as it is and the move is refused.
    pub fn transfer(&mut self, cell: u32) -> (r: Result<(), RowError>)
        requires
            old(self).transferred + old(self).failed <= u32::MAX,
        ensures
            old(self).failed == 0 ==> r == Err::<(), RowError>(RowError::TooManyTransfers)
                && *final(self) == *old(self),
            old(self).failed > 0 ==> r is Ok && *final(self) == (TransferResult {
                earliest: Some(
                    match old(self).earliest {
                        Some(e) if e <= cell => e,
                        _ => cell,
                    },
                ),
                latest: Some(
                    match old(self).latest {
                        Some(l) if l >= cell => l,
                        _ => cell,
                    },
                ),
                transferred: (old(self).transferred + 1) as u32,
                failed: (old(self).failed - 1) as u32,
            }),
    {
        if self.failed == 0 {
            return Err(RowError::TooManyTransfers);
        }
        self.failed = self.failed - 1;
        self.transferred = self.transferred + 1;
        match self.earliest {
            Some(e) => {
                if cell < e {
                    self.earliest = Some(cell);
                }
            },
            None => {
                self.earliest = Some(cell);
            },
        }
        match self.latest {
            Some(l) => {
                if cell > l {
                    self.latest = Some(cell);
                }
            },
            None => {
                self.latest = Some(cell);
            },
        }
        Ok(())
    }
}

/// The cells of one row, eight to a byte. Bytes are added as cells are set;
/// a cell whose byte is missing is unset.
#[derive(Debug)]
pub struct ChartRow {
    num_cells: u32,
    cells: Vec<u8>,
}

/// Whether bit `i` of `b` is set.
pub closed spec fn byte_has(b: u8, i: u8) -> bool {
    b & (1u8 << i) != 0
}

proof fn lemma_byte_ops(b: u8, i: u8, j: u8)
    requires
        i < 8,
        j < 8,
    ensures
        byte_has(b | (1u8 << i), j) == (i == j || byte_has(b, j)),
        byte_has(b & !(1u8 << i), j) == (i != j && byte_has(b, j)),
        !byte_has(0u8, j),
{
    assert(((b | (1u8 << i)) & (1u8 << j) != 0) == (i == j || (b & (1u8 << j) != 0))) by (bit_vector)
        requires
            i < 8,
            j < 8,
    ;
    assert(((b & !(1u8 << i)) & (1u8 << j) != 0) == (i != j && (b & (1u8 << j) != 0)))
        by (bit_vector)
        requires
            i < 8,
            j < 8,
    ;
    assert(0u8 & (1u8 << j) == 0) by (bit_vector);
}

/// Whether the bytes `cells` hold cell `c` as set.
pub closed spec fn bytes_have(cells: Seq<u8>, c: int) -> bool {
    0 <= c && c / 8 < cells.len() && byte_has(cells[c / 8], (c % 8) as u8)
}

/// How many of the cells `lo .. hi` of a row are set. A cell that the row
/// does not have counts as unset.
pub open spec fn count_in(row: Seq<bool>, lo: int, hi: int) -> int
    decreases hi - lo,
{
    if hi <= lo {
        0
    } else {
        count_in(row, lo, hi - 1) + if 0 <= hi - 1 < row.len() && row[hi - 1] {
            1int
        } else {
            0int
        }
    }
}

/// A count is at least 0 and at most the number of cells looked at.
pub proof fn lemma_count_bounds(row: Seq<bool>, lo: int, hi: int)
    ensures
        0 <= count_in(row, lo, hi),
        lo <= hi ==> count_in(row, lo, hi) <= hi - lo,
    decreases hi - lo,
{
    if hi > lo {
        lemma_count_bounds(row, lo, hi - 1);
    }
}

/// Cells beyond the row add nothing to a count.
pub proof fn lemma_count_beyond(row: Seq<bool>, lo: int, hi: int)
    requires
        row.len() <= hi,
    ensures
        count_in(row, lo, hi) == count_in(row, lo, row.len() as int),
    decreases hi - row.len(),
{
    if hi > row.len() {
        lemma_count_beyond(row, lo, hi - 1);
        if hi - 1 < lo {
            lemma_count_empty(row, lo, row.len() as int);
        }
    }
}

/// Where no cell is looked at, none is counted.
pub proof fn lemma_count_empty(row: Seq<bool>, lo: int, hi: int)
    requires
        hi <= lo,
    ensures
        count_in(row, lo, hi) == 0,
{
}

/// What changing one cell does to a count.
pub proof fn lemma_count_update(row: Seq<bool>, c: int, v: bool, lo: int, hi: int)
    requires
        0 <= c < row.len(),
    ensures
        count_in(row.update(c, v), lo, hi) == count_in(row, lo, hi) + if lo <= c < hi && v
            && !row[c] {
            1int
        } else if lo <= c < hi && !v && row[c] {
            -1int
        } else {
            0int
        },
    decreases hi - lo,
{
    if hi > lo {
        lemma_count_update(row, c, v, lo, hi - 1);
    }
}

impl View for ChartRow {
    type V = Seq<bool>;

    /// The row as one flag for each of its cells.
    closed spec fn view(&self) -> Seq<bool> {
        Seq::new(self.num_cells as nat, |c: int| bytes_have(self.cells@, c))
    }
}

impl ChartRow {
    /// Whether the row has cell `c`, and has it set.
    pub open spec fn has(&self, c: int) -> bool {
        0 <= c < self@.len() && self@[c]
    }

    /// A row of `num_cells` cells, none of them set.
    pub fn new(num_cells: u32) -> (r: ChartRow)
        ensures
            r@.len() == num_cells,
            forall|c: int| 0 <= c < num_cells ==> !r@[c],
    {
        ChartRow { num_cells, cells: Vec::new() }
    }

    pub fn get_num_cells(&self) -> (r: u32)
        ensures
            r == self@.len(),
    {
        self.num_cells
    }

    /// Sets one cell. A cell beyond the row is refused, and the row stays as it is.
    pub fn set(&mut self, cell: u32) -> (r: Result<(), RowError>)
        ensures
            final(self)@.len() == old(self)@.len(),
            cell < old(self)@.len() ==> r is Ok && final(self)@ == old(self)@.update(
                cell as int,
                true,
            ),
            cell >= old(self)@.len() ==> final(self)@ == old(self)@ && r == Err::<(), RowError>(
                RowError::CellOutOfRange { cell, width: old(self)@.len() as u32 },
            ),
    {
        if cell >= self.num_cells {
            return Err(RowError::CellOutOfRange { cell, width: self.num_cells });
        }
        let byte: usize = (cell / 8) as usize;
        let bit: u8 = (cell % 8) as u8;
        let test: u8 = 1u8 << bit;
        let ghost before = self.cells@;
        while self.cells.len() <= byte
            invariant
                self.num_cells == old(self).num_cells,
                before == old(self).cells@,
                self.cells@.len() >= before.len(),
                forall|k: int| 0 <= k < before.len() ==> self.cells@[k] == before[k],
                forall|k: int| before.len() <= k < self.cells@.len() ==> self.cells@[k] == 0u8,
            decreases byte + 1 - self.cells.len(),
        {
            self.cells.push(0);
        }
        let ghost grown = self.cells@;
        let value: u8 = self.cells[byte] | test;
        self.cells.set(byte, value);
        proof {
            assert forall|c: int| 0 <= c < self.num_cells implies bytes_have(self.cells@, c) == (c
                == cell || bytes_have(before, c)) by {
                if c / 8 < grown.len() {
                    lemma_byte_ops(grown[c / 8], bit, (c % 8) as u8);
                }
            }
            assert forall|c: int| 0 <= c < self@.len() implies self@[c] == old(self)@.update(
                cell as int,
                true,
            )[c] by {
                assert(self@[c] == bytes_have(self.cells@, c));
                assert(old(self)@[c] == bytes_have(before, c));
            }
            assert(self@ =~= old(self)@.update(cell as int, true));
        }
        Ok(())
    }

    /// Unsets one cell. A cell beyond the row is refused, and the row stays as it is.
    pub fn unset(&mut self, cell: u32) -> (r: Result<(), RowError>)
        ensures
            final(self)@.len() == old(self)@.len(),
            cell < old(self)@.len() ==> r is Ok && final(self)@ == old(self)@.update(
                cell as int,
                false,
            ),
            cell >= old(self)@.len() ==> final(self)@ == old(self)@ && r == Err::<(), RowError>(
                RowError::CellOutOfRange { cell, width: old(self)@.len() as u32 },
            ),
    {
        if cell >= self.num_cells {
            return Err(RowError::CellOutOfRange { cell, width: self.num_cells });
        }
        let byte: usize = (cell / 8) as usize;
        let bit: u8 = (cell % 8) as u8;
        let test: u8 = 1u8 << bit;
        let ghost before = self.cells@;
        if self.cells.len() > byte {
            let value: u8 = self.cells[byte] & !test;
            self.cells.set(byte, value);
        }
        proof {
            assert forall|c: int| 0 <= c < self.num_cells implies bytes_have(self.cells@, c) == (c
                != cell && bytes_have(before, c)) by {
                if c / 8 < before.len() {
                    lemma_byte_ops(before[c / 8], bit, (c % 8) as u8);
                }
            }
            assert forall|c: int| 0 <= c < self@.len() implies self@[c] == old(self)@.update(
                cell as int,
                false,
            )[c] by {
                assert(self@[c] == bytes_have(self.cells@, c));
                assert(old(self)@[c] == bytes_have(before, c));
            }
            assert(self@ =~= old(self)@.update(cell as int, false));
        }
        Ok(())
    }

    /// Sets every cell of a period. Where the period reaches beyond the row,
    /// the cells that the row has are set and the first one that it lacks is
    /// reported.
    pub fn set_range(&mut self, period: &ChartPeriod) -> (r: Result<(), RowError>)
        ensures
            final(self)@.len() == old(self)@.len(),
            forall|c: int|
                0 <= c < old(self)@.len() ==> #[trigger] final(self)@[c] == (old(self)@[c] || period.contains(
                    c,
                )),
            period.last() < old(self)@.len() ==> r is Ok,
            period.last() >= old(self)@.len() ==> r == Err::<(), RowError>(
                RowError::CellOutOfRange {
                    cell: if period.first() >= old(self)@.len() {
                        period.first() as u32
                    } else {
                        old(self)@.len() as u32
                    },
                    width: old(self)@.len() as u32,
                },
            ),
    {
        let first = period.get_first();
        let last = period.get_last();
        let mut cell: u32 = first;
        while cell <= last && cell < self.num_cells
            invariant
                first <= cell <= last + 1,
                cell == first || cell <= self.num_cells,
                last < u32::MAX,
                self@.len() == old(self)@.len(),
                self.num_cells == self@.len(),
                forall|c: int|
                    0 <= c < self@.len() ==> self@[c] == (old(self)@[c] || first <= c < cell),
            decreases last + 1 - cell,
        {
            let _ = self.set(cell);
            cell = cell + 1;
        }
        if last >= self.num_cells {
            Err(RowError::CellOutOfRange { cell, width: self.num_cells })
        } else {
            Ok(())
        }
    }

    /// How many of the cells `lo .. hi` are set.
    fn count_cells(&self, lo: u32, hi: u32) -> (r: u32)
        requires
            lo <= hi <= self@.len(),
        ensures
            r == count_in(self@, lo as int, hi as int),
            r <= hi - lo,
    {
        let mut count: u32 = 0;
        let mut cell: u32 = lo;
        while cell < hi
            invariant
                lo <= cell <= hi <= self@.len(),
                count == count_in(self@, lo as int, cell as int),
                count <= cell - lo,
            decreases hi - cell,
        {
            if self.is_set(cell) {
                count = count + 1;
            }
            cell = cell + 1;
        }
        count
    }

    /// How many cells of a period are set.
    pub fn count_range(&self, period: &ChartPeriod) -> (r: u32)
        ensures
            r == count_in(self@, period.first(), period.last() + 1),
            r <= period.spec_length(),
            r <= self@.len(),
    {
        let first = period.get_first();
        let last = period.get_last();
        proof {
            lemma_count_bounds(self@, first as int, last + 1);
        }
        if first >= self.num_cells {
            proof {
                lemma_count_beyond(self@, first as int, last + 1);
                lemma_count_empty(self@, first as int, self@.len() as int);
            }
            return 0;
        }
        let hi: u32 = if last + 1 < self.num_cells {
            last + 1
        } else {
            self.num_cells
        };
        proof {
            if last + 1 >= self.num_cells {
                lemma_count_beyond(self@, first as int, last + 1);
            }
        }
        self.count_cells(first, hi)
    }

    /// How many cells of the row are set.
    pub fn count(&self) -> (r: u32)
        ensures
            r == count_in(self@, 0, self@.len() as int),
    {
        self.count_cells(0, self.num_cells)
    }

    /// For each week of the row, how many of its cells are set. The last week
    /// may be cut short by the end of the row.
    pub fn get_weekly_numbers(&self) -> (r: Vec<u32>)
        ensures
            r@.len() == (self@.len() + 19) / 20,
            forall|w: int| 0 <= w < r@.len() ==> r@[w] == count_in(self@, 20 * w, 20 * w + 20),
            forall|w: int| 0 <= w < r@.len() ==> r@[w] <= 20,
    {
        let weeks: u32 = self.num_cells / 20 + if self.num_cells % 20 != 0 {
            1
        } else {
            0
        };
        let mut output: Vec<u32> = Vec::new();
        let mut week: u32 = 0;
        while week < weeks
            invariant
                week <= weeks,
                weeks == (self@.len() + 19) / 20,
                self.num_cells == self@.len(),
                output@.len() == week,
                forall|w: int|
                    0 <= w < week ==> output@[w] == count_in(self@, 20 * w, 20 * w + 20),
                forall|w: int| 0 <= w < week ==> output@[w] <= 20,
            decreases weeks - week,
        {
            let lo: u32 = week * 20;
            let hi: u32 = if self.num_cells - lo < 20 {
                self.num_cells
            } else {
                lo + 20
            };
            proof {
                if self.num_cells - lo < 20 {
                    lemma_count_beyond(self@, lo as int, lo + 20);
                }
            }
            output.push(self.count_cells(lo, hi));
            week = week + 1;
        }
        output
    }

    /// The weekly numbers in columns of three characters; a week without a
    /// set cell is left blank.
    pub fn get_weekly_summary(&self) -> (r: String)
        ensures
            r@ == weekly_text(self.get_weekly_numbers_spec()),
    {
        let numbers = self.get_weekly_numbers();
        assert(numbers@ =~= self.get_weekly_numbers_spec());
        let mut output = String::new();
        let mut i: usize = 0;
        while i < numbers.len()
            invariant
                i <= numbers@.len(),
                output@ == weekly_text(numbers@.subrange(0, i as int)),
            decreases numbers@.len() - i,
        {
            let column = week_column(numbers[i]);
            output.append(column.as_str());
            proof {
                let done = numbers@.subrange(0, i + 1);
                assert(done.drop_last() == numbers@.subrange(0, i as int));
            }
            i = i + 1;
        }
        assert(numbers@.subrange(0, numbers@.len() as int) == numbers@);
        output
    }

    /// The weekly numbers of the row.
    pub open spec fn get_weekly_numbers_spec(&self) -> Seq<u32> {
        Seq::new(
            ((self@.len() + 19) / 20) as nat,
            |w: int| count_in(self@, 20 * w, 20 * w + 20) as u32,
        )
    }

    /// The row as text: `o` for a set cell and `_` for an unset one, in brackets.
    pub fn to_string(&self) -> (r: String)
        ensures
            r@ == seq!['['] + Seq::new(
                self@.len(),
                |c: int| if self@[c] {
                    'o'
                } else {
                    '_'
                },
            ) + seq![']'],
    {
        proof {
            reveal_strlit("[");
            reveal_strlit("]");
            reveal_strlit("o");
            reveal_strlit("_");
        }
        let mut output = String::from_str("[");
        let mut cell: u32 = 0;
        while cell < self.num_cells
            invariant
                cell <= self.num_cells,
                self.num_cells == self@.len(),
                output@ == seq!['['] + Seq::new(
                    cell as nat,
                    |c: int| if self@[c] {
                        'o'
                    } else {
                        '_'
                    },
                ),
            decreases self.num_cells - cell,
        {
            proof {
                reveal_strlit("o");
                reveal_strlit("_");
            }
            if self.is_set(cell) {
                output.append("o");
            } else {
                output.append("_");
            }
            cell = cell + 1;
            assert(output@ =~= seq!['['] + Seq::new(
                cell as nat,
                |c: int| if self@[c] {
                    'o'
                } else {
                    '_'
                },
            ));
        }
        let ghost body = output@;
        output.append("]");
        assert(output@ =~= body + seq![']']);
        output
    }

    /// Whether a cell is set; a cell beyond the row is not.
    pub fn is_set(&self, cell: u32) -> (r: bool)
        ensures
            r == self.has(cell as int),
    {
        if cell >= self.num_cells {
            return false;
        }
        let byte: usize = (cell / 8) as usize;
        let bit: u8 = (cell % 8) as u8;
        let test: u8 = 1u8 << bit;
        if self.cells.len() < byte + 1 {
            return false;
        }
        self.cells[byte] & test != 0
    }
}

/// One column of the weekly summary: blank for 0, else the number, flush right
/// in three characters.
pub open spec fn week_column_text(n: u32) -> Seq<char> {
    if n == 0 {
        seq![' ', ' ', ' ']
    } else if n < 10 {
        seq![' ', ' '] + decimal_text(n as nat)
    } else if n < 100 {
        seq![' '] + decimal_text(n as nat)
    } else {
        decimal_text(n as nat)
    }
}

/// The columns of the weekly summary, one after the other.
pub open spec fn weekly_text(numbers: Seq<u32>) -> Seq<char>
    decreases numbers.len(),
{
    if numbers.len() == 0 {
        Seq::empty()
    } else {
        weekly_text(numbers.drop_last()) + week_column_text(numbers.last())
    }
}

fn week_column(n: u32) -> (r: String)
    ensures
        r@ == week_column_text(n),
{
    proof {
        reveal_strlit("   ");
        reveal_strlit("  ");
        reveal_strlit(" ");
    }
    if n == 0 {
        let r = String::from_str("   ");
        assert(r@ =~= week_column_text(n));
        r
    } else if n < 10 {
        let mut r = String::from_str("  ");
        r.append(decimal_string(n).as_str());
        assert(r@ =~= week_column_text(n));
        r
    } else if n < 100 {
        let mut r = String::from_str(" ");
        r.append(decimal_string(n).as_str());
        assert(r@ =~= week_column_text(n));
        r
    } else {
        decimal_string(n)
    }
}

} // verus!
