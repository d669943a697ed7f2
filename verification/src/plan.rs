//! The immutable part of a scan: metadata, projection and compiled
//! predicates, with what they say of every row of a file.

use vstd::prelude::*;
use crate::decode::{read_at, read_val};
use crate::metadata::{Column, Metadata};
use crate::qual::{stats_exclude, CustomQual, Limit};
use crate::value::{Cell, CellValue};

verus! {

/// A compiled predicate with the places it refers to.
#[derive(Debug)]
pub struct PlannedQual {
    /// Position of the predicate's column in the metadata.
    pub col: usize,
    /// First position of the predicate's column in the projection, if it is
    /// projected: the decoded cell is written there.
    pub proj: Option<usize>,
    /// Operator and right-hand side.
    pub qual: CustomQual,
}

/// What a scan is to do: fixed when the scan begins.
#[derive(Debug)]
pub struct ScanPlan {
    /// Metadata of the file.
    pub metadata: Metadata,
    /// Number of blocks of the file.
    pub num_blocks: u32,
    /// Names of the projected columns, in the order of the cells of a row.
    pub cols: Vec<String>,
    /// For each projected column its position in the metadata.
    pub proj_cols: Vec<usize>,
    /// Bound on the number of rows to produce.
    pub limit: Limit,
    /// The predicates, in the order supplied.
    pub quals: Vec<PlannedQual>,
    /// The positions of the projection that no predicate writes, ascending,
    /// each with the position of its column in the metadata.
    pub non_pred_cols: Vec<(usize, usize)>,
}

/// What evaluating the predicates on a row comes to.
pub enum Verdict {
    /// Every predicate holds.
    Pass,
    /// A predicate does not hold, and every one before it does.
    Fail,
    /// A cell that a predicate needs does not decode, and every predicate
    /// before it holds.
    Corrupt,
}

/// What a row of the file comes to in a scan.
pub enum RowResult {
    /// A predicate does not hold of the row.
    Filtered,
    /// A cell that the scan needs does not decode.
    Corrupt,
    /// The row is produced, with these cells.
    Row(Seq<CellValue>),
}

/// What reading a row came to.
#[derive(Debug, Clone, Copy, PartialEq, Eq, Structural)]
pub enum RowStep {
    /// Every predicate holds and the row buffer holds the projection.
    Emitted,
    /// A predicate does not hold.
    Filtered,
    /// A cell did not decode.
    Corrupt,
}

/// The mathematical values of the cells of a row.
pub open spec fn row_view(row: Seq<Cell>) -> Seq<CellValue> {
    row.map_values(|c: Cell| c@)
}

/// Predicate `k` writes position `i` of the projection.
pub open spec fn writes_at(quals: Seq<PlannedQual>, k: int, i: int) -> bool {
    quals[k].proj matches Some(p) && p == i
}

/// A predicate writes position `i` of the projection.
pub open spec fn written(quals: Seq<PlannedQual>, i: int) -> bool {
    exists|k: int| 0 <= k < quals.len() && #[trigger] writes_at(quals, k, i)
}

/// `(b1, r1)` comes before `(b2, r2)` in file order.
pub open spec fn precedes(b1: u32, r1: u32, b2: u32, r2: u32) -> bool {
    b1 < b2 || (b1 == b2 && r1 < r2)
}

impl ScanPlan {
    /// The column at a position of the metadata.
    pub open spec fn column(&self, col: int) -> Column {
        self.metadata.columns@[col]
    }

    /// Position of a row in the file, counted from its first row.
    pub open spec fn row_index(&self, block: u32, row: u32) -> nat {
        (block * self.metadata.max_vals_per_block + row) as nat
    }

    /// Byte offset of the value of a column in a row.
    pub open spec fn offset_of(&self, col: int, block: u32, row: u32) -> nat {
        (self.column(col).start_offset + self.row_index(block, row) * self.column(
            col,
        ).column_type().width()) as nat
    }

    /// The value of a column in a row, where it decodes.
    pub open spec fn cell(&self, data: Seq<u8>, col: int, block: u32, row: u32) -> Option<
        CellValue,
    > {
        read_at(data, self.offset_of(col, block, row), self.column(col).column_type())
    }

    /// The value that predicate `k` reads in a row.
    pub open spec fn qual_cell(&self, data: Seq<u8>, k: int, block: u32, row: u32) -> Option<
        CellValue,
    > {
        self.cell(data, self.quals@[k].col as int, block, row)
    }

    /// The value at position `i` of the projection of a row.
    pub open spec fn proj_cell(&self, data: Seq<u8>, i: int, block: u32, row: u32) -> Option<
        CellValue,
    > {
        self.cell(data, self.proj_cols@[i] as int, block, row)
    }

    /// Evaluates the predicates from the `k`-th on, in order, stopping at the
    /// first that fails or cannot be read.
    pub open spec fn quals_from(&self, data: Seq<u8>, block: u32, row: u32, k: nat) -> Verdict
        decreases self.quals@.len() - k,
    {
        if k >= self.quals@.len() {
            Verdict::Pass
        } else {
            match self.qual_cell(data, k as int, block, row) {
                None => Verdict::Corrupt,
                Some(v) => if self.quals@[k as int].qual.holds(v) {
                    self.quals_from(data, block, row, k + 1)
                } else {
                    Verdict::Fail
                },
            }
        }
    }

    /// Every projected cell of the row decodes.
    pub open spec fn decodes(&self, data: Seq<u8>, block: u32, row: u32) -> bool {
        forall|i: int|
            0 <= i < self.proj_cols@.len() ==> (#[trigger] self.proj_cell(data, i, block, row)) is Some
    }

    /// The projection of a row: one cell for each projected column, in the
    /// order of the projection.
    pub open spec fn projected(&self, data: Seq<u8>, block: u32, row: u32) -> Seq<CellValue> {
        Seq::new(self.proj_cols@.len(), |i: int| self.proj_cell(data, i, block, row).unwrap())
    }

    /// What a row comes to: filtered where a predicate fails, corrupt where a
    /// needed cell does not decode, else its projection.
    pub open spec fn row_result(&self, data: Seq<u8>, block: u32, row: u32) -> RowResult {
        match self.quals_from(data, block, row, 0) {
            Verdict::Fail => RowResult::Filtered,
            Verdict::Corrupt => RowResult::Corrupt,
            Verdict::Pass => if self.decodes(data, block, row) {
                RowResult::Row(self.projected(data, block, row))
            } else {
                RowResult::Corrupt
            },
        }
    }

    /// The statistics of a block exclude predicate `k`.
    pub open spec fn qual_excludes(&self, k: int, block: u32) -> bool {
        stats_exclude(
            self.quals@[k].qual.op,
            self.column(self.quals@[k].col as int).block_stats,
            block,
            self.quals@[k].qual.rhs@,
        )
    }

    /// The block is pruned: the statistics exclude one of the predicates.
    pub open spec fn skips(&self, block: u32) -> bool {
        exists|k: int| 0 <= k < self.quals@.len() && #[trigger] self.qual_excludes(k, block)
    }

    /// The scan visits the row: it lies in a block of the file that is not
    /// pruned, among the rows that the block holds.
    pub open spec fn visits(&self, block: u32, row: u32) -> bool {
        &&& block < self.num_blocks
        &&& row < self.metadata.rows_in_block(block)
        &&& !self.skips(block)
    }

    /// The scan stops at the row: it visits it and no predicate fails on it.
    pub open spec fn hit(&self, data: Seq<u8>, block: u32, row: u32) -> bool {
        self.visits(block, row) && !(self.row_result(data, block, row) is Filtered)
    }

    /// A predicate writes position `i` of the projection.
    pub open spec fn qual_writes(&self, i: int) -> bool {
        written(self.quals@, i)
    }

    /// Position `i` of the projection is among those left to the second pass.
    pub open spec fn rest_writes(&self, i: int) -> bool {
        exists|m: int| 0 <= m < self.non_pred_cols@.len() && (#[trigger] self.non_pred_cols@[m]).0 == i
    }

    /// The parts of the plan fit together.
    pub open spec fn wf(&self) -> bool {
        &&& self.metadata.wf()
        &&& self.num_blocks == self.metadata.spec_num_blocks()
        &&& self.proj_cols@.len() == self.cols@.len()
        &&& forall|i: int|
            0 <= i < self.proj_cols@.len() ==> self.metadata.is_column(
                (#[trigger] self.cols@[i])@,
                self.proj_cols@[i] as int,
            )
        &&& forall|k: int|
            0 <= k < self.quals@.len() ==> {
                let q = #[trigger] self.quals@[k];
                &&& q.col < self.metadata.columns@.len()
                &&& q.qual.rhs@.column_type() == self.column(q.col as int).column_type()
                &&& q.proj matches Some(i) ==> i < self.proj_cols@.len() && self.proj_cols@[i as int]
                    == q.col
            }
        &&& forall|m: int|
            0 <= m < self.non_pred_cols@.len() ==> {
                let e = #[trigger] self.non_pred_cols@[m];
                &&& e.0 < self.proj_cols@.len()
                &&& e.1 == self.proj_cols@[e.0 as int]
                &&& !self.qual_writes(e.0 as int)
            }
        &&& forall|m: int, n: int|
            0 <= m < n < self.non_pred_cols@.len() ==> (#[trigger] self.non_pred_cols@[m]).0 < (
            #[trigger] self.non_pred_cols@[n]).0
        &&& forall|i: int|
            0 <= i < self.proj_cols@.len() ==> self.qual_writes(i) || #[trigger] self.rest_writes(i)
    }

    /// Determine if the block is to be read, skipping over the ones filtered
    /// out by predicate pushdown: true where the statistics of the block
    /// exclude any one of the predicates.
    pub fn skip_block(&self, block_num: u32) -> (r: bool)
        requires
            self.wf(),
        ensures
            r == self.skips(block_num),
    {
        let mut k: usize = 0;
        while k < self.quals.len()
            invariant
                self.wf(),
                k <= self.quals@.len(),
                forall|k2: int| 0 <= k2 < k ==> !#[trigger] self.qual_excludes(k2, block_num),
            decreases self.quals.len() - k,
        {
            let q = &self.quals[k];
            assert(q == self.quals@[k as int]);
            let col = &self.metadata.columns[q.col];
            if q.qual.excludes(&col.block_stats, block_num) {
                assert(self.qual_excludes(k as int, block_num));
                return true;
            }
            k += 1;
        }
        false
    }

    /// Reads the value of a column in a row of a block.
    ///
    /// The value lies `field_size` bytes wide at `start_offset + (block *
    /// max_vals_per_block + row) * field_size`. Returns `None` where those
    /// bytes are not all within `data`, or hold a string without terminator.
    pub fn read_cell(&self, data: &[u8], col: usize, block: u32, row: u32) -> (r: Option<Cell>)
        requires
            col < self.metadata.columns@.len(),
        ensures
            match r {
                Some(cell) => self.cell(data@, col as int, block, row) == Some(cell@),
                None => self.cell(data@, col as int, block, row) is None,
            },
    {
        let column = &self.metadata.columns[col];
        let max: u32 = self.metadata.max_vals_per_block;
        let kind = column.block_stats.kind();
        let field_size: usize = kind.field_size();
        assert(block * max + row <= 0xffff_ffff * 0xffff_ffff + 0xffff_ffff) by (nonlinear_arith)
            requires
                block <= 0xffff_ffff,
                max <= 0xffff_ffff,
                row <= 0xffff_ffff,
        ;
        let abs_row_num: u128 = block as u128 * max as u128 + row as u128;
        assert(abs_row_num * field_size <= (0xffff_ffff * 0xffff_ffff + 0xffff_ffff) * 32)
            by (nonlinear_arith)
            requires
                abs_row_num <= 0xffff_ffff * 0xffff_ffff + 0xffff_ffff,
                field_size <= 32,
        ;
        let read_offset: u128 = column.start_offset as u128 + abs_row_num * field_size as u128;
        read_val(data, read_offset, kind)
    }

    /// Brings the row buffer to the width of the projection: cells beyond it
    /// are dropped, missing ones are added as `Int(0)`.
    pub fn fit_row(&self, row: &mut Vec<Cell>)
        ensures
            final(row)@.len() == self.proj_cols@.len(),
            forall|i: int|
                0 <= i < final(row)@.len() ==> #[trigger] final(row)@[i] == if i < old(row)@.len() {
                    old(row)@[i]
                } else {
                    Cell::Int(0)
                },
    {
        let width: usize = self.proj_cols.len();
        while row.len() > width
            invariant
                width == self.proj_cols@.len(),
                row@.len() <= old(row)@.len(),
                row@.len() >= width || row@.len() == old(row)@.len(),
                forall|i: int| 0 <= i < row@.len() ==> #[trigger] row@[i] == old(row)@[i],
            decreases row.len(),
        {
            row.pop();
        }
        while row.len() < width
            invariant
                width == self.proj_cols@.len(),
                row.len() <= width,
                row@.len() >= width || row@.len() >= old(row)@.len(),
                forall|i: int|
                    0 <= i < row@.len() ==> #[trigger] row@[i] == if i < old(row)@.len() {
                        old(row)@[i]
                    } else {
                        Cell::Int(0)
                    },
            decreases width - row.len(),
        {
            row.push(Cell::Int(0));
        }
    }

    /// Reads one row into the row buffer.
    ///
    /// The columns of the predicates are decoded first, in the order of the
    /// predicates, each cell going to its place in the buffer; at the first
    /// predicate that fails the row is given up. Only where every predicate
    /// holds are the other projected columns decoded.
    pub fn read_row(&self, data: &[u8], block: u32, row_num: u32, row: &mut Vec<Cell>) -> (r:
        RowStep)
        requires
            self.wf(),
            old(row)@.len() == self.proj_cols@.len(),
        ensures
            final(row)@.len() == self.proj_cols@.len(),
            match r {
                RowStep::Emitted => self.row_result(data@, block, row_num) == RowResult::Row(
                    row_view(final(row)@),
                ),
                RowStep::Filtered => self.row_result(data@, block, row_num) is Filtered,
                RowStep::Corrupt => self.row_result(data@, block, row_num) is Corrupt,
            },
    {
        let mut k: usize = 0;
        while k < self.quals.len()
            invariant
                self.wf(),
                k <= self.quals@.len(),
                row@.len() == self.proj_cols@.len(),
                self.quals_from(data@, block, row_num, 0) == self.quals_from(
                    data@,
                    block,
                    row_num,
                    k as nat,
                ),
                forall|k2: int|
                    0 <= k2 < k ==> ((#[trigger] self.quals@[k2]).proj matches Some(i) ==> Some(
                        row@[i as int]@,
                    ) == self.proj_cell(data@, i as int, block, row_num)),
            decreases self.quals.len() - k,
        {
            let q = &self.quals[k];
            assert(q == self.quals@[k as int]);
            let cell = match self.read_cell(data, q.col, block, row_num) {
                Some(cell) => cell,
                None => {
                    return RowStep::Corrupt;
                },
            };
            let passed = q.qual.eval(&cell);
            match q.proj {
                Some(i) => {
                    row.set(i, cell);
                },
                None => {},
            }
            if !passed {
                // row does not satisfy the predicate
                return RowStep::Filtered;
            }
            k += 1;
        }
        let mut m: usize = 0;
        while m < self.non_pred_cols.len()
            invariant
                self.wf(),
                m <= self.non_pred_cols@.len(),
                row@.len() == self.proj_cols@.len(),
                self.quals_from(data@, block, row_num, 0) is Pass,
                forall|k2: int|
                    0 <= k2 < self.quals@.len() ==> ((#[trigger] self.quals@[k2]).proj matches Some(
                        i,
                    ) ==> Some(row@[i as int]@) == self.proj_cell(data@, i as int, block, row_num)),
                forall|m2: int|
                    0 <= m2 < m ==> Some(row@[(#[trigger] self.non_pred_cols@[m2]).0 as int]@)
                        == self.proj_cell(
                        data@,
                        self.non_pred_cols@[m2].0 as int,
                        block,
                        row_num,
                    ),
            decreases self.non_pred_cols.len() - m,
        {
            let (i, col) = self.non_pred_cols[m];
            assert((i, col) == self.non_pred_cols@[m as int]);
            assert(self.metadata.is_column(self.cols@[i as int]@, col as int));
            match self.read_cell(data, col, block, row_num) {
                Some(cell) => {
                    row.set(i, cell);
                },
                None => {
                    assert(self.proj_cell(data@, i as int, block, row_num) is None);
                    return RowStep::Corrupt;
                },
            }
            m += 1;
        }
        proof {
            assert forall|i: int| 0 <= i < self.proj_cols@.len() implies Some(row@[i]@)
                == #[trigger] self.proj_cell(data@, i, block, row_num) by {
                if self.qual_writes(i) {
                    let k2 = choose|k2: int|
                        0 <= k2 < self.quals@.len() && #[trigger] writes_at(self.quals@, k2, i);
                    assert(self.quals@[k2].proj matches Some(i2) && i2 == i);
                } else {
                    assert(self.rest_writes(i));
                    let m2 = choose|m2: int|
                        0 <= m2 < self.non_pred_cols@.len() && (#[trigger] self.non_pred_cols@[m2]).0
                            == i;
                    assert(self.non_pred_cols@[m2].0 == i);
                }
            }
            assert(row_view(row@) =~= self.projected(data@, block, row_num));
        }
        RowStep::Emitted
    }
}

} // verus!
