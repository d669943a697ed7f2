//! The rows of a whole scan, and what holds of them.

use vstd::prelude::*;
use crate::plan::{precedes, RowResult, ScanPlan, Verdict};
use crate::qual::{lemma_excluded_value_fails, zone_covers};
use crate::value::CellValue;

verus! {

impl ScanPlan {
    /// The positions `(block, row)` of the rows that a scan produces, in the
    /// order in which it produces them, when it starts at a position and may
    /// produce `budget` rows: it leaves out pruned blocks and rows on which a
    /// predicate fails, and ends at the first row that does not decode.
    pub open spec fn rows_from(&self, data: Seq<u8>, block: u32, row: u32, budget: nat) -> Seq<
        (u32, u32),
    >
        decreases self.num_blocks - block, self.metadata.max_vals_per_block - row,
    {
        if budget == 0 || block >= self.num_blocks {
            Seq::empty()
        } else if row >= self.metadata.rows_in_block(block) || self.skips(block) {
            self.rows_from(data, (block + 1) as u32, 0, budget)
        } else {
            match self.row_result(data, block, row) {
                RowResult::Filtered => self.rows_from(data, block, (row + 1) as u32, budget),
                RowResult::Corrupt => Seq::empty(),
                RowResult::Row(_) => seq![(block, row)] + self.rows_from(
                    data,
                    block,
                    (row + 1) as u32,
                    (budget - 1) as nat,
                ),
            }
        }
    }

    /// Number of rows of the file from a position on.
    pub open spec fn span(&self, block: u32, row: u32) -> nat
        decreases self.num_blocks - block, self.metadata.max_vals_per_block - row,
    {
        if block >= self.num_blocks {
            0
        } else if row >= self.metadata.rows_in_block(block) {
            self.span((block + 1) as u32, 0)
        } else {
            1 + self.span(block, (row + 1) as u32)
        }
    }

    /// Every predicate can be read and holds in the row.
    pub open spec fn satisfies(&self, data: Seq<u8>, block: u32, row: u32) -> bool {
        forall|k: int|
            0 <= k < self.quals@.len() ==> (#[trigger] self.qual_cell(data, k, block, row)
                matches Some(v) && self.quals@[k].qual.holds(v))
    }

    /// The statistics of a block are true of the data: of every row of the
    /// block, the value of each column that a predicate reads lies within the
    /// bounds that the column's statistics give for the block, as far as they
    /// give any.
    pub open spec fn honest(&self, data: Seq<u8>, block: u32) -> bool {
        forall|k: int, row: u32|
            0 <= k < self.quals@.len() && row < self.metadata.rows_in_block(block) ==> (
            #[trigger] self.qual_cell(data, k, block, row) matches Some(v) ==> (self.column(
                self.quals@[k].col as int,
            ).block_stats.zone(block) matches Some(z) ==> zone_covers(z, v)))
    }

    /// No row that the scan visits fails to decode.
    pub open spec fn sound_data(&self, data: Seq<u8>) -> bool {
        forall|block: u32, row: u32|
            self.visits(block, row) ==> !(#[trigger] self.row_result(data, block, row) is Corrupt)
    }

    /// Where the predicates pass from the `k`-th on, each of them holds.
    pub proof fn lemma_pass_means_holds(&self, data: Seq<u8>, block: u32, row: u32, k: nat)
        requires
            self.quals_from(data, block, row, k) is Pass,
        ensures
            forall|j: int|
                k <= j < self.quals@.len() ==> (#[trigger] self.qual_cell(data, j, block, row)
                    matches Some(v) && self.quals@[j].qual.holds(v)),
        decreases self.quals@.len() - k,
    {
        if k < self.quals@.len() {
            self.lemma_pass_means_holds(data, block, row, k + 1);
        }
    }

    /// Where each predicate from the `k`-th on holds, they pass.
    pub proof fn lemma_holds_means_pass(&self, data: Seq<u8>, block: u32, row: u32, k: nat)
        requires
            forall|j: int|
                k <= j < self.quals@.len() ==> (#[trigger] self.qual_cell(data, j, block, row)
                    matches Some(v) && self.quals@[j].qual.holds(v)),
        ensures
            self.quals_from(data, block, row, k) is Pass,
        decreases self.quals@.len() - k,
    {
        if k < self.quals@.len() {
            assert(self.qual_cell(data, k as int, block, row) is Some);
            self.lemma_holds_means_pass(data, block, row, k + 1);
        }
    }

    /// Soundness of the filter: a row that the scan produces satisfies every
    /// predicate.
    pub proof fn lemma_produced_row_satisfies(&self, data: Seq<u8>, block: u32, row: u32)
        requires
            self.row_result(data, block, row) is Row,
        ensures
            self.satisfies(data, block, row),
    {
        self.lemma_pass_means_holds(data, block, row, 0);
    }

    /// Width and types of a row: a row that the scan produces has one cell
    /// for each projected column, and each cell has the type of its column.
    pub proof fn lemma_projection(&self, data: Seq<u8>, block: u32, row: u32)
        requires
            self.wf(),
            self.row_result(data, block, row) is Row,
        ensures
            self.row_result(data, block, row)->Row_0.len() == self.cols@.len(),
            forall|i: int|
                0 <= i < self.cols@.len() ==> (#[trigger] self.row_result(
                    data,
                    block,
                    row,
                )->Row_0[i]).column_type() == self.column(self.proj_cols@[i] as int).column_type()
                    && self.column(self.proj_cols@[i] as int).name@ == self.cols@[i]@,
    {
        let cells = self.row_result(data, block, row)->Row_0;
        assert(cells == self.projected(data, block, row));
        assert forall|i: int| 0 <= i < self.cols@.len() implies (#[trigger] cells[i]).column_type()
            == self.column(self.proj_cols@[i] as int).column_type() && self.column(
            self.proj_cols@[i] as int,
        ).name@ == self.cols@[i]@ by {
            assert(self.proj_cell(data, i, block, row) is Some);
            assert(self.metadata.is_column(self.cols@[i]@, self.proj_cols@[i] as int));
        }
    }

    /// Soundness of pruning: where the statistics of a block are true of the
    /// data, a pruned block holds no row that satisfies every predicate.
    pub proof fn lemma_pruned_block_has_no_match(&self, data: Seq<u8>, block: u32, row: u32)
        requires
            self.honest(data, block),
            self.skips(block),
            row < self.metadata.rows_in_block(block),
        ensures
            !self.satisfies(data, block, row),
    {
        let k = choose|k: int| 0 <= k < self.quals@.len() && #[trigger] self.qual_excludes(k, block);
        if self.satisfies(data, block, row) {
            let v = self.qual_cell(data, k, block, row)->Some_0;
            let z = self.column(self.quals@[k].col as int).block_stats.zone(block)->Some_0;
            assert(zone_covers(z, v));
            lemma_excluded_value_fails(self.quals@[k].qual.op, z, v, self.quals@[k].qual.rhs@);
        }
    }

    /// Completeness of a scan step: where the statistics are true of the
    /// data, the scan stops at every row of the file that satisfies every
    /// predicate.
    pub proof fn lemma_match_is_hit(&self, data: Seq<u8>, block: u32, row: u32)
        requires
            self.honest(data, block),
            block < self.num_blocks,
            row < self.metadata.rows_in_block(block),
            self.satisfies(data, block, row),
        ensures
            self.hit(data, block, row),
    {
        if self.skips(block) {
            self.lemma_pruned_block_has_no_match(data, block, row);
        }
        self.lemma_holds_means_pass(data, block, row, 0);
    }

    /// Without predicates no block is pruned.
    pub proof fn lemma_no_quals_no_pruning(&self, block: u32)
        requires
            self.quals@.len() == 0,
        ensures
            !self.skips(block),
    {
    }

    /// A scan that starts later, with nothing to stop at in between, produces
    /// the same rows.
    pub proof fn lemma_rows_from_jump(
        &self,
        data: Seq<u8>,
        b0: u32,
        r0: u32,
        b1: u32,
        r1: u32,
        budget: nat,
    )
        requires
            !precedes(b1, r1, b0, r0),
            forall|b: u32, r: u32|
                !precedes(b, r, b0, r0) && precedes(b, r, b1, r1) ==> !#[trigger] self.hit(data, b, r),
        ensures
            self.rows_from(data, b0, r0, budget) == self.rows_from(data, b1, r1, budget),
        decreases self.num_blocks - b0, self.metadata.max_vals_per_block - r0,
    {
        if b0 == b1 && r0 == r1 {
        } else if budget == 0 || b0 >= self.num_blocks {
        } else if r0 >= self.metadata.rows_in_block(b0) || self.skips(b0) {
            if b1 == b0 {
            } else {
                self.lemma_rows_from_jump(data, (b0 + 1) as u32, 0, b1, r1, budget);
            }
        } else {
            assert(!self.hit(data, b0, r0));
            self.lemma_rows_from_jump(data, b0, (r0 + 1) as u32, b1, r1, budget);
        }
    }

    /// File order: the rows that a scan produces come at or after its start,
    /// each at a later position than the one before.
    pub proof fn lemma_rows_in_file_order(&self, data: Seq<u8>, block: u32, row: u32, budget: nat)
        ensures
            forall|i: int|
                0 <= i < self.rows_from(data, block, row, budget).len() ==> !precedes(
                    (#[trigger] self.rows_from(data, block, row, budget)[i]).0,
                    self.rows_from(data, block, row, budget)[i].1,
                    block,
                    row,
                ),
            forall|i: int, j: int|
                0 <= i < j < self.rows_from(data, block, row, budget).len() ==> precedes(
                    (#[trigger] self.rows_from(data, block, row, budget)[i]).0,
                    self.rows_from(data, block, row, budget)[i].1,
                    (#[trigger] self.rows_from(data, block, row, budget)[j]).0,
                    self.rows_from(data, block, row, budget)[j].1,
                ),
        decreases self.num_blocks - block, self.metadata.max_vals_per_block - row,
    {
        let all = self.rows_from(data, block, row, budget);
        if budget == 0 || block >= self.num_blocks {
            assert(all.len() == 0);
        } else if row >= self.metadata.rows_in_block(block) || self.skips(block) {
            self.lemma_rows_in_file_order(data, (block + 1) as u32, 0, budget);
            let rest = self.rows_from(data, (block + 1) as u32, 0, budget);
            assert(all == rest);
            assert forall|i: int| 0 <= i < all.len() implies !precedes(
                (#[trigger] all[i]).0,
                all[i].1,
                block,
                row,
            ) by {
                assert(!precedes(rest[i].0, rest[i].1, (block + 1) as u32, 0));
            }
        } else {
            match self.row_result(data, block, row) {
                RowResult::Filtered => {
                    self.lemma_rows_in_file_order(data, block, (row + 1) as u32, budget);
                    let rest = self.rows_from(data, block, (row + 1) as u32, budget);
                    assert(all == rest);
                    assert forall|i: int| 0 <= i < all.len() implies !precedes(
                        (#[trigger] all[i]).0,
                        all[i].1,
                        block,
                        row,
                    ) by {
                        assert(!precedes(rest[i].0, rest[i].1, block, (row + 1) as u32));
                    }
                },
                RowResult::Corrupt => {
                    assert(all.len() == 0);
                },
                RowResult::Row(_) => {
                    self.lemma_rows_in_file_order(data, block, (row + 1) as u32, (budget - 1) as nat);
                    let rest = self.rows_from(data, block, (row + 1) as u32, (budget - 1) as nat);
                    assert(all == seq![(block, row)] + rest);
                    assert forall|i: int| 0 <= i < all.len() implies !precedes(
                        (#[trigger] all[i]).0,
                        all[i].1,
                        block,
                        row,
                    ) by {
                        if i > 0 {
                            assert(all[i] == rest[i - 1]);
                            assert(!precedes(rest[i - 1].0, rest[i - 1].1, block, (row + 1) as u32));
                        }
                    }
                    assert forall|i: int, j: int| 0 <= i < j < all.len() implies precedes(
                        (#[trigger] all[i]).0,
                        all[i].1,
                        (#[trigger] all[j]).0,
                        all[j].1,
                    ) by {
                        assert(all[j] == rest[j - 1]);
                        assert(!precedes(rest[j - 1].0, rest[j - 1].1, block, (row + 1) as u32));
                        if i > 0 {
                            assert(all[i] == rest[i - 1]);
                        }
                    }
                },
            }
        }
    }

    /// Every row that a scan produces is visited, satisfies every predicate
    /// and decodes; and the scan produces no more rows than its budget.
    pub proof fn lemma_rows_are_matches(&self, data: Seq<u8>, block: u32, row: u32, budget: nat)
        ensures
            self.rows_from(data, block, row, budget).len() <= budget,
            forall|i: int|
                0 <= i < self.rows_from(data, block, row, budget).len() ==> {
                    let p = #[trigger] self.rows_from(data, block, row, budget)[i];
                    &&& self.visits(p.0, p.1)
                    &&& self.row_result(data, p.0, p.1) is Row
                    &&& self.satisfies(data, p.0, p.1)
                },
        decreases self.num_blocks - block, self.metadata.max_vals_per_block - row,
    {
        if budget == 0 || block >= self.num_blocks {
        } else if row >= self.metadata.rows_in_block(block) || self.skips(block) {
            self.lemma_rows_are_matches(data, (block + 1) as u32, 0, budget);
        } else {
            match self.row_result(data, block, row) {
                RowResult::Filtered => {
                    self.lemma_rows_are_matches(data, block, (row + 1) as u32, budget);
                },
                RowResult::Corrupt => {},
                RowResult::Row(_) => {
                    self.lemma_rows_are_matches(data, block, (row + 1) as u32, (budget - 1) as nat);
                    self.lemma_produced_row_satisfies(data, block, row);
                },
            }
        }
    }

    /// Counting the rows from a position on gives what is left of the file's
    /// rows.
    pub proof fn lemma_span_counts(&self, block: u32, row: u32)
        requires
            self.wf(),
            block <= self.num_blocks,
            block < self.num_blocks ==> row <= self.metadata.rows_in_block(block),
            block == self.num_blocks ==> row == 0,
        ensures
            self.span(block, row) == if self.metadata.total_rows >= block
                * self.metadata.max_vals_per_block + row {
                self.metadata.total_rows - (block * self.metadata.max_vals_per_block + row)
            } else {
                0
            },
        decreases self.num_blocks - block, self.metadata.max_vals_per_block - row,
    {
        let max = self.metadata.max_vals_per_block;
        let total = self.metadata.total_rows;
        self.metadata.lemma_total_fits();
        if block >= self.num_blocks {
        } else if row >= self.metadata.rows_in_block(block) {
            assert((block + 1) * max == block * max + max) by (nonlinear_arith);
            self.lemma_span_counts((block + 1) as u32, 0);
        } else {
            self.lemma_span_counts(block, (row + 1) as u32);
        }
    }

    /// Without predicates, and where every row decodes, a scan produces every
    /// row from its start on, as far as its budget goes.
    pub proof fn lemma_unfiltered_rows(&self, data: Seq<u8>, block: u32, row: u32, budget: nat)
        requires
            self.quals@.len() == 0,
            self.sound_data(data),
        ensures
            self.rows_from(data, block, row, budget).len() == if budget <= self.span(block, row) {
                budget
            } else {
                self.span(block, row)
            },
        decreases self.num_blocks - block, self.metadata.max_vals_per_block - row,
    {
        if budget == 0 || block >= self.num_blocks {
        } else if row >= self.metadata.rows_in_block(block) || self.skips(block) {
            self.lemma_unfiltered_rows(data, (block + 1) as u32, 0, budget);
        } else {
            assert(self.visits(block, row));
            assert(self.quals_from(data, block, row, 0) is Pass);
            assert(self.row_result(data, block, row) is Row);
            self.lemma_unfiltered_rows(data, block, (row + 1) as u32, (budget - 1) as nat);
        }
    }

    /// The count of a whole scan: without predicates, without a limit that
    /// binds, and where every row decodes, a scan from the start of the file
    /// produces as many rows as the file has.
    pub proof fn lemma_unfiltered_scan_is_whole(&self, data: Seq<u8>, budget: nat)
        requires
            self.wf(),
            self.quals@.len() == 0,
            self.sound_data(data),
            budget >= self.metadata.total_rows,
        ensures
            self.rows_from(data, 0, 0, budget).len() == self.metadata.total_rows,
    {
        self.lemma_span_counts(0, 0);
        self.lemma_unfiltered_rows(data, 0, 0, budget);
    }

    /// Completeness of a whole scan: where every visited row decodes and the
    /// budget covers what is left of the file, a scan produces every row from
    /// its start on that it visits and that satisfies every predicate.
    pub proof fn lemma_rows_complete(
        &self,
        data: Seq<u8>,
        block: u32,
        row: u32,
        budget: nat,
        b: u32,
        r: u32,
    )
        requires
            self.sound_data(data),
            budget >= self.span(block, row),
            !precedes(b, r, block, row),
            self.visits(b, r),
            self.satisfies(data, b, r),
        ensures
            self.rows_from(data, block, row, budget).contains((b, r)),
        decreases self.num_blocks - block, self.metadata.max_vals_per_block - row,
    {
        let all = self.rows_from(data, block, row, budget);
        if block >= self.num_blocks {
        } else if row >= self.metadata.rows_in_block(block) {
            self.lemma_rows_complete(data, (block + 1) as u32, 0, budget, b, r);
        } else if self.skips(block) {
            assert(self.span(block, row) >= self.span((block + 1) as u32, 0)) by {
                self.lemma_span_shrinks(block, row);
            }
            self.lemma_rows_complete(data, (block + 1) as u32, 0, budget, b, r);
        } else if block == b && row == r {
            self.lemma_holds_means_pass(data, b, r, 0);
            assert(all[0] == (b, r));
        } else {
            assert(self.visits(block, row));
            match self.row_result(data, block, row) {
                RowResult::Filtered => {
                    self.lemma_rows_complete(data, block, (row + 1) as u32, budget, b, r);
                },
                RowResult::Corrupt => {},
                RowResult::Row(_) => {
                    self.lemma_rows_complete(
                        data,
                        block,
                        (row + 1) as u32,
                        (budget - 1) as nat,
                        b,
                        r,
                    );
                    let rest = self.rows_from(data, block, (row + 1) as u32, (budget - 1) as nat);
                    let i = choose|i: int| 0 <= i < rest.len() && rest[i] == (b, r);
                    assert(all[i + 1] == (b, r));
                },
            }
        }
    }

    /// From a row within a block on there are at least as many rows as from
    /// the next block on.
    pub proof fn lemma_span_shrinks(&self, block: u32, row: u32)
        requires
            block < self.num_blocks,
        ensures
            self.span(block, row) >= self.span((block + 1) as u32, 0),
        decreases self.metadata.max_vals_per_block - row,
    {
        if row < self.metadata.rows_in_block(block) {
            self.lemma_span_shrinks(block, (row + 1) as u32);
        }
    }

    /// Completeness of filter and pruning together: where the statistics are
    /// true of the data, every visited row decodes and the budget covers the
    /// file, a scan of the whole file produces every row of the file that
    /// satisfies every predicate.
    pub proof fn lemma_no_match_is_omitted(
        &self,
        data: Seq<u8>,
        budget: nat,
        block: u32,
        row: u32,
    )
        requires
            self.sound_data(data),
            budget >= self.span(0, 0),
            self.honest(data, block),
            block < self.num_blocks,
            row < self.metadata.rows_in_block(block),
            self.satisfies(data, block, row),
        ensures
            self.rows_from(data, 0, 0, budget).contains((block, row)),
    {
        self.lemma_match_is_hit(data, block, row);
        self.lemma_rows_complete(data, 0, 0, budget, block, row);
    }
}

} // verus!
