//! The scan cursor: a plan and a position in the file.

use vstd::prelude::*;
use crate::compile::{
    all_compile, clamp, clamp_limit, cols_known, compile_quals, compiled_from, compiles,
    fields_known, first_unknown, first_unknown_col, first_unknown_field, first_unsupported,
    lemma_skips_as_supplied, prunes, resolve_columns, rest_of_projection, unknown_field,
};
use crate::error::ScanError;
use crate::metadata::Metadata;
use crate::plan::{precedes, row_view, RowResult, RowStep, ScanPlan};
use crate::qual::{Limit, Qual};
use crate::value::Cell;

verus! {

/// A scan in progress.
#[derive(Debug)]
pub struct Db721Reader {
    /// What the scan is to do.
    pub plan: ScanPlan,
    /// Number of rows produced so far.
    pub row_cnt: i64,
    /// Block of the next row to look at.
    pub block_num: u32,
    /// Position within the block of the next row to look at.
    pub block_row_num: u32,
}

impl Db721Reader {
    /// The plan is well formed and the cursor stands in a block that is not
    /// pruned, or past the last block.
    pub open spec fn wf(&self) -> bool {
        &&& self.plan.wf()
        &&& self.row_cnt >= 0
        &&& self.block_num <= self.plan.num_blocks
        &&& self.block_num < self.plan.num_blocks ==> !self.plan.skips(self.block_num)
            && self.block_row_num <= self.plan.metadata.rows_in_block(self.block_num)
        &&& self.block_num == self.plan.num_blocks ==> self.block_row_num == 0
    }

    /// The cursor has passed the last block.
    pub open spec fn done(&self) -> bool {
        self.block_num == self.plan.num_blocks && self.block_row_num == 0
    }

    /// The row is at the cursor or after it.
    pub open spec fn ahead(&self, block: u32, row: u32) -> bool {
        !precedes(block, row, self.block_num, self.block_row_num)
    }

    /// The row is the first from the cursor on at which the scan stops.
    pub open spec fn next_hit(&self, data: Seq<u8>, block: u32, row: u32) -> bool {
        &&& self.ahead(block, row)
        &&& self.plan.hit(data, block, row)
        &&& forall|b: u32, r: u32|
            self.ahead(b, r) && precedes(b, r, block, row) ==> !#[trigger] self.plan.hit(data, b, r)
    }

    /// The scan stops at no row from the cursor on.
    pub open spec fn no_hit(&self, data: Seq<u8>) -> bool {
        forall|b: u32, r: u32| self.ahead(b, r) ==> !#[trigger] self.plan.hit(data, b, r)
    }

    /// The limit on the number of rows is reached.
    pub open spec fn limit_reached(&self) -> bool {
        self.row_cnt >= self.plan.limit.count
    }

    /// Number of rows that the limit still allows.
    pub open spec fn budget(&self) -> nat {
        if self.plan.limit.count > self.row_cnt {
            (self.plan.limit.count - self.row_cnt) as nat
        } else {
            0
        }
    }

    /// The positions of the rows that the scan has yet to produce.
    pub open spec fn remaining(&self, data: Seq<u8>) -> Seq<(u32, u32)> {
        self.plan.rows_from(data, self.block_num, self.block_row_num, self.budget())
    }

    /// One step of the scan over `data` leads from this state to `after`,
    /// with result `r` and the row buffer holding `row`.
    ///
    /// Once the limit is reached the step changes nothing and returns
    /// `Ok(None)`. Otherwise it finds the first row from the cursor on, in
    /// file order, that the scan visits and on which no predicate fails:
    /// - where that row decodes, the result is `Ok(Some(()))`, the buffer
    ///   holds the row's projection, the cursor stands just behind the row and
    ///   one more row is counted;
    /// - where it does not decode, the result is `CorruptRow` with the row's
    ///   position, and the cursor stands past the last block;
    /// - where there is no such row, the result is `Ok(None)` and the cursor
    ///   stands past the last block.
    ///
    /// In terms of the whole scan: a step that produces a row produces the
    /// first of the remaining rows and leaves the others; any other step
    /// shows that no rows remained.
    pub open spec fn step(
        &self,
        after: &Db721Reader,
        data: Seq<u8>,
        r: Result<Option<()>, ScanError>,
        row: Seq<Cell>,
    ) -> bool {
        &&& after.plan == self.plan
        &&& self.limit_reached() ==> r == Ok::<Option<()>, ScanError>(None) && *after == *self
        &&& !self.limit_reached() ==> match r {
            Ok(Some(_)) => {
                &&& after.block_row_num > 0
                &&& self.next_hit(data, after.block_num, (after.block_row_num - 1) as u32)
                &&& self.plan.row_result(data, after.block_num, (after.block_row_num - 1) as u32)
                    == RowResult::Row(row_view(row))
                &&& after.row_cnt == self.row_cnt + 1
            },
            Ok(None) => {
                &&& self.no_hit(data)
                &&& after.done()
                &&& after.row_cnt == self.row_cnt
            },
            Err(ScanError::CorruptRow { block, row: at }) => {
                &&& self.next_hit(data, block, at)
                &&& self.plan.row_result(data, block, at) is Corrupt
                &&& after.done()
                &&& after.row_cnt == self.row_cnt
            },
            Err(_) => false,
        }
        &&& match r {
            Ok(Some(_)) => self.remaining(data) == seq![
                (after.block_num, (after.block_row_num - 1) as u32),
            ] + after.remaining(data),
            _ => self.remaining(data) == Seq::<(u32, u32)>::empty(),
        }
    }

    /// The reader stands at the start of the scan that the host asked for:
    /// its plan holds the metadata, the projection, the fitted limit and the
    /// predicates compiled in order; it prunes the blocks that the predicates
    /// prune; no row is counted; and the cursor stands at the first row of the
    /// first block that is not pruned.
    pub open spec fn starts(
        &self,
        metadata: Metadata,
        cols: Seq<String>,
        quals: Seq<Qual>,
        limit: Option<Limit>,
    ) -> bool {
        &&& self.plan.metadata == metadata
        &&& self.plan.cols@ == cols
        &&& self.plan.limit == clamp_limit(limit, metadata.total_rows)
        &&& self.plan.quals@.len() == quals.len()
        &&& forall|k: int|
            0 <= k < quals.len() ==> compiled_from(
                #[trigger] self.plan.quals@[k],
                &metadata,
                cols,
                quals[k],
            )
        &&& forall|b: u32| self.plan.skips(b) <==> #[trigger] prunes(&metadata, quals, b)
        &&& self.row_cnt == 0
        &&& self.block_row_num == 0
        &&& self.block_num < metadata.spec_num_blocks()
        &&& forall|b: u32| b < self.block_num ==> #[trigger] prunes(&metadata, quals, b)
    }

    /// Why no scan starts: `e` is the error that the first thing wrong with
    /// the request calls for.
    pub open spec fn refused(
        metadata: &Metadata,
        cols: Seq<String>,
        quals: Seq<Qual>,
        e: ScanError,
    ) -> bool {
        match e {
            ScanError::UnknownColumn(name) => first_unknown(metadata, cols, quals, name@),
            ScanError::UnsupportedPredicate(k) => {
                &&& cols_known(metadata, cols)
                &&& fields_known(metadata, quals)
                &&& first_unsupported(metadata, quals, k as int)
            },
            ScanError::EmptyScan => {
                &&& cols_known(metadata, cols)
                &&& fields_known(metadata, quals)
                &&& all_compile(metadata, quals)
                &&& forall|b: u32|
                    b < metadata.spec_num_blocks() ==> #[trigger] prunes(metadata, quals, b)
            },
            _ => false,
        }
    }

    /// Plans a scan and puts the cursor on the first block that is not
    /// pruned.
    ///
    /// Fails with
    /// - `UnknownColumn` and the first name that is not in the metadata,
    ///   looking through the projection first and through the fields of the
    ///   predicates second;
    /// - else `UnsupportedPredicate` and the position of the first predicate
    ///   that is disjunctive, has an unknown operator, or a right-hand side
    ///   that is not of its column's type;
    /// - else `EmptyScan` where every block is pruned.
    ///
    /// The limit is fitted to the number of rows of the file.
    pub fn new(metadata: Metadata, cols: &[String], quals: &[Qual], limit: &Option<Limit>) -> (r:
        Result<Db721Reader, ScanError>)
        requires
            metadata.wf(),
        ensures
            match r {
                Ok(reader) => reader.wf() && reader.starts(metadata, cols@, quals@, *limit),
                Err(e) => Db721Reader::refused(&metadata, cols@, quals@, e),
            },
    {
        let proj_cols = match resolve_columns(&metadata, cols) {
            Ok(found) => found,
            Err(i) => {
                assert(first_unknown_col(&metadata, cols@, i as int));
                return Err(ScanError::UnknownColumn(cols[i].clone()));
            },
        };
        assert(cols_known(&metadata, cols@)) by {
            assert forall|i: int| 0 <= i < cols@.len() implies metadata.has_column(
                (#[trigger] cols@[i])@,
            ) by {
                assert(metadata.is_column(cols@[i]@, proj_cols@[i] as int));
            }
        }
        match unknown_field(&metadata, quals) {
            Some(k) => {
                assert(first_unknown_field(&metadata, quals@, k as int));
                return Err(ScanError::UnknownColumn(quals[k].field.clone()));
            },
            None => {},
        }
        let planned = match compile_quals(&metadata, cols, quals) {
            Ok(planned) => planned,
            Err(k) => {
                return Err(ScanError::UnsupportedPredicate(k));
            },
        };
        let non_pred_cols = rest_of_projection(&proj_cols, &planned);
        let limit = clamp(limit, metadata.num_rows());
        let num_blocks: u32 = metadata.num_blocks();
        let mut names: Vec<String> = Vec::new();
        let mut i: usize = 0;
        while i < cols.len()
            invariant
                i <= cols@.len(),
                names@.len() == i,
                forall|j: int| 0 <= j < i ==> names@[j] == cols@[j],
            decreases cols.len() - i,
        {
            names.push(cols[i].clone());
            i += 1;
        }
        assert(names@ =~= cols@);
        let plan = ScanPlan {
            metadata,
            num_blocks,
            cols: names,
            proj_cols,
            limit,
            quals: planned,
            non_pred_cols,
        };
        proof {
            assert forall|k: int| 0 <= k < plan.quals@.len() implies {
                let q = #[trigger] plan.quals@[k];
                &&& q.col < plan.metadata.columns@.len()
                &&& q.qual.rhs@.column_type() == plan.column(q.col as int).column_type()
                &&& q.proj matches Some(i) ==> i < plan.proj_cols@.len() && plan.proj_cols@[i as int]
                    == q.col
            } by {
                let q = plan.quals@[k];
                assert(compiled_from(q, &plan.metadata, cols@, quals@[k]));
                assert(compiles(&plan.metadata, quals@[k]));
                plan.metadata.lemma_column_unique(
                    quals@[k].field@,
                    q.col as int,
                    plan.metadata.column_index(quals@[k].field@),
                );
                if let Some(i) = q.proj {
                    assert(plan.metadata.is_column(cols@[i as int]@, plan.proj_cols@[i as int] as int));
                    plan.metadata.lemma_column_unique(
                        quals@[k].field@,
                        q.col as int,
                        plan.proj_cols@[i as int] as int,
                    );
                }
            }
            assert forall|i: int| 0 <= i < plan.proj_cols@.len() implies plan.qual_writes(i)
                || #[trigger] plan.rest_writes(i) by {
                if !plan.qual_writes(i) {
                    let m = choose|m: int|
                        0 <= m < plan.non_pred_cols@.len() && (#[trigger] plan.non_pred_cols@[m]).0
                            == i;
                    assert(plan.non_pred_cols@[m].0 == i);
                }
            }
            assert(plan.wf());
            assert forall|b: u32| plan.skips(b) <==> #[trigger] prunes(
                &plan.metadata,
                quals@,
                b,
            ) by {
                lemma_skips_as_supplied(&plan.metadata, cols@, quals@, plan.quals@, b);
                if plan.skips(b) {
                    let k = choose|k: int|
                        0 <= k < plan.quals@.len() && #[trigger] plan.qual_excludes(k, b);
                    assert(crate::qual::stats_exclude(
                        plan.quals@[k].qual.op,
                        plan.metadata.columns@[plan.quals@[k].col as int].block_stats,
                        b,
                        plan.quals@[k].qual.rhs@,
                    ));
                }
                if prunes(&plan.metadata, quals@, b) {
                    let k = choose|k: int|
                        0 <= k < plan.quals@.len() && #[trigger] crate::qual::stats_exclude(
                            plan.quals@[k].qual.op,
                            plan.metadata.columns@[plan.quals@[k].col as int].block_stats,
                            b,
                            plan.quals@[k].qual.rhs@,
                        );
                    assert(plan.qual_excludes(k, b));
                }
            }
        }
        let mut block_num: u32 = 0;
        while block_num < num_blocks && plan.skip_block(block_num)
            invariant
                plan.wf(),
                block_num <= num_blocks,
                forall|b: u32| b < block_num ==> #[trigger] plan.skips(b),
            decreases num_blocks - block_num,
        {
            block_num += 1;
        }
        if block_num >= num_blocks {
            // filtered out all the rows!
            return Err(ScanError::EmptyScan);
        }
        Ok(Db721Reader { plan, row_cnt: 0, block_num, block_row_num: 0 })
    }

    /// Determine if the block is to be read, skipping over the ones filtered
    /// out by predicate pushdown.
    pub fn skip_block(&self, block_num: u32) -> (r: bool)
        requires
            self.plan.wf(),
        ensures
            r == self.plan.skips(block_num),
    {
        self.plan.skip_block(block_num)
    }

    /// Read the value of a column in the row at the cursor.
    pub fn read_cur_val(&self, data: &[u8], col: usize) -> (r: Option<Cell>)
        requires
            col < self.plan.metadata.columns@.len(),
        ensures
            match r {
                Some(cell) => self.plan.cell(
                    data@,
                    col as int,
                    self.block_num,
                    self.block_row_num,
                ) == Some(cell@),
                None => self.plan.cell(data@, col as int, self.block_num, self.block_row_num) is None,
            },
    {
        self.plan.read_cell(data, col, self.block_num, self.block_row_num)
    }

    /// Produces the next row of the scan into `row`.
    ///
    /// Returns `Ok(None)` and leaves the cursor alone once as many rows were
    /// produced as the limit allows. Otherwise it goes through the rows from
    /// the cursor on in file order, leaving out pruned blocks, up to the
    /// first row on which no predicate fails. It returns `Ok(Some(()))` with
    /// the projection of that row in `row` and the cursor just behind it; or
    /// `CorruptRow` with the position of that row, where a cell of it did not
    /// decode, and no further rows; or `Ok(None)` where there is no such row.
    pub fn next(&mut self, data: &[u8], row: &mut Vec<Cell>) -> (r: Result<Option<()>, ScanError>)
        requires
            old(self).wf(),
        ensures
            final(self).wf(),
            old(self).step(final(self), data@, r, final(row)@),
    {
        if self.row_cnt >= self.plan.limit.count {
            return Ok(None);
        }
        self.plan.fit_row(row);
        loop
            invariant
                self.wf(),
                self.plan == old(self).plan,
                self.row_cnt == old(self).row_cnt,
                self.row_cnt < self.plan.limit.count,
                row@.len() == self.plan.proj_cols@.len(),
                old(self).ahead(self.block_num, self.block_row_num),
                forall|b: u32, r: u32|
                    old(self).ahead(b, r) && precedes(b, r, self.block_num, self.block_row_num)
                        ==> !#[trigger] self.plan.hit(data@, b, r),
            decreases
                    self.plan.num_blocks - self.block_num,
                    self.plan.metadata.max_vals_per_block - self.block_row_num,
        {
            if self.block_num >= self.plan.num_blocks {
                proof {
                    self.plan.lemma_rows_from_jump(
                        data@,
                        old(self).block_num,
                        old(self).block_row_num,
                        self.block_num,
                        self.block_row_num,
                        old(self).budget(),
                    );
                }
                return Ok(None);
            }
            let num_rows: u32 = self.plan.metadata.num_rows_in_block(self.block_num);
            if self.block_row_num < num_rows {
                let block: u32 = self.block_num;
                let at: u32 = self.block_row_num;
                proof {
                    self.plan.lemma_rows_from_jump(
                        data@,
                        old(self).block_num,
                        old(self).block_row_num,
                        block,
                        at,
                        old(self).budget(),
                    );
                }
                match self.plan.read_row(data, block, at, row) {
                    RowStep::Emitted => {
                        self.block_row_num = at + 1;
                        self.row_cnt = self.row_cnt + 1;
                        return Ok(Some(()));
                    },
                    RowStep::Filtered => {
                        self.block_row_num = at + 1;
                    },
                    RowStep::Corrupt => {
                        self.block_num = self.plan.num_blocks;
                        self.block_row_num = 0;
                        return Err(ScanError::CorruptRow { block, row: at });
                    },
                }
            } else {
                // end of current block, try next one
                let ghost left = self.block_num;
                self.block_row_num = 0;
                self.block_num = self.block_num + 1;
                while self.block_num < self.plan.num_blocks && self.plan.skip_block(self.block_num)
                    invariant
                        self.plan.wf(),
                        self.plan == old(self).plan,
                        self.row_cnt == old(self).row_cnt,
                        self.row_cnt >= 0,
                        self.block_row_num == 0,
                        left < self.block_num <= self.plan.num_blocks,
                        old(self).ahead(self.block_num, self.block_row_num),
                        forall|b: u32, r: u32|
                            old(self).ahead(b, r) && precedes(b, r, self.block_num, 0)
                                ==> !#[trigger] self.plan.hit(data@, b, r),
                    decreases self.plan.num_blocks - self.block_num,
                {
                    self.block_num = self.block_num + 1;
                }
            }
        }
    }

    /// The count of a whole scan: a scan that starts without predicates and
    /// without a limit, over data of which every row decodes, has as many
    /// rows to produce as the file has rows.
    pub proof fn lemma_whole_scan(&self, metadata: Metadata, cols: Seq<String>, data: Seq<u8>)
        requires
            self.wf(),
            self.starts(metadata, cols, Seq::empty(), None),
            self.plan.sound_data(data),
            metadata.total_rows <= i64::MAX,
        ensures
            self.remaining(data).len() == metadata.total_rows,
    {
        if self.block_num > 0 {
            assert(prunes(&metadata, Seq::<Qual>::empty(), 0));
        }
        self.plan.lemma_unfiltered_scan_is_whole(data, self.budget());
    }

    /// A limit of no rows: the scan has nothing to produce, whatever the
    /// data.
    pub proof fn lemma_zero_limit(&self, data: Seq<u8>)
        requires
            self.wf(),
            self.plan.limit.count <= 0,
        ensures
            self.limit_reached(),
            self.remaining(data) == Seq::<(u32, u32)>::empty(),
    {
    }
}

} // verus!
