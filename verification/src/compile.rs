//! Planning: from the host's projection, predicates and limit to the parts of
//! a scan plan.

use vstd::prelude::*;
use crate::metadata::Metadata;
use crate::op::Op;
use crate::plan::{writes_at, written, PlannedQual};
use crate::qual::{stats_exclude, CustomQual, Limit, Qual};
use crate::value::Cell;

verus! {

/// `i` is the first position of `name` among `cols`.
pub open spec fn first_named(cols: Seq<String>, name: Seq<char>, i: int) -> bool {
    &&& 0 <= i < cols.len()
    &&& cols[i]@ == name
    &&& forall|j: int| 0 <= j < i ==> (#[trigger] cols[j])@ != name
}

/// `name` is among `cols`.
pub open spec fn named(cols: Seq<String>, name: Seq<char>) -> bool {
    exists|i: int| 0 <= i < cols.len() && (#[trigger] cols[i])@ == name
}

/// Every projected column is in the metadata.
pub open spec fn cols_known(metadata: &Metadata, cols: Seq<String>) -> bool {
    forall|i: int| 0 <= i < cols.len() ==> metadata.has_column((#[trigger] cols[i])@)
}

/// The field of every predicate is in the metadata.
pub open spec fn fields_known(metadata: &Metadata, quals: Seq<Qual>) -> bool {
    forall|k: int| 0 <= k < quals.len() ==> metadata.has_column((#[trigger] quals[k]).field@)
}

/// `i` is the first projected column that is not in the metadata.
pub open spec fn first_unknown_col(metadata: &Metadata, cols: Seq<String>, i: int) -> bool {
    &&& 0 <= i < cols.len()
    &&& !metadata.has_column(cols[i]@)
    &&& forall|j: int| 0 <= j < i ==> metadata.has_column((#[trigger] cols[j])@)
}

/// `k` is the first predicate whose field is not in the metadata.
pub open spec fn first_unknown_field(metadata: &Metadata, quals: Seq<Qual>, k: int) -> bool {
    &&& 0 <= k < quals.len()
    &&& !metadata.has_column(quals[k].field@)
    &&& forall|j: int| 0 <= j < k ==> metadata.has_column((#[trigger] quals[j]).field@)
}

/// `name` is the first name that the scan refers to and the metadata lacks:
/// the projected columns come first, then the fields of the predicates.
pub open spec fn first_unknown(
    metadata: &Metadata,
    cols: Seq<String>,
    quals: Seq<Qual>,
    name: Seq<char>,
) -> bool {
    ||| exists|i: int| #[trigger] first_unknown_col(metadata, cols, i) && cols[i]@ == name
    ||| cols_known(metadata, cols) && exists|k: int| #[trigger]
        first_unknown_field(metadata, quals, k) && quals[k].field@ == name
}

/// The predicate can be evaluated: it is not part of a disjunction, its
/// operator is known, and its right-hand side has the type of its column.
pub open spec fn compiles(metadata: &Metadata, q: Qual) -> bool {
    &&& !q.use_or
    &&& Op::parse(q.operator@) is Some
    &&& q.value.cell_value() matches Some(v)
    &&& metadata.has_column(q.field@)
    &&& v.column_type() == metadata.columns@[metadata.column_index(q.field@)].column_type()
}

/// `k` is the first predicate that cannot be evaluated.
pub open spec fn first_unsupported(metadata: &Metadata, quals: Seq<Qual>, k: int) -> bool {
    &&& 0 <= k < quals.len()
    &&& !compiles(metadata, quals[k])
    &&& forall|j: int| 0 <= j < k ==> compiles(metadata, #[trigger] quals[j])
}

/// Every predicate can be evaluated.
pub open spec fn all_compile(metadata: &Metadata, quals: Seq<Qual>) -> bool {
    forall|k: int| 0 <= k < quals.len() ==> compiles(metadata, #[trigger] quals[k])
}

/// `planned` is what the predicate `q` compiles to: the position of its
/// column, its operator and right-hand side, and the first position of its
/// column in the projection.
pub open spec fn compiled_from(
    planned: PlannedQual,
    metadata: &Metadata,
    cols: Seq<String>,
    q: Qual,
) -> bool {
    &&& metadata.is_column(q.field@, planned.col as int)
    &&& Op::parse(q.operator@) == Some(planned.qual.op)
    &&& q.value.cell_value() == Some(planned.qual.rhs@)
    &&& match planned.proj {
        Some(i) => first_named(cols, q.field@, i as int),
        None => !named(cols, q.field@),
    }
}

/// The statistics of a block exclude the predicate `q`.
pub open spec fn qual_prunes(metadata: &Metadata, q: Qual, block: u32) -> bool {
    stats_exclude(
        Op::parse(q.operator@).unwrap(),
        metadata.columns@[metadata.column_index(q.field@)].block_stats,
        block,
        q.value.cell_value().unwrap(),
    )
}

/// The block is pruned: its statistics exclude one of the predicates.
pub open spec fn prunes(metadata: &Metadata, quals: Seq<Qual>, block: u32) -> bool {
    exists|k: int| 0 <= k < quals.len() && #[trigger] qual_prunes(metadata, quals[k], block)
}

/// The limit that a scan of `total` rows works with: the whole file where the
/// host gave none (a count cannot exceed `i64::MAX`), else the host's count,
/// cut to `total - offset` where count and offset together exceed the file.
pub open spec fn clamp_limit(limit: Option<Limit>, total: u64) -> Limit {
    match limit {
        Some(l) => if l.offset + l.count > total {
            Limit { count: (total - l.offset) as i64, offset: l.offset }
        } else {
            l
        },
        None => Limit {
            count: if total > i64::MAX {
                i64::MAX
            } else {
                total as i64
            },
            offset: 0,
        },
    }
}

/// Finds each projected column in the metadata. Fails with the position of
/// the first that is not there.
pub(crate) fn resolve_columns(metadata: &Metadata, cols: &[String]) -> (r: Result<Vec<usize>, usize>)
    ensures
        match r {
            Ok(found) => {
                &&& found@.len() == cols@.len()
                &&& forall|i: int|
                    0 <= i < cols@.len() ==> metadata.is_column(
                        (#[trigger] cols@[i])@,
                        found@[i] as int,
                    )
            },
            Err(i) => first_unknown_col(metadata, cols@, i as int),
        },
{
    let mut found: Vec<usize> = Vec::new();
    let mut i: usize = 0;
    while i < cols.len()
        invariant
            i <= cols@.len(),
            found@.len() == i,
            forall|j: int|
                0 <= j < i ==> metadata.is_column((#[trigger] cols@[j])@, found@[j] as int),
        decreases cols.len() - i,
    {
        match metadata.find_column(&cols[i]) {
            Some(col) => {
                found.push(col);
            },
            None => {
                assert forall|j: int| 0 <= j < i implies metadata.has_column(
                    (#[trigger] cols@[j])@,
                ) by {
                    assert(metadata.is_column(cols@[j]@, found@[j] as int));
                }
                return Err(i);
            },
        }
        i += 1;
    }
    Ok(found)
}

/// Finds the first predicate whose field is not in the metadata.
pub(crate) fn unknown_field(metadata: &Metadata, quals: &[Qual]) -> (r: Option<usize>)
    ensures
        match r {
            Some(k) => first_unknown_field(metadata, quals@, k as int),
            None => fields_known(metadata, quals@),
        },
{
    let mut k: usize = 0;
    while k < quals.len()
        invariant
            k <= quals@.len(),
            forall|j: int| 0 <= j < k ==> metadata.has_column((#[trigger] quals@[j]).field@),
        decreases quals.len() - k,
    {
        match metadata.find_column(&quals[k].field) {
            Some(_) => {},
            None => {
                return Some(k);
            },
        }
        k += 1;
    }
    None
}

/// Finds the first position of a name in the projection.
pub(crate) fn position(cols: &[String], name: &String) -> (r: Option<usize>)
    ensures
        match r {
            Some(i) => first_named(cols@, name@, i as int),
            None => !named(cols@, name@),
        },
{
    let mut i: usize = 0;
    while i < cols.len()
        invariant
            i <= cols@.len(),
            forall|j: int| 0 <= j < i ==> (#[trigger] cols@[j])@ != name@,
        decreases cols.len() - i,
    {
        if cols[i] == *name {
            return Some(i);
        }
        i += 1;
    }
    None
}

/// Compiles one predicate. `None` where it cannot be evaluated.
pub(crate) fn compile_qual(metadata: &Metadata, cols: &[String], q: &Qual) -> (r: Option<PlannedQual>)
    requires
        metadata.wf(),
    ensures
        match r {
            Some(planned) => compiles(metadata, *q) && compiled_from(planned, metadata, cols@, *q),
            None => !compiles(metadata, *q),
        },
{
    if q.use_or {
        return None;
    }
    let op = match Op::from_str(q.operator.as_str()) {
        Ok(op) => op,
        Err(_) => {
            return None;
        },
    };
    let rhs = match Cell::try_from(&q.value) {
        Ok(rhs) => rhs,
        Err(_) => {
            return None;
        },
    };
    let col = match metadata.find_column(&q.field) {
        Some(col) => col,
        None => {
            return None;
        },
    };
    proof {
        metadata.lemma_column_unique(q.field@, col as int, metadata.column_index(q.field@));
    }
    if rhs.column_type() != metadata.columns[col].block_stats.kind() {
        return None;
    }
    let proj = position(cols, &q.field);
    Some(PlannedQual { col, proj, qual: CustomQual { op, rhs } })
}

/// Compiles the predicates in order. Fails with the position of the first
/// that cannot be evaluated.
pub(crate) fn compile_quals(metadata: &Metadata, cols: &[String], quals: &[Qual]) -> (r: Result<
    Vec<PlannedQual>,
    usize,
>)
    requires
        metadata.wf(),
    ensures
        match r {
            Ok(planned) => {
                &&& planned@.len() == quals@.len()
                &&& all_compile(metadata, quals@)
                &&& forall|k: int|
                    0 <= k < quals@.len() ==> compiled_from(
                        #[trigger] planned@[k],
                        metadata,
                        cols@,
                        quals@[k],
                    )
            },
            Err(k) => first_unsupported(metadata, quals@, k as int),
        },
{
    let mut planned: Vec<PlannedQual> = Vec::new();
    let mut k: usize = 0;
    while k < quals.len()
        invariant
            metadata.wf(),
            k <= quals@.len(),
            planned@.len() == k,
            forall|j: int| 0 <= j < k ==> compiles(metadata, #[trigger] quals@[j]),
            forall|j: int|
                0 <= j < k ==> compiled_from(#[trigger] planned@[j], metadata, cols@, quals@[j]),
        decreases quals.len() - k,
    {
        match compile_qual(metadata, cols, &quals[k]) {
            Some(p) => {
                planned.push(p);
            },
            None => {
                return Err(k);
            },
        }
        k += 1;
    }
    Ok(planned)
}

/// Whether a predicate writes position `i` of the projection.
pub(crate) fn is_written(quals: &Vec<PlannedQual>, i: usize) -> (r: bool)
    ensures
        r == written(quals@, i as int),
{
    let mut k: usize = 0;
    while k < quals.len()
        invariant
            k <= quals@.len(),
            forall|j: int| 0 <= j < k ==> !#[trigger] writes_at(quals@, j, i as int),
        decreases quals.len() - k,
    {
        match quals[k].proj {
            Some(p) => {
                if p == i {
                    assert(writes_at(quals@, k as int, i as int));
                    return true;
                }
            },
            None => {},
        }
        k += 1;
    }
    false
}

/// Lists the positions of the projection that no predicate writes, ascending,
/// each with its column.
pub(crate) fn rest_of_projection(proj_cols: &Vec<usize>, quals: &Vec<PlannedQual>) -> (rest: Vec<
    (usize, usize),
>)
    ensures
        forall|m: int|
            0 <= m < rest@.len() ==> {
                let e = #[trigger] rest@[m];
                &&& e.0 < proj_cols@.len()
                &&& e.1 == proj_cols@[e.0 as int]
                &&& !written(quals@, e.0 as int)
            },
        forall|m: int, n: int|
            0 <= m < n < rest@.len() ==> (#[trigger] rest@[m]).0 < (#[trigger] rest@[n]).0,
        forall|i: int|
            0 <= i < proj_cols@.len() && !written(quals@, i) ==> exists|m: int|
                0 <= m < rest@.len() && (#[trigger] rest@[m]).0 == i,
{
    let mut rest: Vec<(usize, usize)> = Vec::new();
    let mut i: usize = 0;
    while i < proj_cols.len()
        invariant
            i <= proj_cols@.len(),
            forall|m: int|
                0 <= m < rest@.len() ==> {
                    let e = #[trigger] rest@[m];
                    &&& e.0 < i
                    &&& e.1 == proj_cols@[e.0 as int]
                    &&& !written(quals@, e.0 as int)
                },
            forall|m: int, n: int|
                0 <= m < n < rest@.len() ==> (#[trigger] rest@[m]).0 < (#[trigger] rest@[n]).0,
            forall|j: int|
                0 <= j < i && !written(quals@, j) ==> exists|m: int|
                    0 <= m < rest@.len() && (#[trigger] rest@[m]).0 == j,
        decreases proj_cols.len() - i,
    {
        if !is_written(quals, i) {
            let ghost before = rest@;
            rest.push((i, proj_cols[i]));
            assert forall|j: int| 0 <= j < i + 1 && !written(quals@, j) implies exists|m: int|
                0 <= m < rest@.len() && (#[trigger] rest@[m]).0 == j by {
                if j < i {
                    let m = choose|m: int| 0 <= m < before.len() && (#[trigger] before[m]).0 == j;
                    assert(rest@[m].0 == j);
                } else {
                    assert(rest@[rest@.len() - 1].0 == j);
                }
            }
        }
        i += 1;
    }
    rest
}

/// Fits the host's limit to a file of `total` rows.
pub(crate) fn clamp(limit: &Option<Limit>, total: u64) -> (r: Limit)
    ensures
        r == clamp_limit(*limit, total),
{
    match limit {
        Some(l) => {
            if l.offset as i128 + l.count as i128 > total as i128 {
                Limit { count: (total as i128 - l.offset as i128) as i64, offset: l.offset }
            } else {
                Limit { count: l.count, offset: l.offset }
            }
        },
        None => Limit {
            count: if total > i64::MAX as u64 {
                i64::MAX
            } else {
                total as i64
            },
            offset: 0,
        },
    }
}

/// A plan prunes the blocks that the predicates it was compiled from prune.
pub proof fn lemma_skips_as_supplied(
    metadata: &Metadata,
    cols: Seq<String>,
    quals: Seq<Qual>,
    planned: Seq<PlannedQual>,
    block: u32,
)
    requires
        metadata.wf(),
        planned.len() == quals.len(),
        forall|k: int|
            0 <= k < quals.len() ==> compiled_from(#[trigger] planned[k], metadata, cols, quals[k]),
    ensures
        prunes(metadata, quals, block) <==> exists|k: int|
            0 <= k < planned.len() && #[trigger] stats_exclude(
                planned[k].qual.op,
                metadata.columns@[planned[k].col as int].block_stats,
                block,
                planned[k].qual.rhs@,
            ),
{
    assert forall|k: int| 0 <= k < quals.len() implies #[trigger] qual_prunes(
        metadata,
        quals[k],
        block,
    ) == stats_exclude(
        planned[k].qual.op,
        metadata.columns@[planned[k].col as int].block_stats,
        block,
        planned[k].qual.rhs@,
    ) by {
        assert(compiled_from(planned[k], metadata, cols, quals[k]));
        metadata.lemma_column_unique(
            quals[k].field@,
            planned[k].col as int,
            metadata.column_index(quals[k].field@),
        );
    }
    if prunes(metadata, quals, block) {
        let k = choose|k: int| 0 <= k < quals.len() && #[trigger] qual_prunes(metadata, quals[k], block);
        assert(stats_exclude(
            planned[k].qual.op,
            metadata.columns@[planned[k].col as int].block_stats,
            block,
            planned[k].qual.rhs@,
        ));
    }
    if exists|k: int|
        0 <= k < planned.len() && #[trigger] stats_exclude(
            planned[k].qual.op,
            metadata.columns@[planned[k].col as int].block_stats,
            block,
            planned[k].qual.rhs@,
        ) {
        let k = choose|k: int|
            0 <= k < planned.len() && #[trigger] stats_exclude(
                planned[k].qual.op,
                metadata.columns@[planned[k].col as int].block_stats,
                block,
                planned[k].qual.rhs@,
            );
        assert(qual_prunes(metadata, quals[k], block));
    }
}

} // verus!
