//! Predicates: what the host supplies, what a scan evaluates, and the test
//! that prunes a block by its statistics.

use vstd::prelude::*;
use vstd::slice::slice_to_vec;
use crate::metadata::{BlockStats, Stats, Zone};
use crate::op::Op;
use crate::value::{
    bytes_eq_exec, bytes_lt, bytes_lt_exec, cell_eq, cell_lt, float_bits_eq, float_bits_lt,
    float_is_nan, lemma_bytes_lt_irreflexive, lemma_bytes_lt_transitive, Cell, CellValue,
};

verus! {

broadcast use vstd::std_specs::hash::group_hash_axioms;

/// The right-hand side of a predicate as the host hands it over. A `Float` is
/// the IEEE-754 bit pattern of a single-precision number, a `Str` the bytes of
/// a text. `Other` stands for every value that no column can be compared
/// with.
#[derive(Debug, Clone, PartialEq, Eq)]
pub enum HostValue {
    Int(i32),
    Float(u32),
    Str(Vec<u8>),
    Other,
}

impl HostValue {
    /// The typed value that the host value converts to, if any.
    pub open spec fn cell_value(&self) -> Option<CellValue> {
        match self {
            HostValue::Int(v) => Some(CellValue::Int(*v as int)),
            HostValue::Float(v) => Some(CellValue::Float(*v)),
            HostValue::Str(v) => Some(CellValue::Str(v@)),
            HostValue::Other => None,
        }
    }
}

impl Cell {
    /// Converts the right-hand side of a predicate to a typed value. Fails for
    /// a value that no column can be compared with.
    pub fn try_from(value: &HostValue) -> (r: Result<Cell, ()>)
        ensures
            match r {
                Ok(cell) => value.cell_value() == Some(cell@),
                Err(_) => value.cell_value() is None,
            },
    {
        match value {
            HostValue::Int(v) => Ok(Cell::Int(*v)),
            HostValue::Float(v) => Ok(Cell::Float(*v)),
            HostValue::Str(v) => Ok(Cell::Str(slice_to_vec(v.as_slice()))),
            HostValue::Other => Err(()),
        }
    }
}

/// A predicate `field operator value` as the host supplies it.
#[derive(Debug, Clone, PartialEq, Eq)]
pub struct Qual {
    /// Name of the column that the predicate is about.
    pub field: String,
    /// Spelling of the operator.
    pub operator: String,
    /// Right-hand side.
    pub value: HostValue,
    /// The predicate is part of a disjunction.
    pub use_or: bool,
}

/// Bound on the number of rows that the host asks for.
#[derive(Debug, Clone, Copy, PartialEq, Eq)]
pub struct Limit {
    pub count: i64,
    pub offset: i64,
}

/// A predicate ready for evaluation: operator and typed right-hand side.
#[derive(Debug)]
pub struct CustomQual {
    pub op: Op,
    pub rhs: Cell,
}

/// The length bounds of a block of strings leave out the length of `v`.
pub open spec fn length_excluded(z: Zone, v: CellValue) -> bool {
    match (z.min, v) {
        (CellValue::Str(_), CellValue::Str(s)) => z.max_len < s.len() || z.min_len > s.len(),
        _ => false,
    }
}

/// The statistics of a block show that none of its values `x` satisfies
/// `x op v`.
///
/// | op   | the block is excluded where      |
/// |------|----------------------------------|
/// | `=`  | `min > v` or `max < v`, or, for strings, the length of `v` is outside `[min_len, max_len]` |
/// | `<`  | `min >= v`                       |
/// | `<=` | `min > v`                        |
/// | `>`  | `max <= v`                       |
/// | `>=` | `max < v`                        |
pub open spec fn zone_excludes(op: Op, z: Zone, v: CellValue) -> bool {
    match op {
        Op::Eq => cell_lt(v, z.min) || cell_lt(z.max, v) || length_excluded(z, v),
        Op::Lt => cell_lt(v, z.min) || cell_eq(z.min, v),
        Op::Lte => cell_lt(v, z.min),
        Op::Gt => cell_lt(z.max, v) || cell_eq(z.max, v),
        Op::Gte => cell_lt(z.max, v),
    }
}

/// The zone-map test of one predicate on one block: the block has statistics
/// and they exclude the predicate. A block without statistics is never
/// excluded.
pub open spec fn stats_exclude(op: Op, stats: Stats, block: u32, v: CellValue) -> bool {
    match stats.zone(block) {
        Some(z) => zone_excludes(op, z, v),
        None => false,
    }
}

fn float_zone_excludes(op: Op, stats: &BlockStats<u32>, rhs: u32) -> (r: bool)
    ensures
        r == zone_excludes(
            op,
            Zone {
                num: stats.num,
                min: CellValue::Float(stats.min),
                max: CellValue::Float(stats.max),
                min_len: stats.min_len,
                max_len: stats.max_len,
            },
            CellValue::Float(rhs),
        ),
{
    match op {
        Op::Eq => float_bits_lt(rhs, stats.min) || float_bits_lt(stats.max, rhs),
        Op::Lt => float_bits_lt(rhs, stats.min) || float_bits_eq(stats.min, rhs),
        Op::Lte => float_bits_lt(rhs, stats.min),
        Op::Gt => float_bits_lt(stats.max, rhs) || float_bits_eq(stats.max, rhs),
        Op::Gte => float_bits_lt(stats.max, rhs),
    }
}

fn int_zone_excludes(op: Op, stats: &BlockStats<i32>, rhs: i32) -> (r: bool)
    ensures
        r == zone_excludes(
            op,
            Zone {
                num: stats.num,
                min: CellValue::Int(stats.min as int),
                max: CellValue::Int(stats.max as int),
                min_len: stats.min_len,
                max_len: stats.max_len,
            },
            CellValue::Int(rhs as int),
        ),
{
    match op {
        Op::Eq => stats.min > rhs || stats.max < rhs,
        Op::Lt => stats.min >= rhs,
        Op::Lte => stats.min > rhs,
        Op::Gt => stats.max <= rhs,
        Op::Gte => stats.max < rhs,
    }
}

fn str_zone_excludes(op: Op, stats: &BlockStats<Vec<u8>>, rhs: &Vec<u8>) -> (r: bool)
    ensures
        r == zone_excludes(
            op,
            Zone {
                num: stats.num,
                min: CellValue::Str(stats.min@),
                max: CellValue::Str(stats.max@),
                min_len: stats.min_len,
                max_len: stats.max_len,
            },
            CellValue::Str(rhs@),
        ),
{
    let min = stats.min.as_slice();
    let max = stats.max.as_slice();
    let rhs_len: usize = rhs.len();
    match op {
        Op::Eq => {
            (stats.max_len as u64) < rhs_len as u64 || stats.min_len as u64 > rhs_len as u64
                || bytes_lt_exec(rhs.as_slice(), min) || bytes_lt_exec(max, rhs.as_slice())
        },
        Op::Lt => bytes_lt_exec(rhs.as_slice(), min) || bytes_eq_exec(min, rhs.as_slice()),
        Op::Lte => bytes_lt_exec(rhs.as_slice(), min),
        Op::Gt => bytes_lt_exec(max, rhs.as_slice()) || bytes_eq_exec(max, rhs.as_slice()),
        Op::Gte => bytes_lt_exec(max, rhs.as_slice()),
    }
}

impl CustomQual {
    /// The predicate holds of `lhs`.
    pub open spec fn holds(&self, lhs: CellValue) -> bool {
        self.op.holds(lhs, self.rhs@)
    }

    /// Evaluate the predicate on the given value.
    /// Return true if `lhs` satisfies the predicate.
    pub fn eval(&self, lhs: &Cell) -> (r: bool)
        ensures
            r == self.holds(lhs@),
    {
        self.op.eval(lhs, &self.rhs)
    }

    /// Whether the statistics of a block show that no value of the block
    /// satisfies the predicate. False where the block has no statistics.
    pub fn excludes(&self, stats: &Stats, block: u32) -> (r: bool)
        ensures
            r == stats_exclude(self.op, *stats, block, self.rhs@),
    {
        match stats {
            Stats::Float(m) => match m.get(&block) {
                Some(s) => match &self.rhs {
                    Cell::Float(v) => float_zone_excludes(self.op, s, *v),
                    _ => false,
                },
                None => false,
            },
            Stats::Int(m) => match m.get(&block) {
                Some(s) => match &self.rhs {
                    Cell::Int(v) => int_zone_excludes(self.op, s, *v),
                    _ => false,
                },
                None => false,
            },
            Stats::Str(m) => match m.get(&block) {
                Some(s) => match &self.rhs {
                    Cell::Str(v) => str_zone_excludes(self.op, s, v),
                    _ => false,
                },
                None => false,
            },
        }
    }
}

/// The value is a float that is not a number.
pub open spec fn is_nan(x: CellValue) -> bool {
    x matches CellValue::Float(bits) && float_is_nan(bits)
}

/// The statistics of a block are true of a value `x` of the block: `x` lies
/// between `min` and `max`, and, where it is a string, its length between
/// `min_len` and `max_len`. A float that is not a number lies nowhere and is
/// exempt.
pub open spec fn zone_covers(z: Zone, x: CellValue) -> bool {
    is_nan(x) || {
        &&& cell_lt(z.min, x) || cell_eq(z.min, x)
        &&& cell_lt(x, z.max) || cell_eq(x, z.max)
        &&& x matches CellValue::Str(s) ==> z.min_len <= s.len() <= z.max_len
    }
}

/// Pruning by one predicate is sound: where the statistics of a block are
/// true of a value and exclude the predicate, the value does not satisfy it.
pub proof fn lemma_excluded_value_fails(op: Op, z: Zone, x: CellValue, v: CellValue)
    requires
        zone_covers(z, x),
        zone_excludes(op, z, v),
    ensures
        !op.holds(x, v),
{
    if op.holds(x, v) {
        match (x, v) {
            (CellValue::Str(xs), CellValue::Str(vs)) => {
                let min = z.min->Str_0;
                let max = z.max->Str_0;
                lemma_bytes_lt_irreflexive(xs);
                lemma_bytes_lt_irreflexive(vs);
                lemma_bytes_lt_irreflexive(min);
                lemma_bytes_lt_irreflexive(max);
                if bytes_lt(vs, min) {
                    if bytes_lt(min, xs) {
                        lemma_bytes_lt_transitive(vs, min, xs);
                    }
                    if bytes_lt(xs, vs) {
                        lemma_bytes_lt_transitive(xs, vs, min);
                        if bytes_lt(min, xs) {
                            lemma_bytes_lt_transitive(xs, min, xs);
                        }
                    }
                }
                if bytes_lt(max, vs) {
                    if bytes_lt(xs, max) {
                        lemma_bytes_lt_transitive(xs, max, vs);
                    }
                    if bytes_lt(vs, xs) {
                        lemma_bytes_lt_transitive(max, vs, xs);
                        if bytes_lt(xs, max) {
                            lemma_bytes_lt_transitive(xs, max, xs);
                        }
                    }
                }
                if bytes_lt(xs, vs) && bytes_lt(vs, xs) {
                    lemma_bytes_lt_transitive(xs, vs, xs);
                }
            },
            _ => {},
        }
    }
}

} // verus!
