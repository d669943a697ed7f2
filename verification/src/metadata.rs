//! The trailer's metadata: columns and their per-block statistics.

use std::collections::HashMap;
use vstd::prelude::*;
use crate::error::ScanError;
use crate::value::{bytes_lt_exec, cell_lt, float_bits_lt, CellValue, ColumnType};

verus! {

broadcast use vstd::std_specs::hash::group_hash_axioms;

/// Statistics of one block of one column.
#[derive(Debug)]
pub struct BlockStats<T> {
    /// Number of values in the block.
    pub num: u32,
    /// Smallest value in the block.
    pub min: T,
    /// Largest value in the block.
    pub max: T,
    /// Byte length of the shortest string in the block (string columns).
    pub min_len: u32,
    /// Byte length of the longest string in the block (string columns).
    pub max_len: u32,
}

/// Statistics of a column by block index. The variant is the column's
/// physical type; a float's bounds are IEEE-754 bit patterns.
#[derive(Debug)]
pub enum Stats {
    Float(HashMap<u32, BlockStats<u32>>),
    Int(HashMap<u32, BlockStats<i32>>),
    Str(HashMap<u32, BlockStats<Vec<u8>>>),
}

/// Mathematical value of the statistics of one block.
pub struct Zone {
    pub num: u32,
    pub min: CellValue,
    pub max: CellValue,
    pub min_len: u32,
    pub max_len: u32,
}

/// The bounds of a block are in order: `max` does not come before `min`, and
/// for strings `max_len` is not less than `min_len`. Bounds that are not
/// numbers are in no order and pass.
pub open spec fn zone_ordered(z: Zone) -> bool {
    &&& !cell_lt(z.max, z.min)
    &&& z.min is Str ==> z.min_len <= z.max_len
}

impl Stats {
    /// Physical type of the column.
    pub open spec fn column_type(&self) -> ColumnType {
        match self {
            Stats::Float(_) => ColumnType::Float,
            Stats::Int(_) => ColumnType::Int,
            Stats::Str(_) => ColumnType::Str,
        }
    }

    /// Statistics of a block, where the trailer has them.
    pub open spec fn zone(&self, block: u32) -> Option<Zone> {
        match self {
            Stats::Float(m) => if m@.contains_key(block) {
                let s = m@[block];
                Some(
                    Zone {
                        num: s.num,
                        min: CellValue::Float(s.min),
                        max: CellValue::Float(s.max),
                        min_len: s.min_len,
                        max_len: s.max_len,
                    },
                )
            } else {
                None
            },
            Stats::Int(m) => if m@.contains_key(block) {
                let s = m@[block];
                Some(
                    Zone {
                        num: s.num,
                        min: CellValue::Int(s.min as int),
                        max: CellValue::Int(s.max as int),
                        min_len: s.min_len,
                        max_len: s.max_len,
                    },
                )
            } else {
                None
            },
            Stats::Str(m) => if m@.contains_key(block) {
                let s = m@[block];
                Some(
                    Zone {
                        num: s.num,
                        min: CellValue::Str(s.min@),
                        max: CellValue::Str(s.max@),
                        min_len: s.min_len,
                        max_len: s.max_len,
                    },
                )
            } else {
                None
            },
        }
    }

    /// Number of values that the statistics give for a block.
    pub open spec fn count(&self, block: u32) -> Option<u32> {
        match self.zone(block) {
            Some(z) => Some(z.num),
            None => None,
        }
    }

    /// Whether the bounds of a block are in order, where the block has
    /// statistics.
    pub fn ordered_at(&self, block: u32) -> (r: bool)
        ensures
            r == (self.zone(block) matches Some(z) ==> zone_ordered(z)),
    {
        match self {
            Stats::Float(m) => match m.get(&block) {
                Some(s) => !float_bits_lt(s.max, s.min),
                None => true,
            },
            Stats::Int(m) => match m.get(&block) {
                Some(s) => !(s.max < s.min),
                None => true,
            },
            Stats::Str(m) => match m.get(&block) {
                Some(s) => !bytes_lt_exec(s.max.as_slice(), s.min.as_slice()) && s.min_len
                    <= s.max_len,
                None => true,
            },
        }
    }

    /// Physical type of the column.
    pub fn kind(&self) -> (t: ColumnType)
        ensures
            t == self.column_type(),
    {
        match self {
            Stats::Float(_) => ColumnType::Float,
            Stats::Int(_) => ColumnType::Int,
            Stats::Str(_) => ColumnType::Str,
        }
    }

    /// Number of values that the statistics give for a block.
    pub fn num(&self, block: u32) -> (n: Option<u32>)
        ensures
            n == self.count(block),
    {
        match self {
            Stats::Float(m) => match m.get(&block) {
                Some(s) => Some(s.num),
                None => None,
            },
            Stats::Int(m) => match m.get(&block) {
                Some(s) => Some(s.num),
                None => None,
            },
            Stats::Str(m) => match m.get(&block) {
                Some(s) => Some(s.num),
                None => None,
            },
        }
    }
}

/// Descriptor of one column.
#[derive(Debug)]
pub struct Column {
    /// Name of the column.
    pub name: String,
    /// Physical type and per-block statistics.
    pub block_stats: Stats,
    /// Number of blocks of the column.
    pub num_blocks: u32,
    /// Byte offset of the column's first value in the file.
    pub start_offset: u32,
}

impl Column {
    /// Physical type of the column.
    pub open spec fn column_type(&self) -> ColumnType {
        self.block_stats.column_type()
    }

    /// Number of bytes that one value of the column occupies.
    pub fn field_size(&self) -> (n: usize)
        ensures
            n == self.column_type().width(),
    {
        self.block_stats.kind().field_size()
    }
}

/// No two columns have the same name.
pub open spec fn names_distinct(columns: Seq<Column>) -> bool {
    forall|i: int, j: int|
        0 <= i < j < columns.len() ==> (#[trigger] columns[i]).name@ != (#[trigger] columns[j]).name@
}

/// Number of blocks of a file: that of its first column, 0 without columns.
pub open spec fn blocks_of(columns: Seq<Column>) -> u32 {
    if columns.len() == 0 {
        0
    } else {
        columns[0].num_blocks
    }
}

/// Every column has the same number of blocks.
pub open spec fn blocks_uniform(columns: Seq<Column>) -> bool {
    forall|i: int| 0 <= i < columns.len() ==> (#[trigger] columns[i]).num_blocks == blocks_of(columns)
}

/// Number of values of column `col` in a block, where its statistics say.
pub open spec fn count_at(columns: Seq<Column>, col: int, block: u32) -> Option<u32> {
    columns[col].block_stats.count(block)
}

/// Every column has the per-block counts of the first.
pub open spec fn counts_uniform(columns: Seq<Column>) -> bool {
    forall|i: int, b: u32|
        0 <= i < columns.len() && b < blocks_of(columns) ==> #[trigger] count_at(columns, i, b)
            == count_at(columns, 0, b)
}

/// No block holds more than `max` values, and every block but the last holds
/// exactly `max`, as far as the statistics say.
pub open spec fn counts_full(columns: Seq<Column>, max: u32) -> bool {
    forall|b: u32|
        b < blocks_of(columns) ==> match #[trigger] count_at(columns, 0, b) {
            Some(n) => n <= max && (b + 1 < blocks_of(columns) ==> n == max),
            None => true,
        }
}

/// The statistics of column `col` for a block, where it has them.
pub open spec fn zone_at(columns: Seq<Column>, col: int, block: u32) -> Option<Zone> {
    columns[col].block_stats.zone(block)
}

/// The bounds of every block of every column are in order.
pub open spec fn bounds_ordered(columns: Seq<Column>) -> bool {
    forall|i: int, b: u32|
        0 <= i < columns.len() && b < blocks_of(columns) ==> (#[trigger] zone_at(columns, i, b)
            matches Some(z) ==> zone_ordered(z))
}

/// The columns of a trailer fit together.
pub open spec fn consistent(columns: Seq<Column>, max: u32) -> bool {
    &&& names_distinct(columns)
    &&& blocks_uniform(columns)
    &&& counts_uniform(columns)
    &&& counts_full(columns, max)
    &&& bounds_ordered(columns)
}

/// Number of rows of a block: what the first column's statistics say, 0
/// where they say nothing.
pub open spec fn block_rows(columns: Seq<Column>, block: u32) -> nat {
    if columns.len() == 0 {
        0
    } else {
        match count_at(columns, 0, block) {
            Some(n) => n as nat,
            None => 0,
        }
    }
}

/// Sum of the rows of the blocks before `block`.
pub open spec fn rows_before(columns: Seq<Column>, block: nat) -> nat
    decreases block,
{
    if block == 0 {
        0
    } else {
        rows_before(columns, (block - 1) as nat) + block_rows(columns, (block - 1) as u32)
    }
}


/// Whether no two columns have the same name.
fn check_names(columns: &Vec<Column>) -> (r: bool)
    ensures
        r == names_distinct(columns@),
{
    let mut j: usize = 0;
    while j < columns.len()
        invariant
            j <= columns@.len(),
            forall|a: int, b: int|
                0 <= a < b < j ==> (#[trigger] columns@[a]).name@ != (#[trigger] columns@[b]).name@,
        decreases columns.len() - j,
    {
        let mut i: usize = 0;
        while i < j
            invariant
                i <= j < columns@.len(),
                forall|a: int| 0 <= a < i ==> (#[trigger] columns@[a]).name@ != columns@[j as int].name@,
            decreases j - i,
        {
            if columns[i].name == columns[j].name {
                return false;
            }
            i += 1;
        }
        j += 1;
    }
    true
}

/// Whether every column has the same number of blocks.
fn check_blocks(columns: &Vec<Column>) -> (r: bool)
    ensures
        r == blocks_uniform(columns@),
{
    let mut i: usize = 0;
    while i < columns.len()
        invariant
            i <= columns@.len(),
            forall|a: int| 0 <= a < i ==> (#[trigger] columns@[a]).num_blocks == blocks_of(columns@),
        decreases columns.len() - i,
    {
        if columns[i].num_blocks != columns[0].num_blocks {
            return false;
        }
        i += 1;
    }
    true
}

/// Whether every column has the per-block counts of the first.
fn check_counts(columns: &Vec<Column>) -> (r: bool)
    ensures
        r == counts_uniform(columns@),
{
    if columns.len() == 0 {
        return true;
    }
    let blocks: u32 = columns[0].num_blocks;
    let mut i: usize = 1;
    assert forall|b: u32| b < blocks implies #[trigger] count_at(columns@, 0, b) == count_at(
        columns@,
        0,
        b,
    ) by {}
    while i < columns.len()
        invariant
            1 <= i <= columns@.len(),
            blocks == blocks_of(columns@),
            forall|a: int, b: u32|
                0 <= a < i && b < blocks ==> #[trigger] count_at(columns@, a, b) == count_at(
                    columns@,
                    0,
                    b,
                ),
        decreases columns.len() - i,
    {
        let mut b: u32 = 0;
        while b < blocks
            invariant
                b <= blocks,
                blocks == blocks_of(columns@),
                1 <= i < columns@.len(),
                forall|c: u32|
                    c < b ==> #[trigger] count_at(columns@, i as int, c) == count_at(columns@, 0, c),
            decreases blocks - b,
        {
            if columns[i].block_stats.num(b) != columns[0].block_stats.num(b) {
                assert(count_at(columns@, i as int, b) != count_at(columns@, 0, b));
                return false;
            }
            b += 1;
        }
        i += 1;
    }
    true
}

/// Whether the bounds of every block of every column are in order.
fn check_bounds(columns: &Vec<Column>) -> (r: bool)
    ensures
        r == bounds_ordered(columns@),
{
    if columns.len() == 0 {
        return true;
    }
    let blocks: u32 = columns[0].num_blocks;
    let mut i: usize = 0;
    while i < columns.len()
        invariant
            i <= columns@.len(),
            columns@.len() > 0,
            blocks == blocks_of(columns@),
            forall|a: int, b: u32|
                0 <= a < i && b < blocks ==> (#[trigger] zone_at(columns@, a, b) matches Some(z)
                    ==> zone_ordered(z)),
        decreases columns.len() - i,
    {
        let mut b: u32 = 0;
        while b < blocks
            invariant
                b <= blocks,
                blocks == blocks_of(columns@),
                i < columns@.len(),
                forall|c: u32|
                    c < b ==> (#[trigger] zone_at(columns@, i as int, c) matches Some(z)
                        ==> zone_ordered(z)),
            decreases blocks - b,
        {
            if !columns[i].block_stats.ordered_at(b) {
                assert(zone_at(columns@, i as int, b) matches Some(z) && !zone_ordered(z));
                return false;
            }
            b += 1;
        }
        i += 1;
    }
    true
}

/// The rows of the blocks before `block` are at most as many as those blocks
/// can hold of 32-bit counts.
proof fn lemma_rows_before_bound(columns: Seq<Column>, block: nat)
    ensures
        rows_before(columns, block) <= block * 0xffff_ffff,
    decreases block,
{
    if block > 0 {
        lemma_rows_before_bound(columns, (block - 1) as nat);
    }
}

/// Adds up the rows of the blocks, as long as no block but the last falls
/// short of `max` and none exceeds it.
fn count_rows(columns: &Vec<Column>, max: u32) -> (r: Option<u64>)
    ensures
        match r {
            Some(total) => counts_full(columns@, max) && total == rows_before(
                columns@,
                blocks_of(columns@) as nat,
            ),
            None => !counts_full(columns@, max),
        },
{
    if columns.len() == 0 {
        return Some(0);
    }
    let blocks: u32 = columns[0].num_blocks;
    let mut total: u64 = 0;
    let mut b: u32 = 0;
    while b < blocks
        invariant
            b <= blocks,
            columns@.len() > 0,
            blocks == blocks_of(columns@),
            total == rows_before(columns@, b as nat),
            forall|c: u32|
                c < b ==> match #[trigger] count_at(columns@, 0, c) {
                    Some(n) => n <= max && (c + 1 < blocks ==> n == max),
                    None => true,
                },
        decreases blocks - b,
    {
        let n: u32 = match columns[0].block_stats.num(b) {
            Some(n) => {
                if n > max || (b + 1 < blocks && n != max) {
                    assert(count_at(columns@, 0, b) == Some(n));
                    return None;
                }
                n
            },
            None => 0,
        };
        proof {
            lemma_rows_before_bound(columns@, b as nat);
            assert(rows_before(columns@, (b + 1) as nat) == rows_before(columns@, b as nat)
                + block_rows(columns@, b));
        }
        total = total + n as u64;
        b += 1;
    }
    Some(total)
}

/// Metadata of a file.
#[derive(Debug)]
pub struct Metadata {
    /// Name of the table.
    pub table_name: String,
    /// The columns, each under its name.
    pub columns: Vec<Column>,
    /// Capacity of a block, in values.
    pub max_vals_per_block: u32,
    /// Number of rows of the file: the sum of the per-block counts.
    pub total_rows: u64,
}

impl Metadata {
    /// The metadata is consistent and holds the right number of rows.
    pub open spec fn wf(&self) -> bool {
        &&& consistent(self.columns@, self.max_vals_per_block)
        &&& self.total_rows == rows_before(self.columns@, blocks_of(self.columns@) as nat)
    }

    /// Number of blocks of the file.
    pub open spec fn spec_num_blocks(&self) -> u32 {
        blocks_of(self.columns@)
    }

    /// Number of rows of a block: a block's capacity, cut where the file's
    /// rows end.
    pub open spec fn rows_in_block(&self, block: u32) -> nat {
        let start = block * self.max_vals_per_block;
        if self.total_rows <= start {
            0
        } else if self.total_rows - start >= self.max_vals_per_block {
            self.max_vals_per_block as nat
        } else {
            (self.total_rows - start) as nat
        }
    }

    /// `i` is the position of the column called `name`.
    pub open spec fn is_column(&self, name: Seq<char>, i: int) -> bool {
        0 <= i < self.columns@.len() && self.columns@[i].name@ == name
    }

    /// The metadata has a column called `name`.
    pub open spec fn has_column(&self, name: Seq<char>) -> bool {
        exists|i: int| self.is_column(name, i)
    }

    /// Position of the column called `name`.
    pub open spec fn column_index(&self, name: Seq<char>) -> int {
        choose|i: int| self.is_column(name, i)
    }

    /// A name belongs to one column at most.
    pub proof fn lemma_column_unique(&self, name: Seq<char>, i: int, j: int)
        requires
            self.wf(),
            self.is_column(name, i),
            self.is_column(name, j),
        ensures
            i == j,
    {
        if i < j {
            assert(self.columns@[i].name@ != self.columns@[j].name@);
        } else if j < i {
            assert(self.columns@[j].name@ != self.columns@[i].name@);
        }
    }

    /// Puts the decoded parts of a trailer together.
    ///
    /// Fails with `BadTrailer` where the columns do not fit together: two
    /// share a name, two differ in their number of blocks or in the number of
    /// values of a block, a block holds more values than a block can, a block
    /// other than the last is not full, or the bounds of a block are out of
    /// order.
    pub fn new(table_name: String, columns: Vec<Column>, max_vals_per_block: u32) -> (r: Result<
        Metadata,
        ScanError,
    >)
        ensures
            match r {
                Ok(m) => m.wf() && m.table_name == table_name && m.columns == columns
                    && m.max_vals_per_block == max_vals_per_block,
                Err(e) => e == ScanError::BadTrailer && !consistent(columns@, max_vals_per_block),
            },
    {
        if !check_names(&columns) || !check_blocks(&columns) || !check_counts(&columns)
            || !check_bounds(&columns) {
            return Err(ScanError::BadTrailer);
        }
        match count_rows(&columns, max_vals_per_block) {
            Some(total_rows) => Ok(Metadata { table_name, columns, max_vals_per_block, total_rows }),
            None => Err(ScanError::BadTrailer),
        }
    }

    /// Whether the metadata is well formed. What `new` returns always is; a
    /// value that was put together or changed by hand can be tested here.
    pub fn check(&self) -> (r: bool)
        ensures
            r == self.wf(),
    {
        if !check_names(&self.columns) || !check_blocks(&self.columns) || !check_counts(
            &self.columns,
        ) || !check_bounds(&self.columns) {
            return false;
        }
        match count_rows(&self.columns, self.max_vals_per_block) {
            Some(total_rows) => total_rows == self.total_rows,
            None => false,
        }
    }

    /// Number of blocks of the file.
    #[verifier::when_used_as_spec(spec_num_blocks)]
    pub fn num_blocks(&self) -> (n: u32)
        ensures
            n == self.spec_num_blocks(),
    {
        if self.columns.len() == 0 {
            0
        } else {
            self.columns[0].num_blocks
        }
    }

    /// Number of rows of the file: the sum over the blocks of the number of
    /// values that the statistics give.
    pub fn num_rows(&self) -> (n: u64)
        ensures
            n == self.total_rows,
            self.wf() ==> n == rows_before(self.columns@, self.spec_num_blocks() as nat),
    {
        self.total_rows
    }

    /// Number of rows of a block.
    pub fn num_rows_in_block(&self, block: u32) -> (n: u32)
        ensures
            n == self.rows_in_block(block),
    {
        assert(block * self.max_vals_per_block <= 0xffff_ffff * 0xffff_ffff) by (nonlinear_arith)
            requires
                block <= 0xffff_ffff,
                self.max_vals_per_block <= 0xffff_ffff,
        ;
        let start: u64 = block as u64 * self.max_vals_per_block as u64;
        if self.total_rows <= start {
            0
        } else if self.total_rows - start >= self.max_vals_per_block as u64 {
            self.max_vals_per_block
        } else {
            (self.total_rows - start) as u32
        }
    }

    /// Finds the column called `name`.
    pub fn find_column(&self, name: &String) -> (r: Option<usize>)
        ensures
            match r {
                Some(i) => self.is_column(name@, i as int) && forall|j: int|
                    0 <= j < i ==> !self.is_column(name@, j),
                None => !self.has_column(name@),
            },
    {
        let mut i: usize = 0;
        while i < self.columns.len()
            invariant
                i <= self.columns@.len(),
                forall|j: int| 0 <= j < i ==> !self.is_column(name@, j),
            decreases self.columns.len() - i,
        {
            if self.columns[i].name == *name {
                return Some(i);
            }
            i += 1;
        }
        None
    }
}

/// The statistics of the first column give a count for every block.
pub open spec fn fully_counted(columns: Seq<Column>) -> bool {
    forall|b: u32| b < blocks_of(columns) ==> (#[trigger] count_at(columns, 0, b)) is Some
}

/// The blocks before `block` hold at most `block` times the capacity of a
/// block.
pub proof fn lemma_rows_before_fits(columns: Seq<Column>, max: u32, block: nat)
    requires
        counts_full(columns, max),
        block <= blocks_of(columns),
    ensures
        rows_before(columns, block) <= block * max,
    decreases block,
{
    if block > 0 {
        lemma_rows_before_fits(columns, max, (block - 1) as nat);
        let b = (block - 1) as u32;
        assert(count_at(columns, 0, b) matches Some(n) ==> n <= max);
        assert(block * max == (block - 1) * max + max) by (nonlinear_arith);
    }
}

/// Where every block has a count, the blocks before any block are full.
pub proof fn lemma_rows_before_full(columns: Seq<Column>, max: u32, block: nat)
    requires
        counts_full(columns, max),
        fully_counted(columns),
        block < blocks_of(columns),
    ensures
        rows_before(columns, block) == block * max,
    decreases block,
{
    if block > 0 {
        lemma_rows_before_full(columns, max, (block - 1) as nat);
        let b = (block - 1) as u32;
        assert(count_at(columns, 0, b) is Some);
        assert(count_at(columns, 0, b) matches Some(n) && n == max);
        assert(block_rows(columns, b) == max);
        assert(rows_before(columns, block) == rows_before(columns, (block - 1) as nat) + max);
        assert(block * max == (block - 1) * max + max) by (nonlinear_arith);
    } else {
        assert(block * max == 0) by (nonlinear_arith)
            requires
                block == 0,
        ;
    }
}

impl Metadata {
    /// The rows of a file fit in its blocks.
    pub proof fn lemma_total_fits(&self)
        requires
            self.wf(),
        ensures
            self.total_rows <= self.spec_num_blocks() * self.max_vals_per_block,
    {
        lemma_rows_before_fits(self.columns@, self.max_vals_per_block, self.spec_num_blocks() as nat);
    }

    /// A block is scanned to the count that its statistics give: where every
    /// block of the file has a count, each block, the last and possibly
    /// shorter one too, has as many rows as its count says.
    pub proof fn lemma_block_rows_are_count(&self, block: u32)
        requires
            self.wf(),
            fully_counted(self.columns@),
            block < self.spec_num_blocks(),
        ensures
            Some(self.rows_in_block(block)) == match count_at(self.columns@, 0, block) {
                Some(n) => Some(n as nat),
                None => None,
            },
    {
        let max = self.max_vals_per_block;
        let blocks = self.spec_num_blocks();
        let last = (blocks - 1) as nat;
        lemma_rows_before_full(self.columns@, max, last);
        assert(count_at(self.columns@, 0, last as u32) is Some);
        assert(count_at(self.columns@, 0, block) is Some);
        let n_last = count_at(self.columns@, 0, last as u32)->Some_0;
        assert(self.total_rows == last * max + n_last);
        if block < last {
            assert(last * max >= (block + 1) * max) by (nonlinear_arith)
                requires
                    block + 1 <= last,
                    max >= 0,
            ;
            assert((block + 1) * max == block * max + max) by (nonlinear_arith);
        }
    }
}

} // verus!
