//! Cell values, their orderings and their on-disk encoding.

use vstd::prelude::*;

verus! {

/// Physical type of a column.
#[derive(Debug, Clone, Copy, PartialEq, Eq, Structural)]
pub enum ColumnType {
    /// 32-bit signed integer, 4 bytes little-endian.
    Int,
    /// 32-bit IEEE-754 number, 4 bytes little-endian.
    Float,
    /// Zero-terminated byte string in a 32-byte slot.
    Str,
}

/// Width in bytes of a string slot.
pub const STR_SLOT: usize = 32;

impl ColumnType {
    /// Number of bytes one value of this type occupies in the file.
    pub open spec fn width(self) -> nat {
        match self {
            ColumnType::Int => 4,
            ColumnType::Float => 4,
            ColumnType::Str => 32,
        }
    }

    /// Number of bytes one value of this type occupies in the file.
    pub fn field_size(self) -> (n: usize)
        ensures
            n == self.width(),
    {
        match self {
            ColumnType::Int => 4,
            ColumnType::Float => 4,
            ColumnType::Str => STR_SLOT,
        }
    }
}

/// A typed value: what a cell of a row holds, and what a predicate compares
/// with. A `Float` carries the IEEE-754 bit pattern of the number.
#[derive(Debug, Clone, PartialEq, Eq)]
pub enum Cell {
    Int(i32),
    Float(u32),
    Str(Vec<u8>),
}

/// Mathematical value of a [`Cell`].
pub enum CellValue {
    Int(int),
    Float(u32),
    Str(Seq<u8>),
}

impl View for Cell {
    type V = CellValue;

    open spec fn view(&self) -> CellValue {
        match self {
            Cell::Int(i) => CellValue::Int(*i as int),
            Cell::Float(bits) => CellValue::Float(*bits),
            Cell::Str(bytes) => CellValue::Str(bytes@),
        }
    }
}

impl CellValue {
    /// Physical type of the value.
    pub open spec fn column_type(self) -> ColumnType {
        match self {
            CellValue::Int(_) => ColumnType::Int,
            CellValue::Float(_) => ColumnType::Float,
            CellValue::Str(_) => ColumnType::Str,
        }
    }
}

impl Cell {
    /// Physical type of the value.
    pub fn column_type(&self) -> (t: ColumnType)
        ensures
            t == self@.column_type(),
    {
        match self {
            Cell::Int(_) => ColumnType::Int,
            Cell::Float(_) => ColumnType::Float,
            Cell::Str(_) => ColumnType::Str,
        }
    }
}

// ---------------------------------------------------------------------------
// IEEE-754 single precision, on bit patterns
// ---------------------------------------------------------------------------

/// The pattern is a NaN: exponent all ones, mantissa not zero.
pub open spec fn float_is_nan(bits: u32) -> bool {
    bits % 0x8000_0000 > 0x7f80_0000
}

/// Position of a pattern that is not a NaN on the number line: the magnitude
/// bits, negated where the sign bit is set. Both zeros map to 0.
pub open spec fn float_key(bits: u32) -> int {
    if bits >= 0x8000_0000 {
        -(bits - 0x8000_0000)
    } else {
        bits as int
    }
}

/// `a < b` as IEEE-754 compares them: false where either is a NaN.
pub open spec fn float_lt(a: u32, b: u32) -> bool {
    !float_is_nan(a) && !float_is_nan(b) && float_key(a) < float_key(b)
}

/// `a == b` as IEEE-754 compares them: false where either is a NaN, true of
/// the two zeros.
pub open spec fn float_eq(a: u32, b: u32) -> bool {
    !float_is_nan(a) && !float_is_nan(b) && float_key(a) == float_key(b)
}

/// Whether the bit pattern is a NaN.
pub fn is_nan_bits(bits: u32) -> (r: bool)
    ensures
        r == float_is_nan(bits),
{
    bits % 0x8000_0000 > 0x7f80_0000
}

/// The sign-and-magnitude pattern as a signed number.
fn key_of_bits(bits: u32) -> (k: i64)
    ensures
        k == float_key(bits),
{
    if bits >= 0x8000_0000 {
        -((bits - 0x8000_0000) as i64)
    } else {
        bits as i64
    }
}

/// `a < b` on IEEE-754 bit patterns.
pub fn float_bits_lt(a: u32, b: u32) -> (r: bool)
    ensures
        r == float_lt(a, b),
{
    !is_nan_bits(a) && !is_nan_bits(b) && key_of_bits(a) < key_of_bits(b)
}

/// `a == b` on IEEE-754 bit patterns.
pub fn float_bits_eq(a: u32, b: u32) -> (r: bool)
    ensures
        r == float_eq(a, b),
{
    !is_nan_bits(a) && !is_nan_bits(b) && key_of_bits(a) == key_of_bits(b)
}

// ---------------------------------------------------------------------------
// Byte strings
// ---------------------------------------------------------------------------

/// `a` and `b` agree on their first `k` bytes.
pub open spec fn bytes_agree(a: Seq<u8>, b: Seq<u8>, k: int) -> bool {
    &&& 0 <= k <= a.len()
    &&& k <= b.len()
    &&& forall|i: int| 0 <= i < k ==> a[i] == b[i]
}

/// `a` comes before `b` in lexicographic byte order: after a common prefix,
/// either `a` ends and `b` goes on, or `a` has the smaller byte.
pub open spec fn bytes_lt(a: Seq<u8>, b: Seq<u8>) -> bool {
    exists|k: int| #[trigger]
        bytes_agree(a, b, k) && (if k == a.len() {
            k < b.len()
        } else {
            k < b.len() && a[k] < b[k]
        })
}

/// Length of the longest common prefix of two byte strings.
fn common_prefix(a: &[u8], b: &[u8]) -> (k: usize)
    ensures
        bytes_agree(a@, b@, k as int),
        k < a.len() && k < b.len() ==> a@[k as int] != b@[k as int],
{
    let mut k: usize = 0;
    while k < a.len() && k < b.len() && a[k] == b[k]
        invariant
            bytes_agree(a@, b@, k as int),
        decreases a.len() - k,
    {
        k += 1;
    }
    k
}

/// Two common prefixes, one of which ends at a differing byte or at the end of
/// a string, bound each other.
proof fn lemma_agree_bound(a: Seq<u8>, b: Seq<u8>, k: int, j: int)
    requires
        bytes_agree(a, b, k),
        bytes_agree(a, b, j),
        k < a.len() && k < b.len() ==> a[k] != b[k],
    ensures
        j <= k,
{
    if j > k {
        assert(a[k] == b[k]);
    }
}

/// `a < b` in lexicographic byte order.
pub fn bytes_lt_exec(a: &[u8], b: &[u8]) -> (r: bool)
    ensures
        r == bytes_lt(a@, b@),
{
    let k = common_prefix(a, b);
    let r = if k == a.len() {
        k < b.len()
    } else {
        k < b.len() && a[k] < b[k]
    };
    proof {
        if r {
            assert(bytes_agree(a@, b@, k as int));
        } else {
            assert forall|j: int| #[trigger] bytes_agree(a@, b@, j) implies !(if j == a@.len() {
                j < b@.len()
            } else {
                j < b@.len() && a@[j] < b@[j]
            }) by {
                lemma_agree_bound(a@, b@, k as int, j);
            }
        }
    }
    r
}

/// `a == b` byte for byte.
pub fn bytes_eq_exec(a: &[u8], b: &[u8]) -> (r: bool)
    ensures
        r == (a@ == b@),
{
    if a.len() != b.len() {
        return false;
    }
    let k = common_prefix(a, b);
    proof {
        if k == a.len() {
            assert(a@ =~= b@);
        }
    }
    k == a.len()
}

/// No byte string comes before itself.
pub proof fn lemma_bytes_lt_irreflexive(a: Seq<u8>)
    ensures
        !bytes_lt(a, a),
{
}

/// The order on byte strings is transitive.
pub proof fn lemma_bytes_lt_transitive(a: Seq<u8>, b: Seq<u8>, c: Seq<u8>)
    requires
        bytes_lt(a, b),
        bytes_lt(b, c),
    ensures
        bytes_lt(a, c),
{
    let k1 = choose|k: int| #[trigger]
        bytes_agree(a, b, k) && (if k == a.len() {
            k < b.len()
        } else {
            k < b.len() && a[k] < b[k]
        });
    let k2 = choose|k: int| #[trigger]
        bytes_agree(b, c, k) && (if k == b.len() {
            k < c.len()
        } else {
            k < c.len() && b[k] < c[k]
        });
    let k = if k1 <= k2 { k1 } else { k2 };
    assert(bytes_agree(a, c, k));
}

// ---------------------------------------------------------------------------
// Ordering of cells
// ---------------------------------------------------------------------------

/// `a < b` for two values of one type; false for values of different types.
pub open spec fn cell_lt(a: CellValue, b: CellValue) -> bool {
    match (a, b) {
        (CellValue::Int(x), CellValue::Int(y)) => x < y,
        (CellValue::Float(x), CellValue::Float(y)) => float_lt(x, y),
        (CellValue::Str(x), CellValue::Str(y)) => bytes_lt(x, y),
        _ => false,
    }
}

/// `a == b` for two values of one type, numbers compared as numbers; false for
/// values of different types.
pub open spec fn cell_eq(a: CellValue, b: CellValue) -> bool {
    match (a, b) {
        (CellValue::Int(x), CellValue::Int(y)) => x == y,
        (CellValue::Float(x), CellValue::Float(y)) => float_eq(x, y),
        (CellValue::Str(x), CellValue::Str(y)) => x == y,
        _ => false,
    }
}

impl Cell {
    /// `self < other`, false for values of different types.
    pub fn lt(&self, other: &Cell) -> (r: bool)
        ensures
            r == cell_lt(self@, other@),
    {
        match (self, other) {
            (Cell::Int(x), Cell::Int(y)) => *x < *y,
            (Cell::Float(x), Cell::Float(y)) => float_bits_lt(*x, *y),
            (Cell::Str(x), Cell::Str(y)) => bytes_lt_exec(x.as_slice(), y.as_slice()),
            _ => false,
        }
    }

    /// `self == other` as values, false for values of different types.
    pub fn same(&self, other: &Cell) -> (r: bool)
        ensures
            r == cell_eq(self@, other@),
    {
        match (self, other) {
            (Cell::Int(x), Cell::Int(y)) => *x == *y,
            (Cell::Float(x), Cell::Float(y)) => float_bits_eq(*x, *y),
            (Cell::Str(x), Cell::Str(y)) => bytes_eq_exec(x.as_slice(), y.as_slice()),
            _ => false,
        }
    }
}

} // verus!
