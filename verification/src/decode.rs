//! Decoding of cells from the bytes of a file.

use vstd::prelude::*;
use crate::value::{Cell, CellValue, ColumnType, STR_SLOT};

verus! {

/// The unsigned number that four bytes encode, least significant byte first.
pub open spec fn le_u32(b: Seq<u8>) -> int
    recommends
        b.len() == 4,
{
    b[0] + 0x100 * b[1] + 0x1_0000 * b[2] + 0x100_0000 * b[3]
}

/// The signed number that four bytes encode in two's complement, least
/// significant byte first.
pub open spec fn le_i32(b: Seq<u8>) -> int
    recommends
        b.len() == 4,
{
    if le_u32(b) >= 0x8000_0000 {
        le_u32(b) - 0x1_0000_0000
    } else {
        le_u32(b)
    }
}

/// `n` is the position of the first zero byte of `slot`.
pub open spec fn is_text_end(slot: Seq<u8>, n: int) -> bool {
    &&& 0 <= n < slot.len()
    &&& slot[n] == 0
    &&& forall|j: int| 0 <= j < n ==> slot[j] != 0
}

/// The string that a slot holds: its bytes before the first zero byte. `None`
/// where the slot has no zero byte.
pub open spec fn text_of(slot: Seq<u8>) -> Option<Seq<u8>> {
    if exists|n: int| is_text_end(slot, n) {
        Some(slot.take(choose|n: int| is_text_end(slot, n)))
    } else {
        None
    }
}

/// The value that the bytes of one field encode. `None` for a string slot
/// without terminator.
pub open spec fn decode_cell(ty: ColumnType, field: Seq<u8>) -> Option<CellValue>
    recommends
        field.len() == ty.width(),
{
    match ty {
        ColumnType::Int => Some(CellValue::Int(le_i32(field))),
        ColumnType::Float => Some(CellValue::Float(le_u32(field) as u32)),
        ColumnType::Str => match text_of(field) {
            Some(text) => Some(CellValue::Str(text)),
            None => None,
        },
    }
}

/// The value of type `ty` stored at byte `offset` of `data`. `None` where the
/// field does not lie within `data` or does not decode.
pub open spec fn read_at(data: Seq<u8>, offset: nat, ty: ColumnType) -> Option<CellValue> {
    if offset + ty.width() <= data.len() {
        decode_cell(ty, data.subrange(offset as int, (offset + ty.width()) as int))
    } else {
        None
    }
}

/// A slot has at most one first zero byte.
pub proof fn lemma_text_end_unique(slot: Seq<u8>, n: int, m: int)
    requires
        is_text_end(slot, n),
        is_text_end(slot, m),
    ensures
        n == m,
{
    if n < m {
        assert(slot[n] != 0);
    } else if m < n {
        assert(slot[m] != 0);
    }
}

/// Reads four bytes as an unsigned number, least significant byte first.
fn read_u32_le(data: &[u8], at: usize) -> (v: u32)
    requires
        at + 4 <= data.len(),
    ensures
        v == le_u32(data@.subrange(at as int, at + 4)),
{
    let b0: u32 = data[at] as u32;
    let b1: u32 = data[at + 1] as u32;
    let b2: u32 = data[at + 2] as u32;
    let b3: u32 = data[at + 3] as u32;
    b0 + 0x100 * b1 + 0x1_0000 * b2 + 0x100_0000 * b3
}

/// Reads four bytes as a signed number in two's complement, least significant
/// byte first.
fn read_i32_le(data: &[u8], at: usize) -> (v: i32)
    requires
        at + 4 <= data.len(),
    ensures
        v == le_i32(data@.subrange(at as int, at + 4)),
{
    let u: u32 = read_u32_le(data, at);
    if u >= 0x8000_0000 {
        let low: i32 = (u - 0x8000_0000) as i32;
        low + i32::MIN
    } else {
        u as i32
    }
}

/// Copies the bytes of a slot that come before its first zero byte.
fn read_text(data: &[u8], at: usize) -> (r: Option<Vec<u8>>)
    requires
        at + STR_SLOT <= data.len(),
    ensures
        match r {
            Some(text) => text_of(data@.subrange(at as int, at + STR_SLOT)) == Some(text@),
            None => text_of(data@.subrange(at as int, at + STR_SLOT)) is None,
        },
{
    let ghost slot = data@.subrange(at as int, at + STR_SLOT);
    let mut text: Vec<u8> = Vec::new();
    let mut n: usize = 0;
    while n < STR_SLOT
        invariant
            n <= STR_SLOT,
            at + STR_SLOT <= data.len(),
            slot == data@.subrange(at as int, at + STR_SLOT),
            text@ == slot.take(n as int),
            forall|j: int| 0 <= j < n ==> slot[j] != 0,
        decreases STR_SLOT - n,
    {
        let byte: u8 = data[at + n];
        assert(byte == slot[n as int]);
        if byte == 0 {
            proof {
                assert(is_text_end(slot, n as int));
                let m = choose|m: int| is_text_end(slot, m);
                lemma_text_end_unique(slot, n as int, m);
            }
            return Some(text);
        }
        text.push(byte);
        n += 1;
        assert(text@ =~= slot.take(n as int));
    }
    assert forall|m: int| !is_text_end(slot, m) by {
        if 0 <= m < slot.len() {
            assert(slot[m] != 0);
        }
    }
    None
}

/// Reads the value of type `ty` stored at byte `read_offset` of `data`.
///
/// Numbers are decoded little-endian. A string is the part of its 32-byte
/// slot before the first zero byte. Returns `None` where the field reaches
/// past the end of `data` or a string slot holds no zero byte.
pub fn read_val(data: &[u8], read_offset: u128, ty: ColumnType) -> (r: Option<Cell>)
    ensures
        match r {
            Some(cell) => read_at(data@, read_offset as nat, ty) == Some(cell@),
            None => read_at(data@, read_offset as nat, ty) is None,
        },
{
    let size: usize = ty.field_size();
    if data.len() < size || read_offset > (data.len() - size) as u128 {
        return None;
    }
    let at: usize = read_offset as usize;
    match ty {
        ColumnType::Int => Some(Cell::Int(read_i32_le(data, at))),
        ColumnType::Float => Some(Cell::Float(read_u32_le(data, at))),
        ColumnType::Str => match read_text(data, at) {
            Some(text) => Some(Cell::Str(text)),
            None => None,
        },
    }
}

} // verus!
