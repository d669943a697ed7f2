//! Block indices as they appear in the trailer: keys of a JSON object, written
//! in decimal.

use std::collections::HashMap;
use vstd::prelude::*;
use vstd::string::StringSliceAdditionalSpecFns;
use crate::error::ScanError;

verus! {

broadcast use vstd::std_specs::hash::group_hash_axioms;

/// The byte is an ASCII decimal digit.
pub open spec fn is_digit(b: u8) -> bool {
    0x30 <= b <= 0x39
}

/// Every byte is an ASCII decimal digit.
pub open spec fn all_digits(s: Seq<u8>) -> bool {
    forall|i: int| 0 <= i < s.len() ==> is_digit(#[trigger] s[i])
}

/// The number that a run of decimal digits spells, most significant digit
/// first.
pub open spec fn digits_value(s: Seq<u8>) -> nat
    decreases s.len(),
{
    if s.len() == 0 {
        0
    } else {
        (digits_value(s.drop_last()) * 10 + (s.last() - 0x30)) as nat
    }
}

/// The block index that a key spells: an optional `+`, then one or more
/// decimal digits whose value fits in 32 bits. `None` for any other text.
pub open spec fn parse_index(key: Seq<u8>) -> Option<u32> {
    let digits = if key.len() > 0 && key[0] == 0x2b {
        key.skip(1)
    } else {
        key
    };
    if digits.len() > 0 && all_digits(digits) && digits_value(digits) <= u32::MAX {
        Some(digits_value(digits) as u32)
    } else {
        None
    }
}

/// A run of digits spells at least what any of its prefixes spells.
proof fn lemma_digits_value_grows(s: Seq<u8>, n: int)
    requires
        all_digits(s),
        0 <= n <= s.len(),
    ensures
        digits_value(s.take(n)) <= digits_value(s),
    decreases s.len(),
{
    if n == s.len() {
        assert(s.take(n) =~= s);
    } else {
        assert(is_digit(s.last()));
        assert(s.drop_last().take(n) =~= s.take(n));
        lemma_digits_value_grows(s.drop_last(), n);
    }
}

/// The block index that a key spells in its UTF-8 encoding.
pub open spec fn parse_key(key: Seq<char>) -> Option<u32> {
    parse_index(vstd::utf8::encode_utf8(key))
}

/// Reads a block index from the bytes of a key.
fn parse_index_bytes(key: &[u8]) -> (r: Option<u32>)
    ensures
        r == parse_index(key@),
{
    let start: usize = if key.len() > 0 && key[0] == 0x2b {
        1
    } else {
        0
    };
    let ghost digits = key@.skip(start as int);
    assert(start == 0 ==> digits =~= key@);
    if key.len() == start {
        return None;
    }
    let mut value: u64 = 0;
    let mut i: usize = start;
    while i < key.len()
        invariant
            start <= i <= key.len(),
            start < key.len(),
            digits == key@.skip(start as int),
            digits == if key@.len() > 0 && key@[0] == 0x2b {
                key@.skip(1)
            } else {
                key@
            },
            all_digits(digits.take(i - start)),
            value == digits_value(digits.take(i - start)),
            value <= u32::MAX,
        decreases key.len() - i,
    {
        let b: u8 = key[i];
        let ghost prefix = digits.take(i - start + 1);
        assert(prefix.drop_last() =~= digits.take(i - start));
        assert(prefix.last() == b);
        if b < 0x30 || b > 0x39 {
            assert(!is_digit(digits[i - start]));
            return None;
        }
        assert(all_digits(prefix)) by {
            assert forall|j: int| 0 <= j < prefix.len() implies is_digit(#[trigger] prefix[j]) by {
                if j < prefix.len() - 1 {
                    assert(prefix[j] == digits.take(i - start)[j]);
                }
            }
        }
        value = value * 10 + (b - 0x30) as u64;
        if value > u32::MAX as u64 {
            proof {
                if all_digits(digits) {
                    lemma_digits_value_grows(digits, i - start + 1);
                }
            }
            return None;
        }
        i += 1;
    }
    assert(digits.take(i - start) =~= digits);
    Some(value as u32)
}

/// Reads a block index from a key of the trailer's `block_stats` object.
///
/// Accepts an optional `+` followed by decimal digits, as long as the number
/// fits in 32 bits; the bytes are those of the key's UTF-8 encoding.
pub fn parse_block_index(key: &str) -> (r: Option<u32>)
    ensures
        r == parse_key(key@),
{
    parse_index_bytes(key.as_bytes())
}

/// The map that the first `n` entries build when they are inserted in order
/// under their parsed keys: of two entries with the same index the later one
/// stays.
pub open spec fn keyed<V>(entries: Seq<(String, V)>, n: nat) -> Map<u32, V>
    decreases n,
{
    if n == 0 {
        Map::empty()
    } else {
        let (key, value) = entries[n - 1];
        keyed(entries, (n - 1) as nat).insert(parse_key(key@).unwrap(), value)
    }
}

/// Every key of the entries spells a block index.
pub open spec fn keys_parse<V>(entries: Seq<(String, V)>) -> bool {
    forall|i: int| 0 <= i < entries.len() ==> parse_key((#[trigger] entries[i]).0@) is Some
}

/// Turns the entries of a JSON object whose keys spell block indices into a
/// map keyed by those indices.
///
/// Fails with `BadTrailer` where a key is not a block index. Entries are
/// inserted in the order given, so of two keys that spell the same index the
/// later entry stays.
pub fn de_int_key<V>(entries: Vec<(String, V)>) -> (r: Result<HashMap<u32, V>, ScanError>)
    ensures
        match r {
            Ok(map) => keys_parse(entries@) && map@ == keyed(entries@, entries@.len()),
            Err(e) => !keys_parse(entries@) && e == ScanError::BadTrailer,
        },
{
    let ghost all = entries@;
    let total: usize = entries.len();
    let mut map: HashMap<u32, V> = HashMap::new();
    let mut rest = entries;
    let mut stack: Vec<(String, V)> = Vec::new();
    // Reverse the entries so that they can be taken out first to last.
    while rest.len() > 0
        invariant
            rest@.len() + stack@.len() == all.len(),
            forall|i: int| 0 <= i < rest@.len() ==> rest@[i] == all[i],
            forall|i: int| 0 <= i < stack@.len() ==> stack@[i] == all[all.len() - 1 - i],
        decreases rest.len(),
    {
        let e = rest.pop().unwrap();
        stack.push(e);
    }
    let mut n: usize = 0;
    while stack.len() > 0
        invariant
            n + stack@.len() == all.len(),
            all == entries@,
            all.len() == total,
            forall|i: int| 0 <= i < stack@.len() ==> stack@[i] == all[all.len() - 1 - i],
            forall|i: int| 0 <= i < n ==> parse_key((#[trigger] all[i]).0@) is Some,
            map@ == keyed(all, n as nat),
        decreases stack.len(),
    {
        let (key, value) = stack.pop().unwrap();
        assert((key, value) == all[n as int]);
        match parse_block_index(key.as_str()) {
            Some(index) => {
                map.insert(index, value);
            },
            None => {
                return Err(ScanError::BadTrailer);
            },
        }
        n += 1;
    }
    Ok(map)
}

} // verus!
