//! Location of the JSON trailer within a file.

use vstd::prelude::*;
use vstd::slice::slice_subrange;
use crate::decode::le_u32;
use crate::error::ScanError;

verus! {

/// Number of bytes at the end of a file that hold the trailer's length.
pub const LEN_FIELD: usize = 4;

/// The length of the trailer that a file declares in its last four bytes,
/// little-endian.
pub open spec fn declared_len(file: Seq<u8>) -> int
    recommends
        file.len() >= 4,
{
    le_u32(file.subrange(file.len() - 4, file.len() as int))
}

/// The file holds a trailer: it has the length field, and the declared length
/// fits in what comes before it.
pub open spec fn has_trailer(file: Seq<u8>) -> bool {
    file.len() >= 4 && declared_len(file) <= file.len() - 4
}

/// The bytes of the trailer: those that end where the length field begins.
pub open spec fn trailer_of(file: Seq<u8>) -> Seq<u8>
    recommends
        has_trailer(file),
{
    file.subrange(file.len() - 4 - declared_len(file), file.len() - 4)
}

/// Finds the JSON trailer of a file.
///
/// The last four bytes of the file are the trailer's length, unsigned and
/// little-endian; the trailer is the run of that many bytes just before them.
/// Fails with `BadTrailer` where the file is shorter than four bytes or the
/// declared length exceeds what precedes the length field.
pub fn parse_file(file: &[u8]) -> (r: Result<&[u8], ScanError>)
    ensures
        match r {
            Ok(trailer) => has_trailer(file@) && trailer@ == trailer_of(file@),
            Err(e) => !has_trailer(file@) && e == ScanError::BadTrailer,
        },
{
    if file.len() < LEN_FIELD {
        return Err(ScanError::BadTrailer);
    }
    let metadata_len_start: usize = file.len() - LEN_FIELD;
    let b0: u32 = file[metadata_len_start] as u32;
    let b1: u32 = file[metadata_len_start + 1] as u32;
    let b2: u32 = file[metadata_len_start + 2] as u32;
    let b3: u32 = file[metadata_len_start + 3] as u32;
    let metadata_len: u32 = b0 + 0x100 * b1 + 0x1_0000 * b2 + 0x100_0000 * b3;
    if metadata_len as u64 > metadata_len_start as u64 {
        return Err(ScanError::BadTrailer);
    }
    let metadata_start: usize = metadata_len_start - metadata_len as usize;
    Ok(slice_subrange(file, metadata_start, metadata_len_start))
}

} // verus!
