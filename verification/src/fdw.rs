//! The scan as the host drives it: begin, iterate, end.

use vstd::prelude::*;
use crate::error::ScanError;
use crate::metadata::Metadata;
use crate::qual::{Limit, Qual};
use crate::reader::Db721Reader;
use crate::value::Cell;

verus! {

/// A table that the host can scan. Holds the reader of the scan in progress,
/// if there is one.
#[derive(Debug)]
pub struct Db721Fdw {
    pub reader: Option<Db721Reader>,
}

impl Db721Fdw {
    /// The reader, if any, is well formed.
    pub open spec fn wf(&self) -> bool {
        self.reader matches Some(reader) ==> reader.wf()
    }

    /// The state after the scan has ended.
    pub open spec fn ended(self) -> Db721Fdw {
        Db721Fdw { reader: None }
    }

    /// A table with no scan in progress.
    pub fn new() -> (fdw: Db721Fdw)
        ensures
            fdw.reader is None,
    {
        Db721Fdw { reader: None }
    }

    /// Begins a scan of the file with this metadata.
    ///
    /// Where the scan cannot be planned, or every block is pruned, no reader
    /// is kept, the error is returned, and the scan has no rows.
    pub fn begin_scan(
        &mut self,
        metadata: Metadata,
        quals: &[Qual],
        columns: &[String],
        limit: &Option<Limit>,
    ) -> (r: Result<(), ScanError>)
        requires
            metadata.wf(),
        ensures
            final(self).wf(),
            match r {
                Ok(_) => final(self).reader matches Some(reader) && reader.starts(
                    metadata,
                    columns@,
                    quals@,
                    *limit,
                ),
                Err(e) => final(self).reader is None && Db721Reader::refused(
                    &metadata,
                    columns@,
                    quals@,
                    e,
                ),
            },
    {
        match Db721Reader::new(metadata, columns, quals, limit) {
            Ok(reader) => {
                self.reader = Some(reader);
                Ok(())
            },
            Err(e) => {
                self.reader = None;
                Err(e)
            },
        }
    }

    /// Produces the next row of the scan into `row`.
    ///
    /// Without a scan in progress it returns `Ok(None)` and touches neither
    /// `data` nor `row`. Otherwise it makes one step of the reader.
    pub fn iter_scan(&mut self, data: &[u8], row: &mut Vec<Cell>) -> (r: Result<
        Option<()>,
        ScanError,
    >)
        requires
            old(self).wf(),
        ensures
            final(self).wf(),
            match old(self).reader {
                Some(before) => final(self).reader matches Some(after) && before.step(
                    &after,
                    data@,
                    r,
                    final(row)@,
                ),
                None => {
                    &&& r == Ok::<Option<()>, ScanError>(None)
                    &&& final(self).reader is None
                    &&& final(row)@ == old(row)@
                },
            },
    {
        match &mut self.reader {
            Some(reader) => reader.next(data, row),
            None => Ok(None),
        }
    }

    /// Ends the scan: the reader, with the metadata it holds, is dropped.
    pub fn end_scan(&mut self)
        ensures
            *final(self) == old(self).ended(),
    {
        self.reader = None;
    }

    /// Ending a scan twice is ending it once, and a table whose scan has
    /// ended has no reader, so that iterating it gives no row.
    pub proof fn lemma_end_scan_idempotent(self)
        ensures
            self.ended().ended() == self.ended(),
            self.ended().reader is None,
            self.ended().wf(),
    {
    }
}

} // verus!
