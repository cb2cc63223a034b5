use vstd::prelude::*;

use crate::LogWriter;

verus! {

/// The epoch after `e`, wrapping to 0 after the largest one.
pub open spec fn next_epoch(e: usize) -> usize {
    if e == usize::MAX {
        0
    } else {
        (e + 1) as usize
    }
}

/// The count after `c`, saturating at the largest count.
pub open spec fn saturating_next(c: usize) -> usize {
    if c == usize::MAX {
        usize::MAX
    } else {
        (c + 1) as usize
    }
}

/// The bookkeeping of one stream: the active epoch, the records written since
/// the last rotation, and the writer of the active segment.
#[derive(Debug)]
pub struct Table<W> {
    records_written: usize,
    epoch: usize,
    writer: W,
}

impl<W: LogWriter> Table<W> {
    pub closed spec fn spec_epoch(&self) -> usize {
        self.epoch
    }

    pub closed spec fn spec_records_written(&self) -> usize {
        self.records_written
    }

    pub closed spec fn spec_writer(&self) -> W {
        self.writer
    }

    pub fn new(writer: W, epoch: usize) -> (r: Self)
        ensures
            r.spec_epoch() == epoch,
            r.spec_records_written() == 0,
            r.spec_writer() == writer,
    {
        Table { records_written: 0, epoch, writer }
    }

    /// Installs the writer of the next segment: the epoch advances by one and
    /// the count starts again from zero.
    pub fn replace(&mut self, writer: W)
        ensures
            final(self).spec_epoch() == next_epoch(old(self).spec_epoch()),
            final(self).spec_records_written() == 0,
            final(self).spec_writer() == writer,
    {
        self.writer = writer;
        self.epoch = self.epoch.wrapping_add(1);
        self.records_written = 0;
    }

    pub fn writer(&mut self) -> (r: &mut W)
        ensures
            *r == old(self).spec_writer(),
            final(self).spec_writer() == *final(r),
            final(self).spec_epoch() == old(self).spec_epoch(),
            final(self).spec_records_written() == old(self).spec_records_written(),
    {
        &mut self.writer
    }

    /// Counts one more record, saturating at the largest count.
    pub fn incr_record_count(&mut self)
        ensures
            final(self).spec_records_written() == saturating_next(old(self).spec_records_written()),
            final(self).spec_epoch() == old(self).spec_epoch(),
            final(self).spec_writer() == old(self).spec_writer(),
    {
        self.records_written = self.records_written.saturating_add(1);
    }

    pub fn flush(&mut self)
        ensures
            final(self).spec_writer().is_flushed(),
            final(self).spec_writer().path()@ == old(self).spec_writer().path()@,
            final(self).spec_epoch() == old(self).spec_epoch(),
            final(self).spec_records_written() == old(self).spec_records_written(),
    {
        self.writer.flush();
    }

    pub fn epoch(&self) -> (r: usize)
        ensures
            r == self.spec_epoch(),
    {
        self.epoch
    }

    pub fn records_written(&self) -> (r: usize)
        ensures
            r == self.spec_records_written(),
    {
        self.records_written
    }
}

} // verus!
