//! Report files of the feed and the records kept of them.

use vstd::prelude::*;

verus! {

/// A file of the report feed.
#[derive(Debug)]
pub struct FileInfo {
    /// Unique key of the file.
    pub key: String,
    /// Time that the feed assigned to the file, in milliseconds since the
    /// Unix epoch.
    pub timestamp: i64,
    /// Size in bytes.
    pub size: usize,
}

/// A file of the feed as contracts see it.
pub struct FileInfoView {
    pub key: Seq<char>,
    pub timestamp: i64,
    pub size: usize,
}

impl View for FileInfo {
    type V = FileInfoView;

    open spec fn view(&self) -> FileInfoView {
        FileInfoView { key: self.key@, timestamp: self.timestamp, size: self.size }
    }
}

impl Clone for FileInfo {
    fn clone(&self) -> (r: Self)
        ensures
            r == *self,
    {
        FileInfo { key: self.key.clone(), timestamp: self.timestamp, size: self.size }
    }
}

/// The record kept of a file: whether every report of it has been applied,
/// and how often a pass over it has failed.
#[derive(Debug)]
pub struct IotPocFile {
    pub _key: String,
    /// Time of the file, in milliseconds since the Unix epoch.
    pub timestamp: i64,
    pub unix_ts: i64,
    pub size: usize,
    pub done: bool,
    pub retries: u8,
}

/// A file record as contracts see it.
pub struct IotPocFileView {
    pub key: Seq<char>,
    pub timestamp: i64,
    pub unix_ts: i64,
    pub size: usize,
    pub done: bool,
    pub retries: u8,
}

impl View for IotPocFile {
    type V = IotPocFileView;

    open spec fn view(&self) -> IotPocFileView {
        IotPocFileView {
            key: self._key@,
            timestamp: self.timestamp,
            unix_ts: self.unix_ts,
            size: self.size,
            done: self.done,
            retries: self.retries,
        }
    }
}

impl Clone for IotPocFile {
    fn clone(&self) -> (r: Self)
        ensures
            r == *self,
    {
        IotPocFile {
            _key: self._key.clone(),
            timestamp: self.timestamp,
            unix_ts: self.unix_ts,
            size: self.size,
            done: self.done,
            retries: self.retries,
        }
    }
}

/// The record of a file that has just been selected: not done, never
/// failed.
pub open spec fn fresh_record(file: FileInfoView) -> IotPocFileView {
    IotPocFileView {
        key: file.key,
        timestamp: file.timestamp,
        unix_ts: file.timestamp,
        size: file.size,
        done: false,
        retries: 0,
    }
}

impl vstd::std_specs::convert::FromSpecImpl<&FileInfo> for IotPocFile {
    open spec fn obeys_from_spec() -> bool {
        true
    }

    open spec fn from_spec(fi: &FileInfo) -> IotPocFile {
        IotPocFile {
            _key: fi.key,
            timestamp: fi.timestamp,
            unix_ts: fi.timestamp,
            size: fi.size,
            done: false,
            retries: 0,
        }
    }
}

impl From<&FileInfo> for IotPocFile {
    /// The record with which a file starts out.
    fn from(fi: &FileInfo) -> (r: Self)
        ensures
            r@ == fresh_record(fi@),
    {
        IotPocFile {
            _key: fi.key.clone(),
            timestamp: fi.timestamp,
            unix_ts: fi.timestamp,
            size: fi.size,
            done: false,
            retries: 0,
        }
    }
}

impl IotPocFile {
    /// Marks the file done. A file that is done stays done.
    pub fn complete(&mut self)
        ensures
            final(self)@ == (IotPocFileView { done: true, ..old(self)@ }),
    {
        self.done = true;
    }

    /// Counts one more failed pass and answers with the new count, or
    /// with `None` if the counter is at its end and stays there. Whether
    /// the file is done does not change, and the count never goes down.
    pub fn increment_retry(&mut self) -> (r: Option<u8>)
        ensures
            match r {
                Some(n) => n == old(self).retries + 1 && final(self)@ == (IotPocFileView {
                    retries: n,
                    ..old(self)@
                }),
                None => old(self).retries == u8::MAX && final(self)@ == old(self)@,
            },
            final(self).done == old(self).done,
            final(self).retries >= old(self).retries,
    {
        if self.retries < u8::MAX {
            self.retries = self.retries + 1;
            Some(self.retries)
        } else {
            None
        }
    }
}

} // verus!
