//! Selecting the files of a time window, bounding how many are open at
//! once, and computing the time from which the next run resumes.
//!
//! Nothing here reads the feed or the store. The caller lists the files,
//! opens the ones that the scheduler admits, reports back how each fared,
//! and carries out the actions that the scheduler answers with.

use crate::document::iot_poc_file::FileInfo;
use crate::document::DocumentError;
use crate::handler::arangodb::{DBError, ErrorKind};
use crate::handler::file_scheduler::FileEvent;
use crate::settings::Settings;
use crate::text::{contains_key, key_listed, texts};
use vstd::prelude::*;

verus! {

/// `t` is the timestamp of one of the files, and none is later.
pub open spec fn is_latest(files: Seq<FileInfo>, t: i64) -> bool {
    &&& exists|i: int| 0 <= i < files.len() && (#[trigger] files[i]).timestamp == t
    &&& forall|i: int| 0 <= i < files.len() ==> (#[trigger] files[i]).timestamp <= t
}

/// `t` is the timestamp of one of the files, and none is earlier.
pub open spec fn is_earliest(files: Seq<FileInfo>, t: i64) -> bool {
    &&& exists|i: int| 0 <= i < files.len() && (#[trigger] files[i]).timestamp == t
    &&& forall|i: int| 0 <= i < files.len() ==> (#[trigger] files[i]).timestamp >= t
}

/// The files that are left of `files` once those whose key is among
/// `done` are taken out, in their order.
pub open spec fn not_done(files: Seq<FileInfo>, done: Seq<String>) -> Seq<FileInfo> {
    files.filter(|f: FileInfo| !key_listed(done, f.key@))
}

/// A failed file together with what the store answered when asked how
/// often the file has failed so far.
#[derive(Debug)]
pub struct RetryLookup {
    pub file: FileInfo,
    pub retries: Result<u8, DBError>,
}

/// The file still counts: its retry count is known and within the budget.
pub open spec fn within_budget(lookup: RetryLookup, max_retries: u8) -> bool {
    lookup.retries matches Ok(n) && n <= max_retries
}

/// The failed files that still count, in their order.
pub open spec fn retained(lookups: Seq<RetryLookup>, max_retries: u8) -> Seq<FileInfo> {
    lookups.filter(|l: RetryLookup| within_budget(l, max_retries)).map_values(
        |l: RetryLookup| l.file,
    )
}

/// Where the next run resumes. `processed` is how the run over `files`
/// ended: with an error of its own, without any failed file, or with the
/// failed files and their retry counts.
pub open spec fn resumes_at(
    after_ts: i64,
    files: Seq<FileInfo>,
    processed: Result<Option<Vec<RetryLookup>>, DBError>,
    max_retries: u8,
    t: i64,
) -> bool {
    if files.len() == 0 {
        t == after_ts
    } else {
        match processed {
            Err(_) => t == after_ts,
            Ok(None) => is_latest(files, t),
            Ok(Some(lookups)) => {
                let remaining = retained(lookups@, max_retries);
                if remaining.len() == 0 {
                    is_latest(files, t)
                } else {
                    is_earliest(remaining, t)
                }
            },
        }
    }
}

/// What became of one report of a file.
#[derive(Debug)]
pub enum ReportResult {
    /// The bytes are no report.
    Undecodable,
    /// The report cannot be turned into documents.
    Invalid(DocumentError),
    /// Nobody heard the beacon: the report was dropped on purpose.
    Ignored,
    /// The documents of the report are written. The text is the
    /// identifier of its beacon.
    Written(String),
    /// The store failed on a write.
    StoreFailed(DBError),
}

/// What follows from the outcome of one report.
#[derive(Debug, Clone, Copy, PartialEq, Eq, Structural)]
pub enum ReportAction {
    /// Go on with the next report.
    Continue,
    /// Publish the identifier of the beacon, then go on.
    Notify,
    /// Give the file up for this run.
    Abort,
}

/// The outcome of the report ends the pass over its file: the store
/// failed, and not because a document was there already.
pub open spec fn aborts(result: ReportResult) -> bool {
    result matches ReportResult::StoreFailed(e) && e.spec_kind() != ErrorKind::Conflict
}

/// What follows from the outcome of one report, where `has_sink` says
/// whether identifiers of written beacons are published.
pub open spec fn spec_after_report(result: ReportResult, has_sink: bool) -> ReportAction {
    match result {
        ReportResult::Written(_) => if has_sink {
            ReportAction::Notify
        } else {
            ReportAction::Continue
        },
        ReportResult::StoreFailed(e) => if e.spec_kind() == ErrorKind::Conflict {
            ReportAction::Continue
        } else {
            ReportAction::Abort
        },
        _ => ReportAction::Continue,
    }
}

/// The identifiers of the beacons that were written, in their order.
pub open spec fn written_ids(results: Seq<ReportResult>) -> Seq<Seq<char>>
    decreases results.len(),
{
    if results.len() == 0 {
        Seq::empty()
    } else {
        match results.last() {
            ReportResult::Written(poc_id) => written_ids(results.drop_last()).push(poc_id@),
            _ => written_ids(results.drop_last()),
        }
    }
}

/// Decides what follows from the outcome of one report. A report that
/// cannot be decoded or built is passed over; only a failing store ends
/// the pass over the file.
pub fn after_report(result: &ReportResult, has_sink: bool) -> (r: ReportAction)
    ensures
        r == spec_after_report(*result, has_sink),
        r == ReportAction::Abort <==> aborts(*result),
{
    match result {
        ReportResult::Written(_) => {
            if has_sink {
                ReportAction::Notify
            } else {
                ReportAction::Continue
            }
        },
        ReportResult::StoreFailed(e) => {
            if e.kind() == ErrorKind::Conflict {
                ReportAction::Continue
            } else {
                ReportAction::Abort
            }
        },
        _ => ReportAction::Continue,
    }
}

proof fn lemma_filter_take_next<A>(s: Seq<A>, pred: spec_fn(A) -> bool, i: int)
    requires
        0 <= i < s.len(),
    ensures
        s.take(i + 1).filter(pred) == if pred(s[i]) {
            s.take(i).filter(pred).push(s[i])
        } else {
            s.take(i).filter(pred)
        },
{
    reveal(Seq::filter);
    assert(s.take(i + 1).drop_last() =~= s.take(i));
    assert(s.take(i + 1).last() == s[i]);
}

/// `file` is the file of a lookup that is within the budget.
pub open spec fn is_within_budget(lookups: Seq<RetryLookup>, max_retries: u8, file: FileInfo) -> bool {
    exists|j: int|
        0 <= j < lookups.len() && within_budget(#[trigger] lookups[j], max_retries)
            && lookups[j].file == file
}

/// Every failed file that still counts is the file of a lookup that is
/// within the budget.
pub proof fn lemma_retained_are_looked_up(lookups: Seq<RetryLookup>, max_retries: u8)
    ensures
        forall|i: int|
            0 <= i < retained(lookups, max_retries).len() ==> is_within_budget(
                lookups,
                max_retries,
                #[trigger] retained(lookups, max_retries)[i],
            ),
    decreases lookups.len(),
{
    reveal(Seq::filter);
    let pred = |l: RetryLookup| within_budget(l, max_retries);
    let kept = retained(lookups, max_retries);
    if lookups.len() > 0 {
        let init = lookups.drop_last();
        let rest = retained(init, max_retries);
        lemma_retained_are_looked_up(init, max_retries);
        if pred(lookups.last()) {
            assert(lookups.filter(pred) == init.filter(pred).push(lookups.last()));
            assert(kept =~= rest.push(lookups.last().file));
        } else {
            assert(lookups.filter(pred) == init.filter(pred));
            assert(kept == rest);
        }
        assert forall|i: int| 0 <= i < kept.len() implies is_within_budget(
            lookups,
            max_retries,
            #[trigger] kept[i],
        ) by {
            if i < rest.len() {
                assert(kept[i] == rest[i]);
                assert(is_within_budget(init, max_retries, rest[i]));
                let j = choose|j: int|
                    0 <= j < init.len() && within_budget(#[trigger] init[j], max_retries)
                        && init[j].file == rest[i];
                assert(lookups[j] == init[j]);
            } else {
                let j = lookups.len() - 1;
                assert(within_budget(lookups[j], max_retries));
                assert(lookups[j].file == kept[i]);
            }
        }
    } else {
        assert(kept =~= Seq::<FileInfo>::empty());
    }
}

/// Where the run did not break off and every failed file is one of the
/// files of the window, the next run resumes at the timestamp of one of
/// those files.
pub proof fn lemma_resumes_at_a_listed_file(
    after_ts: i64,
    files: Seq<FileInfo>,
    processed: Result<Option<Vec<RetryLookup>>, DBError>,
    max_retries: u8,
    t: i64,
)
    requires
        resumes_at(after_ts, files, processed, max_retries, t),
        files.len() > 0,
        processed is Ok,
        processed matches Ok(Some(lookups)) ==> forall|i: int|
            0 <= i < lookups@.len() ==> files.contains((#[trigger] lookups@[i]).file),
    ensures
        exists|j: int| 0 <= j < files.len() && (#[trigger] files[j]).timestamp == t,
{
    match processed {
        Ok(Some(lookups)) => {
            let remaining = retained(lookups@, max_retries);
            if remaining.len() > 0 {
                lemma_retained_are_looked_up(lookups@, max_retries);
                let i = choose|i: int|
                    0 <= i < remaining.len() && (#[trigger] remaining[i]).timestamp == t;
                assert(is_within_budget(lookups@, max_retries, remaining[i]));
                let k = choose|k: int|
                    0 <= k < lookups@.len() && within_budget(#[trigger] lookups@[k], max_retries)
                        && lookups@[k].file == remaining[i];
                assert(files.contains(lookups@[k].file));
                let j = choose|j: int| 0 <= j < files.len() && files[j] == lookups@[k].file;
                assert(files[j].timestamp == t);
            }
        },
        _ => {},
    }
}

/// A failed file that has used up its retries, or whose retry count is
/// not known, does not bear on where the next run resumes: the failed
/// files that still count are the same without it.
pub proof fn lemma_exhausted_file_is_left_out(lookups: Seq<RetryLookup>, i: int, max_retries: u8)
    requires
        0 <= i < lookups.len(),
        !within_budget(lookups[i], max_retries),
    ensures
        retained(lookups, max_retries) == retained(lookups.remove(i), max_retries),
{
    let pred = |l: RetryLookup| within_budget(l, max_retries);
    let head = lookups.take(i);
    let tail = lookups.skip(i + 1);
    assert(lookups =~= head + seq![lookups[i]] + tail);
    assert(lookups.remove(i) =~= head + tail);
    Seq::filter_distributes_over_add(head, seq![lookups[i]], pred);
    Seq::filter_distributes_over_add(head + seq![lookups[i]], tail, pred);
    Seq::filter_distributes_over_add(head, tail, pred);
    assert(seq![lookups[i]].filter(pred) =~= Seq::<RetryLookup>::empty()) by {
        reveal_with_fuel(Seq::filter, 2);
        let single = seq![lookups[i]];
        assert(single.last() == lookups[i]);
        assert(!pred(single.last()));
        assert(single.drop_last() =~= Seq::<RetryLookup>::empty());
        assert(single.drop_last().filter(pred) =~= Seq::<RetryLookup>::empty());
    }
    assert(head.filter(pred) + Seq::<RetryLookup>::empty() =~= head.filter(pred));
}

/// The limits under which files are processed.
#[derive(Debug, Clone, Copy)]
pub struct ArangodbHandler {
    /// How many reports of one file are taken at a time.
    pub file_chunk_size: usize,
    /// How many files may be open at once.
    pub max_concurrent_files: usize,
    /// How many tasks may run at once.
    pub max_processing_capacity: usize,
    /// How often a file may fail before it no longer holds back the
    /// resumption time.
    pub max_retries: u8,
}

impl ArangodbHandler {
    /// Takes the limits from the settings.
    pub fn new(settings: &Settings) -> (r: Self)
        ensures
            r.file_chunk_size == settings.file_chunk_size,
            r.max_concurrent_files == settings.max_concurrent_files,
            r.max_processing_capacity == settings.max_processing_capacity,
            r.max_retries == settings.max_retries,
    {
        ArangodbHandler {
            file_chunk_size: settings.file_chunk_size,
            max_concurrent_files: settings.max_concurrent_files,
            max_processing_capacity: settings.max_processing_capacity,
            max_retries: settings.max_retries,
        }
    }

    /// How many files may be open at once: the smaller of the number of
    /// files allowed and the number of tasks allowed, where no files
    /// allowed stands for no bound of its own.
    pub fn file_limit(&self) -> (r: usize)
        ensures
            r == if self.max_concurrent_files == 0 || self.max_processing_capacity
                <= self.max_concurrent_files {
                self.max_processing_capacity
            } else {
                self.max_concurrent_files
            },
    {
        if self.max_concurrent_files == 0 || self.max_processing_capacity
            <= self.max_concurrent_files {
            self.max_processing_capacity
        } else {
            self.max_concurrent_files
        }
    }

    /// How many reports of a file are taken at a time: the configured
    /// number, and one where none is configured.
    pub fn chunk_size(&self) -> (r: usize)
        ensures
            r >= 1,
            r == if self.file_chunk_size == 0 {
                1
            } else {
                self.file_chunk_size
            },
    {
        if self.file_chunk_size == 0 {
            1
        } else {
            self.file_chunk_size
        }
    }

    /// How many reports of a file may be in flight at once: the number of
    /// tasks allowed, and one where none is allowed.
    pub fn reports_in_flight(&self) -> (r: usize)
        ensures
            r >= 1,
            r == if self.max_processing_capacity == 0 {
                1
            } else {
                self.max_processing_capacity
            },
    {
        if self.max_processing_capacity == 0 {
            1
        } else {
            self.max_processing_capacity
        }
    }

    /// The latest timestamp among the files, if there is any file.
    pub fn get_max_ts(&self, file_infos: &Vec<FileInfo>) -> (r: Option<i64>)
        ensures
            r is None <==> file_infos.len() == 0,
            r matches Some(t) ==> is_latest(file_infos@, t),
    {
        if file_infos.len() == 0 {
            return None;
        }
        let mut best: i64 = file_infos[0].timestamp;
        let mut i: usize = 1;
        while i < file_infos.len()
            invariant
                1 <= i <= file_infos.len(),
                exists|j: int| 0 <= j < i && (#[trigger] file_infos@[j]).timestamp == best,
                forall|j: int| 0 <= j < i ==> (#[trigger] file_infos@[j]).timestamp <= best,
            decreases file_infos.len() - i,
        {
            if file_infos[i].timestamp >= best {
                best = file_infos[i].timestamp;
            }
            i += 1;
        }
        Some(best)
    }

    /// The earliest timestamp among the files, if there is any file.
    pub fn get_min_ts(&self, file_infos: &Vec<FileInfo>) -> (r: Option<i64>)
        ensures
            r is None <==> file_infos.len() == 0,
            r matches Some(t) ==> is_earliest(file_infos@, t),
    {
        if file_infos.len() == 0 {
            return None;
        }
        let mut best: i64 = file_infos[0].timestamp;
        let mut i: usize = 1;
        while i < file_infos.len()
            invariant
                1 <= i <= file_infos.len(),
                exists|j: int| 0 <= j < i && (#[trigger] file_infos@[j]).timestamp == best,
                forall|j: int| 0 <= j < i ==> (#[trigger] file_infos@[j]).timestamp >= best,
            decreases file_infos.len() - i,
        {
            if file_infos[i].timestamp < best {
                best = file_infos[i].timestamp;
            }
            i += 1;
        }
        Some(best)
    }

    /// Takes the files that are done already out of the list. `done` is
    /// what the store answered when asked for the keys of the done files;
    /// if it could not answer, every file stays.
    pub fn exclude_done_files(
        &self,
        file_infos: &mut Vec<FileInfo>,
        done: &Result<Vec<String>, DBError>,
    )
        ensures
            final(file_infos)@ == match *done {
                Ok(keys) => not_done(old(file_infos)@, keys@),
                Err(_) => old(file_infos)@,
            },
    {
        match done {
            Ok(keys) => {
                let mut kept: Vec<FileInfo> = Vec::new();
                let mut i: usize = 0;
                let ghost pred = |f: FileInfo| !key_listed(keys@, f.key@);
                proof {
                    reveal(Seq::filter);
                    assert(file_infos@.take(0) =~= Seq::<FileInfo>::empty());
                }
                while i < file_infos.len()
                    invariant
                        i <= file_infos.len(),
                        *file_infos == *old(file_infos),
                        pred == (|f: FileInfo| !key_listed(keys@, f.key@)),
                        kept@ == file_infos@.take(i as int).filter(pred),
                    decreases file_infos.len() - i,
                {
                    proof {
                        lemma_filter_take_next(file_infos@, pred, i as int);
                    }
                    if !contains_key(keys, &file_infos[i].key) {
                        kept.push(file_infos[i].clone());
                    }
                    i += 1;
                }
                assert(file_infos@.take(i as int) =~= file_infos@);
                *file_infos = kept;
            },
            Err(_) => {},
        }
    }

    /// Drops the failed files that have used up their retries, and those
    /// whose retry count the store could not tell.
    pub fn filter_retry_exceeded_failed_files(&self, failed_files: &Vec<RetryLookup>) -> (r: Vec<
        FileInfo,
    >)
        ensures
            r@ == retained(failed_files@, self.max_retries),
    {
        let mut kept: Vec<FileInfo> = Vec::new();
        let mut i: usize = 0;
        let ghost pred = |l: RetryLookup| within_budget(l, self.max_retries);
        let ghost file_of = |l: RetryLookup| l.file;
        proof {
            reveal(Seq::filter);
            assert(failed_files@.take(0) =~= Seq::<RetryLookup>::empty());
            assert(failed_files@.take(0).filter(pred).map_values(file_of) =~= Seq::<
                FileInfo,
            >::empty());
        }
        while i < failed_files.len()
            invariant
                i <= failed_files.len(),
                pred == (|l: RetryLookup| within_budget(l, self.max_retries)),
                file_of == (|l: RetryLookup| l.file),
                kept@ == failed_files@.take(i as int).filter(pred).map_values(file_of),
            decreases failed_files.len() - i,
        {
            proof {
                lemma_filter_take_next(failed_files@, pred, i as int);
            }
            let ghost before = failed_files@.take(i as int).filter(pred);
            let within = match failed_files[i].retries {
                Ok(n) => n <= self.max_retries,
                Err(_) => false,
            };
            if within {
                kept.push(failed_files[i].file.clone());
                assert(before.push(failed_files@[i as int]).map_values(file_of)
                    =~= before.map_values(file_of).push(failed_files@[i as int].file));
            }
            i += 1;
        }
        assert(failed_files@.take(i as int) =~= failed_files@);
        kept
    }

    /// Sums up a run over the files of a window. `finished` says whether
    /// every file reached its end, and `failed` lists the failed files
    /// with their retry counts. A run that was cut short counts as broken
    /// off; one without failed files as clean.
    pub fn process_files(&self, finished: bool, failed: Vec<RetryLookup>) -> (r: Result<
        Option<Vec<RetryLookup>>,
        DBError,
    >)
        ensures
            match r {
                Err(e) => !finished && e is Other,
                Ok(None) => finished && failed.len() == 0,
                Ok(Some(lookups)) => finished && failed.len() > 0 && lookups == failed,
            },
    {
        if !finished {
            Err(DBError::Other)
        } else if failed.len() == 0 {
            Ok(None)
        } else {
            Ok(Some(failed))
        }
    }

    /// Sums up the pass over one file from the outcomes of its reports:
    /// the pass failed if and only if the store failed on one of them.
    pub fn process_file(&self, results: &Vec<ReportResult>) -> (r: FileEvent)
        ensures
            r == if exists|i: int| 0 <= i < results.len() && aborts(#[trigger] results@[i]) {
                FileEvent::ReportsFailed
            } else {
                FileEvent::ReportsApplied
            },
    {
        let mut i: usize = 0;
        while i < results.len()
            invariant
                i <= results.len(),
                forall|j: int| 0 <= j < i ==> !aborts(#[trigger] results@[j]),
            decreases results.len() - i,
        {
            if after_report(&results[i], false) == ReportAction::Abort {
                return FileEvent::ReportsFailed;
            }
            i += 1;
        }
        FileEvent::ReportsApplied
    }

    /// The identifiers to publish after a pass over one file: those of the
    /// beacons that were written, in their order.
    pub fn completed_poc_ids(&self, results: &Vec<ReportResult>) -> (r: Vec<String>)
        ensures
            texts(r@) == written_ids(results@),
    {
        let mut ids: Vec<String> = Vec::new();
        let mut i: usize = 0;
        assert(results@.take(0) =~= Seq::<ReportResult>::empty());
        assert(texts(ids@) =~= Seq::<Seq<char>>::empty());
        while i < results.len()
            invariant
                i <= results.len(),
                texts(ids@) == written_ids(results@.take(i as int)),
            decreases results.len() - i,
        {
            let ghost before = texts(ids@);
            proof {
                assert(results@.take(i + 1).drop_last() =~= results@.take(i as int));
                assert(results@.take(i + 1).last() == results@[i as int]);
            }
            match &results[i] {
                ReportResult::Written(poc_id) => {
                    ids.push(poc_id.clone());
                    assert(texts(ids@) =~= before.push(poc_id@));
                },
                _ => {},
            }
            i += 1;
        }
        assert(results@.take(i as int) =~= results@);
        ids
    }

    /// Computes the time from which the next run resumes.
    ///
    /// `file_infos` are the files of the window that were not done yet, and
    /// `processed` is how the run over them ended. With no such file, and
    /// after a run that broke off with an error of its own, the window
    /// stays where it was. After a run without failures the next one starts
    /// at the latest file. Otherwise it starts at the earliest failed file
    /// that is still within its retry budget, or at the latest file if none
    /// is.
    pub fn process(
        &self,
        after_ts: i64,
        file_infos: &Vec<FileInfo>,
        processed: &Result<Option<Vec<RetryLookup>>, DBError>,
    ) -> (r: i64)
        ensures
            resumes_at(after_ts, file_infos@, *processed, self.max_retries, r),
    {
        let max_ts = match self.get_max_ts(file_infos) {
            Some(t) => t,
            None => {
                return after_ts;
            },
        };
        match processed {
            Err(_) => after_ts,
            Ok(None) => max_ts,
            Ok(Some(lookups)) => {
                let remaining = self.filter_retry_exceeded_failed_files(lookups);
                match self.get_min_ts(&remaining) {
                    Some(t) => t,
                    None => max_ts,
                }
            },
        }
    }
}

} // verus!
