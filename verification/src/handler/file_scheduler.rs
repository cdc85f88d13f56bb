//! Admission of files under a bound, and the life of each file in a run.
//!
//! A file waits (`Pending`) until the scheduler admits it. From then on it
//! is open: first while its reports are applied (`Initialized`), then while
//! the store is asked to mark it done (`Applied`). It ends as `Completed`
//! or as `Failed`. The scheduler never has more files open than its limit.
//! Once it is closed it lets no further file in, while the open ones run
//! to their end.

use crate::document::iot_poc_file::FileInfo;
use vstd::prelude::*;

verus! {

/// Where a file stands in a run.
#[derive(Debug, Clone, Copy, PartialEq, Eq, Structural)]
pub enum FileState {
    /// Selected, not admitted yet.
    Pending,
    /// Admitted: its record is written and its reports are being applied.
    Initialized,
    /// Every report is applied; the mark that it is done is outstanding.
    Applied,
    /// Marked done. Final.
    Completed,
    /// A pass over the file failed. Final for this run.
    Failed,
}

/// What the caller reports of an open file.
#[derive(Debug, Clone, Copy, PartialEq, Eq, Structural)]
pub enum FileEvent {
    /// Every report of the file was applied.
    ReportsApplied,
    /// The file could not be initialised or read, or a write failed.
    ReportsFailed,
    /// The store marked the file done.
    MarkedDone,
    /// The store could not mark the file done.
    MarkDoneFailed,
}

/// What the caller is to do next with a file.
#[derive(Debug, Clone, Copy, PartialEq, Eq, Structural)]
pub enum FileAction {
    /// Ask the store to mark the file done.
    MarkDone,
    /// Ask the store to count one more failed pass.
    IncrementRetry,
    /// Nothing is left to do.
    Nothing,
}

/// The file holds one of the places that the limit counts.
pub open spec fn is_open(state: FileState) -> bool {
    state == FileState::Initialized || state == FileState::Applied
}

/// The file will not change any more in this run.
pub open spec fn is_final(state: FileState) -> bool {
    state == FileState::Completed || state == FileState::Failed
}

/// The state that follows an event and the action that it calls for, or
/// `None` where the event does not fit the state.
pub open spec fn spec_step(state: FileState, event: FileEvent) -> Option<(FileState, FileAction)> {
    match (state, event) {
        (FileState::Initialized, FileEvent::ReportsApplied) => Some(
            (FileState::Applied, FileAction::MarkDone),
        ),
        (FileState::Initialized, FileEvent::ReportsFailed) => Some(
            (FileState::Failed, FileAction::IncrementRetry),
        ),
        (FileState::Applied, FileEvent::MarkedDone) => Some(
            (FileState::Completed, FileAction::Nothing),
        ),
        (FileState::Applied, FileEvent::MarkDoneFailed) => Some(
            (FileState::Failed, FileAction::IncrementRetry),
        ),
        _ => None,
    }
}

/// Computes the state that follows an event and the action that it calls
/// for.
pub fn step(state: FileState, event: FileEvent) -> (r: Option<(FileState, FileAction)>)
    ensures
        r == spec_step(state, event),
        r matches Some((next, _)) ==> is_open(state) && (is_open(next) || is_final(next)),
{
    match state {
        FileState::Initialized => match event {
            FileEvent::ReportsApplied => Some((FileState::Applied, FileAction::MarkDone)),
            FileEvent::ReportsFailed => Some((FileState::Failed, FileAction::IncrementRetry)),
            _ => None,
        },
        FileState::Applied => match event {
            FileEvent::MarkedDone => Some((FileState::Completed, FileAction::Nothing)),
            FileEvent::MarkDoneFailed => Some((FileState::Failed, FileAction::IncrementRetry)),
            _ => None,
        },
        _ => None,
    }
}

/// How many of the files are open.
pub open spec fn open_count(states: Seq<FileState>) -> nat
    decreases states.len(),
{
    if states.len() == 0 {
        0
    } else {
        open_count(states.drop_last()) + if is_open(states.last()) {
            1nat
        } else {
            0nat
        }
    }
}

/// The files whose state is `Failed`, in their order.
pub open spec fn failed_of(files: Seq<FileInfo>, states: Seq<FileState>) -> Seq<FileInfo>
    decreases files.len(),
{
    if files.len() == 0 || states.len() != files.len() {
        Seq::empty()
    } else {
        let rest = failed_of(files.drop_last(), states.drop_last());
        if states.last() == FileState::Failed {
            rest.push(files.last())
        } else {
            rest
        }
    }
}

/// `file` is one of the files, and its state is `Failed`.
pub open spec fn is_failed_file(files: Seq<FileInfo>, states: Seq<FileState>, file: FileInfo) -> bool {
    exists|j: int|
        0 <= j < files.len() && j < states.len() && #[trigger] files[j] == file && states[j]
            == FileState::Failed
}

/// Every failed file is one of the files of the run, and its state is
/// `Failed`.
pub proof fn lemma_failed_are_listed(files: Seq<FileInfo>, states: Seq<FileState>)
    ensures
        forall|i: int|
            0 <= i < failed_of(files, states).len() ==> is_failed_file(
                files,
                states,
                #[trigger] failed_of(files, states)[i],
            ),
        forall|f: FileInfo| #[trigger]
            failed_of(files, states).contains(f) ==> files.contains(f),
        failed_of(files, states).len() <= files.len(),
    decreases files.len(),
{
    let failed = failed_of(files, states);
    if files.len() > 0 && states.len() == files.len() {
        let init_files = files.drop_last();
        let init_states = states.drop_last();
        let rest = failed_of(init_files, init_states);
        lemma_failed_are_listed(init_files, init_states);
        assert forall|i: int| 0 <= i < failed.len() implies is_failed_file(
            files,
            states,
            #[trigger] failed[i],
        ) by {
            if i < rest.len() {
                assert(failed[i] == rest[i]);
                assert(is_failed_file(init_files, init_states, rest[i]));
                let j = choose|j: int|
                    0 <= j < init_files.len() && j < init_states.len() && #[trigger] init_files[j]
                        == rest[i] && init_states[j] == FileState::Failed;
                assert(files[j] == init_files[j]);
                assert(states[j] == init_states[j]);
            } else {
                let j = files.len() - 1;
                assert(files[j] == failed[i]);
                assert(states[j] == FileState::Failed);
            }
        }
    }
    assert forall|f: FileInfo| #[trigger] failed.contains(f) implies files.contains(f) by {
        let i = choose|i: int| 0 <= i < failed.len() && failed[i] == f;
        assert(is_failed_file(files, states, failed[i]));
        let j = choose|j: int|
            0 <= j < files.len() && j < states.len() && #[trigger] files[j] == failed[i]
                && states[j] == FileState::Failed;
        assert(files[j] == f);
    }
}

proof fn lemma_open_count_update(states: Seq<FileState>, i: int, next: FileState)
    requires
        0 <= i < states.len(),
    ensures
        open_count(states.update(i, next)) + (if is_open(states[i]) {
            1nat
        } else {
            0nat
        }) == open_count(states) + (if is_open(next) {
            1nat
        } else {
            0nat
        }),
    decreases states.len(),
{
    let updated = states.update(i, next);
    if i == states.len() - 1 {
        assert(updated.drop_last() =~= states.drop_last());
    } else {
        lemma_open_count_update(states.drop_last(), i, next);
        assert(updated.drop_last() =~= states.drop_last().update(i, next));
    }
}

proof fn lemma_open_count_zero(states: Seq<FileState>)
    requires
        open_count(states) == 0,
    ensures
        forall|i: int| 0 <= i < states.len() ==> !is_open(#[trigger] states[i]),
    decreases states.len(),
{
    if states.len() > 0 {
        lemma_open_count_zero(states.drop_last());
        assert forall|i: int| 0 <= i < states.len() implies !is_open(#[trigger] states[i]) by {
            if i < states.len() - 1 {
                assert(states[i] == states.drop_last()[i]);
            }
        }
    }
}

proof fn lemma_open_count_none_open(states: Seq<FileState>)
    requires
        forall|i: int| 0 <= i < states.len() ==> !is_open(#[trigger] states[i]),
    ensures
        open_count(states) == 0,
    decreases states.len(),
{
    if states.len() > 0 {
        assert forall|i: int| 0 <= i < states.drop_last().len() implies !is_open(
            #[trigger] states.drop_last()[i],
        ) by {
            assert(states.drop_last()[i] == states[i]);
        }
        lemma_open_count_none_open(states.drop_last());
    }
}

/// A counting gate: at most `limit` places are held at any time.
#[derive(Debug)]
pub struct AdmissionGate {
    limit: usize,
    held: usize,
}

impl AdmissionGate {
    /// How many places there are.
    pub closed spec fn limit(&self) -> nat {
        self.limit as nat
    }

    /// How many places are held.
    pub closed spec fn held(&self) -> nat {
        self.held as nat
    }

    /// No more places are held than there are.
    pub open spec fn wf(&self) -> bool {
        self.held() <= self.limit()
    }

    /// A gate with `limit` places, none of them held.
    pub fn new(limit: usize) -> (r: Self)
        ensures
            r.wf(),
            r.limit() == limit,
            r.held() == 0,
    {
        AdmissionGate { limit, held: 0 }
    }

    /// The number of places.
    pub fn capacity(&self) -> (r: usize)
        ensures
            r == self.limit(),
    {
        self.limit
    }

    /// The number of places held.
    pub fn in_flight(&self) -> (r: usize)
        ensures
            r == self.held(),
    {
        self.held
    }

    /// Takes a place if one is free, and says whether it did.
    pub fn try_acquire(&mut self) -> (r: bool)
        requires
            old(self).wf(),
        ensures
            final(self).wf(),
            final(self).limit() == old(self).limit(),
            r == (old(self).held() < old(self).limit()),
            final(self).held() == old(self).held() + if r {
                1nat
            } else {
                0nat
            },
    {
        if self.held < self.limit {
            self.held = self.held + 1;
            true
        } else {
            false
        }
    }

    /// Gives a place back, and says whether one was held.
    pub fn release(&mut self) -> (r: bool)
        requires
            old(self).wf(),
        ensures
            final(self).wf(),
            final(self).limit() == old(self).limit(),
            r == (old(self).held() > 0),
            final(self).held() == old(self).held() - if r {
                1nat
            } else {
                0nat
            },
    {
        if self.held > 0 {
            self.held = self.held - 1;
            true
        } else {
            false
        }
    }
}

/// The files of one run, the state of each, and the bound on how many are
/// open.
#[derive(Debug)]
pub struct FileScheduler {
    files: Vec<FileInfo>,
    states: Vec<FileState>,
    gate: AdmissionGate,
    cursor: usize,
    closed: bool,
}

impl FileScheduler {
    /// The files of the run.
    pub closed spec fn files(&self) -> Seq<FileInfo> {
        self.files@
    }

    /// The state of each file.
    pub closed spec fn states(&self) -> Seq<FileState> {
        self.states@
    }

    /// How many files may be open at once.
    pub closed spec fn limit(&self) -> nat {
        self.gate.limit()
    }

    /// The index of the file that is admitted next.
    pub closed spec fn cursor(&self) -> nat {
        self.cursor as nat
    }

    /// Whether the scheduler has been closed: it lets no further file in.
    pub closed spec fn is_closed(&self) -> bool {
        self.closed
    }

    /// How many files are open.
    pub open spec fn open_files(&self) -> nat {
        open_count(self.states())
    }

    spec fn consistent(&self) -> bool {
        &&& self.gate.wf()
        &&& self.gate.held() == open_count(self.states@)
    }

    /// Each file has a state, no more files are open than the limit allows,
    /// and the files that wait are those from the cursor on.
    pub closed spec fn wf(&self) -> bool {
        &&& self.consistent()
        &&& self.states().len() == self.files().len()
        &&& self.open_files() <= self.limit()
        &&& self.cursor() <= self.states().len()
        &&& forall|i: int|
            0 <= i < self.states().len() ==> ((#[trigger] self.states()[i]) == FileState::Pending
                <==> i >= self.cursor())
    }

    /// What well-formedness says, for callers.
    pub proof fn lemma_wf(&self)
        requires
            self.wf(),
        ensures
            self.states().len() == self.files().len(),
            self.open_files() <= self.limit(),
            self.cursor() <= self.states().len(),
            forall|i: int|
                0 <= i < self.states().len() ==> ((#[trigger] self.states()[i])
                    == FileState::Pending <==> i >= self.cursor()),
    {
    }

    /// A run that is not over and has no file open still has a file
    /// waiting: if it is not closed and its limit is not zero, the next
    /// call of `open_next` lets one in.
    pub proof fn lemma_can_go_on(&self)
        requires
            self.wf(),
            self.open_files() == 0,
            exists|i: int| 0 <= i < self.states().len() && !is_final(#[trigger] self.states()[i]),
        ensures
            self.cursor() < self.states().len(),
    {
        let i = choose|i: int| 0 <= i < self.states().len() && !is_final(#[trigger] self.states()[i]);
        lemma_open_count_zero(self.states@);
        assert(self.states()[i] == FileState::Pending);
    }

    /// A run over `files` in which at most `limit` files are open at once.
    /// Every file starts out pending.
    pub fn new(files: Vec<FileInfo>, limit: usize) -> (r: Self)
        ensures
            r.wf(),
            r.files() == files@,
            r.limit() == limit,
            r.cursor() == 0,
            !r.is_closed(),
            r.states().len() == files.len(),
            forall|i: int| 0 <= i < files.len() ==> r.states()[i] == FileState::Pending,
            r.open_files() == 0,
    {
        let mut states: Vec<FileState> = Vec::new();
        let mut i: usize = 0;
        while i < files.len()
            invariant
                i <= files.len(),
                states.len() == i,
                forall|j: int| 0 <= j < i ==> states@[j] == FileState::Pending,
            decreases files.len() - i,
        {
            states.push(FileState::Pending);
            i += 1;
        }
        proof {
            lemma_open_count_none_open(states@);
        }
        FileScheduler { files, states, gate: AdmissionGate::new(limit), cursor: 0, closed: false }
    }

    /// The number of files of the run.
    pub fn len(&self) -> (r: usize)
        ensures
            r == self.files().len(),
    {
        self.files.len()
    }

    /// The file at `index`, if there is one.
    pub fn file(&self, index: usize) -> (r: Option<&FileInfo>)
        ensures
            index < self.files().len() ==> r == Some(&self.files()[index as int]),
            index >= self.files().len() ==> r is None,
    {
        if index < self.files.len() {
            Some(&self.files[index])
        } else {
            None
        }
    }

    /// The state of the file at `index`, if there is one.
    pub fn state(&self, index: usize) -> (r: Option<FileState>)
        ensures
            index < self.states().len() ==> r == Some(self.states()[index as int]),
            index >= self.states().len() ==> r is None,
    {
        if index < self.states.len() {
            Some(self.states[index])
        } else {
            None
        }
    }

    /// The number of files that are open now.
    pub fn open(&self) -> (r: usize)
        requires
            self.wf(),
        ensures
            r == self.open_files(),
            r <= self.limit(),
    {
        self.gate.in_flight()
    }

    /// Closes the scheduler: from now on it lets no file in. The files that
    /// are open stay open until the caller reports their end.
    pub fn close(&mut self)
        requires
            old(self).wf(),
        ensures
            final(self).wf(),
            final(self).is_closed(),
            final(self).files() == old(self).files(),
            final(self).states() == old(self).states(),
            final(self).limit() == old(self).limit(),
            final(self).cursor() == old(self).cursor(),
    {
        self.closed = true;
    }

    /// Whether no file is open.
    pub fn is_idle(&self) -> (r: bool)
        requires
            self.wf(),
        ensures
            r == (self.open_files() == 0),
    {
        self.gate.in_flight() == 0
    }

    /// Admits the next waiting file if the scheduler is not closed and the
    /// limit allows one more, and answers with its index. The caller then
    /// writes the file's record and applies its reports.
    pub fn open_next(&mut self) -> (r: Option<usize>)
        requires
            old(self).wf(),
        ensures
            final(self).wf(),
            final(self).files() == old(self).files(),
            final(self).limit() == old(self).limit(),
            final(self).open_files() <= final(self).limit(),
            final(self).is_closed() == old(self).is_closed(),
            r is Some <==> !old(self).is_closed() && old(self).open_files() < old(self).limit()
                && old(self).cursor() < old(self).states().len(),
            match r {
                Some(i) => {
                    &&& i == old(self).cursor()
                    &&& old(self).states()[i as int] == FileState::Pending
                    &&& final(self).states() == old(self).states().update(
                        i as int,
                        FileState::Initialized,
                    )
                    &&& final(self).cursor() == old(self).cursor() + 1
                    &&& final(self).open_files() == old(self).open_files() + 1
                },
                None => {
                    &&& final(self).states() == old(self).states()
                    &&& final(self).cursor() == old(self).cursor()
                },
            },
    {
        if self.closed || self.cursor >= self.states.len() {
            return None;
        }
        if !self.gate.try_acquire() {
            return None;
        }
        let index = self.cursor;
        proof {
            lemma_open_count_update(self.states@, index as int, FileState::Initialized);
        }
        self.states.set(index, FileState::Initialized);
        self.cursor = index + 1;
        Some(index)
    }

    /// Takes note of what happened to the open file at `index` and answers
    /// with what is to be done next. An event that does not fit the file's
    /// state, or an index without a file, changes nothing and is answered
    /// with `None`.
    pub fn handle(&mut self, index: usize, event: FileEvent) -> (r: Option<FileAction>)
        requires
            old(self).wf(),
        ensures
            final(self).wf(),
            final(self).files() == old(self).files(),
            final(self).limit() == old(self).limit(),
            final(self).cursor() == old(self).cursor(),
            final(self).is_closed() == old(self).is_closed(),
            final(self).open_files() <= final(self).limit(),
            match (if index < old(self).states().len() {
                spec_step(old(self).states()[index as int], event)
            } else {
                None
            }) {
                Some((next, action)) => {
                    &&& r == Some(action)
                    &&& final(self).states() == old(self).states().update(index as int, next)
                },
                None => {
                    &&& r is None
                    &&& final(self).states() == old(self).states()
                },
            },
    {
        if index >= self.states.len() {
            return None;
        }
        match step(self.states[index], event) {
            Some((next, action)) => {
                proof {
                    lemma_open_count_update(self.states@, index as int, next);
                }
                if !is_open_state(next) {
                    let released = self.gate.release();
                    assert(released);
                }
                self.states.set(index, next);
                Some(action)
            },
            None => None,
        }
    }

    /// Whether every file has reached its final state.
    pub fn is_finished(&self) -> (r: bool)
        requires
            self.wf(),
        ensures
            r == (forall|i: int|
                0 <= i < self.states().len() ==> is_final(#[trigger] self.states()[i])),
    {
        let done = self.cursor >= self.states.len() && self.gate.in_flight() == 0;
        proof {
            if done {
                lemma_open_count_zero(self.states@);
            } else if self.cursor < self.states.len() {
                assert(self.states()[self.cursor as int] == FileState::Pending);
            } else {
                if forall|i: int|
                    0 <= i < self.states().len() ==> is_final(#[trigger] self.states()[i]) {
                    lemma_open_count_none_open(self.states@);
                }
            }
        }
        done
    }

    /// The files that failed in this run, in their order.
    pub fn failed_files(&self) -> (r: Vec<FileInfo>)
        requires
            self.wf(),
        ensures
            r@ == failed_of(self.files(), self.states()),
            forall|f: FileInfo| #[trigger] r@.contains(f) ==> self.files().contains(f),
    {
        proof {
            lemma_failed_are_listed(self.files@, self.states@);
        }
        let mut failed: Vec<FileInfo> = Vec::new();
        let mut i: usize = 0;
        while i < self.files.len()
            invariant
                i <= self.files.len(),
                self.files.len() == self.states.len(),
                failed@ == failed_of(self.files@.take(i as int), self.states@.take(i as int)),
            decreases self.files.len() - i,
        {
            proof {
                assert(self.files@.take(i + 1).drop_last() =~= self.files@.take(i as int));
                assert(self.states@.take(i + 1).drop_last() =~= self.states@.take(i as int));
            }
            if self.states[i] == FileState::Failed {
                failed.push(self.files[i].clone());
            }
            i += 1;
        }
        proof {
            assert(self.files@.take(i as int) =~= self.files@);
            assert(self.states@.take(i as int) =~= self.states@);
        }
        failed
    }
}

fn is_open_state(state: FileState) -> (r: bool)
    ensures
        r == is_open(state),
{
    match state {
        FileState::Initialized => true,
        FileState::Applied => true,
        _ => false,
    }
}

} // verus!
