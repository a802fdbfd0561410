//! Exclusive lock files.
//!
//! A lock is taken by creating (or opening) the lock file, placing an
//! exclusive `flock` on it and checking with `fstat` that the file is still
//! linked into the file system. A file that was unlinked by the previous
//! holder, or whose handle went stale, is not a valid lock: the attempt is
//! then started over with a fresh file.
//!
//! The file-system calls themselves are made by the caller. This module holds
//! the decisions between them as a state machine: [`LockAcquisition`] tells
//! the caller which call to make next ([`LockAction`]) and is fed the outcome
//! of that call ([`LockEvent`]).

use vstd::prelude::*;

verus! {

/// Makes std's `PathBuf` known to the verifier as an opaque type, so that a
/// lock error can carry the path of its lock file. Nothing is claimed of it.
#[verifier::external_type_specification]
#[verifier::external_body]
pub struct ExPathBuf(std::path::PathBuf);

/// Makes std's `io::Error` known to the verifier as an opaque type, so that a
/// lock error can carry the error of the failed call. Nothing is claimed of it.
#[verifier::external_type_specification]
#[verifier::external_body]
pub struct ExIoError(std::io::Error);

/// The error of a failed lock acquisition: what failed, on which lock file,
/// and the underlying I/O error.
#[derive(Debug)]
pub struct FileLockError {
    pub message: &'static str,
    pub path: std::path::PathBuf,
    pub err: std::io::Error,
}

/// The file-system call that failed during a lock acquisition.
#[derive(Clone, Copy, Debug, PartialEq, Eq, Structural)]
pub enum FileLockFailure {
    /// Creating or opening the lock file failed.
    Open,
    /// Placing the `flock` failed for a reason other than contention.
    Lock,
    /// Checking the locked file with `fstat` failed for a reason other than a
    /// stale handle.
    Stat,
}

impl FileLockFailure {
    /// The text of `message`.
    pub open spec fn spec_message(self) -> Seq<char> {
        match self {
            FileLockFailure::Open => "Failed to open lock file"@,
            FileLockFailure::Lock => "Failed to lock lock file"@,
            FileLockFailure::Stat => "failed to stat lock file"@,
        }
    }

    /// The message that a [`FileLockError`] carries for this failure.
    pub fn message(&self) -> (m: &'static str)
        ensures
            m@ == self.spec_message(),
    {
        match self {
            FileLockFailure::Open => "Failed to open lock file",
            FileLockFailure::Lock => "Failed to lock lock file",
            FileLockFailure::Stat => "failed to stat lock file",
        }
    }
}

/// The text that `Path::display` gives for `path`, rendered with
/// `to_string`: a function of the path alone.
pub uninterp spec fn displayed_text(path: std::path::PathBuf) -> Seq<char>;

/// Calls `Path::display` on `path` and renders it with `to_string`: the path
/// as text, with bytes that are not UTF-8 replaced. The contract claims only
/// that the result is `displayed_text` of the path.
#[verifier::external_body]
fn displayed_path(path: &std::path::PathBuf) -> (s: String)
    ensures
        s@ == displayed_text(*path),
{
    path.display().to_string()
}

impl FileLockError {
    /// The error as text: its message, a colon and a space, then the path of
    /// the lock file.
    pub fn to_string(&self) -> (s: String)
        ensures
            s@ == self.message@ + ": "@ + displayed_text(self.path),
    {
        let mut s = String::from_str(self.message);
        s.append(": ");
        let path = displayed_path(&self.path);
        s.append(path.as_str());
        s
    }

    /// The error for `failure` while locking the file at `path`, caused by
    /// the I/O error `err`.
    pub fn new(failure: FileLockFailure, path: std::path::PathBuf, err: std::io::Error) -> (e:
        FileLockError)
        ensures
            e.message@ == failure.spec_message(),
            e.path == path,
            e.err == err,
    {
        FileLockError { message: failure.message(), path, err }
    }
}


/// How the lock is to be taken: waiting for the current holder to release it
/// (`flock` with `LOCK_EX`), or giving up at once if someone holds it
/// (`LOCK_EX | LOCK_NB`).
#[derive(Clone, Copy, Debug, PartialEq, Eq, Structural)]
pub enum LockMode {
    LockExclusive,
    NonBlockingLockExclusive,
}

/// The outcome of one lock attempt on one opened lock file.
#[derive(Clone, Copy, Debug, PartialEq, Eq, Structural)]
pub enum LockAttempt {
    /// The file is locked and still linked: the lock is held.
    Acquired,
    /// Another holder has the lock (non-blocking mode only).
    WouldBlock,
    /// The locked file was unlinked or its handle is stale: start over.
    StaleRetry,
}

/// The call whose outcome an attempt is waiting for.
#[derive(Clone, Copy, Debug, PartialEq, Eq, Structural)]
pub enum AttemptStage {
    /// Creating or opening the lock file.
    Open,
    /// Placing the `flock`.
    Flock,
    /// Checking the locked file with `fstat`.
    Fstat,
}

/// The outcome of a file-system call, as the caller observed it.
#[derive(Clone, Copy, Debug, PartialEq, Eq, Structural)]
pub enum LockEvent {
    /// The lock file was created or opened.
    Opened,
    /// Creating or opening the lock file failed.
    OpenFailed,
    /// The `flock` succeeded.
    Flocked,
    /// The non-blocking `flock` reported that another holder has the lock.
    FlockWouldBlock,
    /// The `flock` failed with any other error.
    FlockFailed,
    /// `fstat` succeeded and reported this many links to the file.
    Stat { nlink: u64 },
    /// `fstat` reported a stale file handle.
    StatStale,
    /// `fstat` failed with any other error.
    StatFailed,
}

/// Whether `event` is an outcome of the call made at `stage`.
pub open spec fn event_belongs_to(stage: AttemptStage, event: LockEvent) -> bool {
    match stage {
        AttemptStage::Open => event == LockEvent::Opened || event == LockEvent::OpenFailed,
        AttemptStage::Flock => event == LockEvent::Flocked || event == LockEvent::FlockWouldBlock
            || event == LockEvent::FlockFailed,
        AttemptStage::Fstat => event is Stat || event == LockEvent::StatStale || event
            == LockEvent::StatFailed,
    }
}

/// What one event does to a lock attempt.
#[derive(Clone, Copy, Debug, PartialEq, Eq, Structural)]
pub enum AttemptProgress {
    /// The attempt goes on with the call at this stage.
    Continue(AttemptStage),
    /// The attempt is over with this outcome.
    Done(LockAttempt),
    /// The attempt failed; the acquisition ends with an error.
    Failed(FileLockFailure),
}

/// One step of a lock attempt: open the file, `flock` it, `fstat` it.
///
/// A failed open, a failed `flock` (other than contention) and a failed
/// `fstat` (other than a stale handle) are errors. Contention ends the
/// attempt with `WouldBlock`. A locked file with no links left, or with a
/// stale handle, ends it with `StaleRetry`; a locked file that is still linked
/// ends it with `Acquired`.
pub fn lock_attempt_step(stage: AttemptStage, event: LockEvent) -> (p: AttemptProgress)
    requires
        event_belongs_to(stage, event),
    ensures
        event == LockEvent::Opened ==> p == AttemptProgress::Continue(AttemptStage::Flock),
        event == LockEvent::OpenFailed ==> p == AttemptProgress::Failed(FileLockFailure::Open),
        event == LockEvent::Flocked ==> p == AttemptProgress::Continue(AttemptStage::Fstat),
        event == LockEvent::FlockWouldBlock ==> p == AttemptProgress::Done(LockAttempt::WouldBlock),
        event == LockEvent::FlockFailed ==> p == AttemptProgress::Failed(FileLockFailure::Lock),
        event matches LockEvent::Stat { nlink } ==> p == (if nlink == 0 {
            AttemptProgress::Done(LockAttempt::StaleRetry)
        } else {
            AttemptProgress::Done(LockAttempt::Acquired)
        }),
        event == LockEvent::StatStale ==> p == AttemptProgress::Done(LockAttempt::StaleRetry),
        event == LockEvent::StatFailed ==> p == AttemptProgress::Failed(FileLockFailure::Stat),
{
    match event {
        LockEvent::Opened => AttemptProgress::Continue(AttemptStage::Flock),
        LockEvent::OpenFailed => AttemptProgress::Failed(FileLockFailure::Open),
        LockEvent::Flocked => AttemptProgress::Continue(AttemptStage::Fstat),
        LockEvent::FlockWouldBlock => AttemptProgress::Done(LockAttempt::WouldBlock),
        LockEvent::FlockFailed => AttemptProgress::Failed(FileLockFailure::Lock),
        LockEvent::Stat { nlink } => {
            if nlink == 0 {
                // The previous holder deleted the file: our lock on it is
                // invisible to others.
                AttemptProgress::Done(LockAttempt::StaleRetry)
            } else {
                AttemptProgress::Done(LockAttempt::Acquired)
            }
        },
        LockEvent::StatStale => AttemptProgress::Done(LockAttempt::StaleRetry),
        LockEvent::StatFailed => AttemptProgress::Failed(FileLockFailure::Stat),
    }
}

/// The next thing the caller of a lock acquisition has to do.
#[derive(Clone, Copy, Debug, PartialEq, Eq, Structural)]
pub enum LockAction {
    /// Create (or open) the lock file, dropping any file of an earlier
    /// attempt, and report `Opened` or `OpenFailed`.
    OpenFile,
    /// Place a `flock` of this mode on the opened file.
    Flock(LockMode),
    /// `fstat` the locked file.
    Fstat,
    /// Done: the lock is held through the last opened file.
    Acquired,
    /// Done: another holder has the lock.
    Contended,
    /// Done: the acquisition failed.
    Fail(FileLockFailure),
}

impl LockAction {
    /// Whether the acquisition is over once this action is taken.
    pub open spec fn is_final(self) -> bool {
        self is Acquired || self is Contended || self is Fail
    }

    /// The call whose outcome the acquisition waits for after this action.
    pub open spec fn awaited_stage(self) -> AttemptStage
        recommends
            !self.is_final(),
    {
        match self {
            LockAction::OpenFile => AttemptStage::Open,
            LockAction::Flock(_) => AttemptStage::Flock,
            _ => AttemptStage::Fstat,
        }
    }
}

/// The action that follows `event` in an acquisition of the given mode.
///
/// This is one attempt step, followed by the decision of the acquisition
/// loop: `StaleRetry` starts a new attempt, `Acquired` ends in `Acquired`,
/// `WouldBlock` ends in `Contended`.
pub open spec fn next_action(mode: LockMode, event: LockEvent) -> LockAction {
    match event {
        LockEvent::Opened => LockAction::Flock(mode),
        LockEvent::OpenFailed => LockAction::Fail(FileLockFailure::Open),
        LockEvent::Flocked => LockAction::Fstat,
        LockEvent::FlockWouldBlock => LockAction::Contended,
        LockEvent::FlockFailed => LockAction::Fail(FileLockFailure::Lock),
        LockEvent::Stat { nlink } => if nlink == 0 {
            LockAction::OpenFile
        } else {
            LockAction::Acquired
        },
        LockEvent::StatStale => LockAction::OpenFile,
        LockEvent::StatFailed => LockAction::Fail(FileLockFailure::Stat),
    }
}

/// Whether an acquisition in `mode` that waits at `stage` can receive
/// `event`. A blocking `flock` waits for the holder instead of reporting
/// contention, so a blocking acquisition never receives `FlockWouldBlock`.
pub open spec fn acceptable(mode: LockMode, stage: AttemptStage, event: LockEvent) -> bool {
    &&& event_belongs_to(stage, event)
    &&& !(mode == LockMode::LockExclusive && event == LockEvent::FlockWouldBlock)
}

/// The state of an acquisition after it received `events`, in order, from
/// its start: the stage it waits at, whether it is over, and the last action
/// it asked for. `None` if one of the events could not be received (it came
/// after the end, or it is not an outcome of the awaited call).
pub open spec fn run(mode: LockMode, events: Seq<LockEvent>) -> Option<
    (AttemptStage, bool, LockAction),
>
    decreases events.len(),
{
    if events.len() == 0 {
        Some((AttemptStage::Open, false, LockAction::OpenFile))
    } else {
        match run(mode, events.drop_last()) {
            Some((stage, finished, _)) => {
                let event = events.last();
                if !finished && acceptable(mode, stage, event) {
                    let a = next_action(mode, event);
                    Some(
                        (
                            if a.is_final() {
                                stage
                            } else {
                                a.awaited_stage()
                            },
                            a.is_final(),
                            a,
                        ),
                    )
                } else {
                    None
                }
            },
            None => None,
        }
    }
}

/// An acquisition of a lock file in progress.
pub struct LockAcquisition {
    mode: LockMode,
    stage: AttemptStage,
    finished: bool,
    trace: Ghost<Seq<LockEvent>>,
    last: Ghost<LockAction>,
}

impl LockAcquisition {
    #[verifier::type_invariant]
    spec fn follows_its_trace(self) -> bool {
        run(self.mode, self.trace@) == Some((self.stage, self.finished, self.last@))
    }

    pub closed spec fn mode(&self) -> LockMode {
        self.mode
    }

    /// The call whose outcome the acquisition waits for.
    pub closed spec fn stage(&self) -> AttemptStage {
        self.stage
    }

    /// Whether the acquisition is over.
    pub closed spec fn finished(&self) -> bool {
        self.finished
    }

    /// The events the acquisition received so far, in order.
    pub closed spec fn trace(&self) -> Seq<LockEvent> {
        self.trace@
    }

    /// Starts an acquisition: the first thing to do is to open the lock file.
    pub fn start(mode: LockMode) -> (r: (LockAcquisition, LockAction))
        ensures
            r.0.mode() == mode,
            r.0.stage() == AttemptStage::Open,
            !r.0.finished(),
            r.0.trace() == Seq::<LockEvent>::empty(),
            r.1 == LockAction::OpenFile,
    {
        let acquisition = LockAcquisition {
            mode,
            stage: AttemptStage::Open,
            finished: false,
            trace: Ghost(Seq::empty()),
            last: Ghost(LockAction::OpenFile),
        };
        (acquisition, LockAction::OpenFile)
    }

    /// Feeds the outcome of the last call to the acquisition and returns the
    /// next thing to do.
    pub fn step(&mut self, event: LockEvent) -> (a: LockAction)
        requires
            !old(self).finished(),
            acceptable(old(self).mode(), old(self).stage(), event),
        ensures
            a == next_action(old(self).mode(), event),
            final(self).mode() == old(self).mode(),
            final(self).finished() == a.is_final(),
            !a.is_final() ==> final(self).stage() == a.awaited_stage(),
            final(self).trace() == old(self).trace().push(event),
            run(final(self).mode(), final(self).trace()) == Some(
                (final(self).stage(), final(self).finished(), a),
            ),
    {
        proof {
            use_type_invariant(&*self);
        }
        let a = match lock_attempt_step(self.stage, event) {
            AttemptProgress::Continue(AttemptStage::Flock) => LockAction::Flock(self.mode),
            AttemptProgress::Continue(_) => LockAction::Fstat,
            AttemptProgress::Done(attempt) => conclude(self.mode, attempt),
            AttemptProgress::Failed(failure) => LockAction::Fail(failure),
        };
        let stage = match a {
            LockAction::OpenFile => AttemptStage::Open,
            LockAction::Flock(_) => AttemptStage::Flock,
            LockAction::Fstat => AttemptStage::Fstat,
            _ => self.stage,
        };
        let finished = match a {
            LockAction::Acquired | LockAction::Contended | LockAction::Fail(_) => true,
            _ => false,
        };
        let ghost trace = self.trace@.push(event);
        proof {
            assert(trace.drop_last() =~= self.trace@);
        }
        *self = LockAcquisition {
            mode: self.mode,
            stage,
            finished,
            trace: Ghost(trace),
            last: Ghost(a),
        };
        a
    }
}

/// What the acquisition loop does with the outcome of an attempt: a stale
/// file starts a new attempt, anything else ends the acquisition.
fn conclude(mode: LockMode, attempt: LockAttempt) -> (a: LockAction)
    requires
        !(mode == LockMode::LockExclusive && attempt == LockAttempt::WouldBlock),
    ensures
        attempt == LockAttempt::Acquired ==> a == LockAction::Acquired,
        attempt == LockAttempt::WouldBlock ==> a == LockAction::Contended,
        attempt == LockAttempt::StaleRetry ==> a == LockAction::OpenFile,
{
    match attempt {
        LockAttempt::Acquired => LockAction::Acquired,
        LockAttempt::WouldBlock => LockAction::Contended,
        // The stale file is dropped and a fresh one is created.
        LockAttempt::StaleRetry => LockAction::OpenFile,
    }
}

/// An acquisition that is not over and waits at `Fstat` has just placed its
/// `flock`; one that waits at `Flock` has just opened its file.
proof fn lemma_awaited_stage_follows_event(mode: LockMode, events: Seq<LockEvent>)
    requires
        run(mode, events) matches Some((stage, finished, _)) && !finished,
    ensures
        run(mode, events) matches Some((stage, _, _)) && (stage == AttemptStage::Fstat
            ==> events.len() > 0 && events.last() == LockEvent::Flocked) && (stage
            == AttemptStage::Flock ==> events.len() > 0 && events.last() == LockEvent::Opened),
{
}

/// The lock is reported held only when, in the current attempt, the lock
/// file was opened, the `flock` on it succeeded, and `fstat` found the file
/// still linked: the last three events are `Opened`, `Flocked` and `Stat`
/// with at least one link.
pub proof fn lemma_acquired_only_on_linked_locked_file(mode: LockMode, events: Seq<LockEvent>)
    requires
        run(mode, events) matches Some((_, _, a)) && a == LockAction::Acquired,
    ensures
        events.len() >= 3,
        events[events.len() - 3] == LockEvent::Opened,
        events[events.len() - 2] == LockEvent::Flocked,
        events.last() matches LockEvent::Stat { nlink } && nlink > 0,
{
    let e1 = events.drop_last();
    lemma_awaited_stage_follows_event(mode, e1);
    let e2 = e1.drop_last();
    lemma_awaited_stage_follows_event(mode, e2);
    assert(e1.last() == events[events.len() - 2]);
    assert(e2.last() == events[events.len() - 3]);
}

/// A blocking acquisition never reports contention: it either acquires the
/// lock, retries, or fails.
pub proof fn lemma_blocking_never_contended(events: Seq<LockEvent>)
    requires
        run(LockMode::LockExclusive, events) is Some,
    ensures
        run(LockMode::LockExclusive, events) matches Some((_, _, a)) && a != LockAction::Contended,
{
}

/// A non-blocking acquisition reports contention exactly when the `flock` on
/// the file it just opened reported that another holder has the lock.
pub proof fn lemma_contended_only_on_would_block(mode: LockMode, events: Seq<LockEvent>)
    requires
        run(mode, events) is Some,
    ensures
        run(mode, events) matches Some((_, _, a)) && (a == LockAction::Contended <==> (
        events.len() >= 2 && events.last() == LockEvent::FlockWouldBlock)),
        run(mode, events) matches Some((_, _, a)) && a == LockAction::Contended ==> mode
            == LockMode::NonBlockingLockExclusive && events[events.len() - 2]
            == LockEvent::Opened,
{
    if events.len() > 0 {
        let e1 = events.drop_last();
        lemma_awaited_stage_follows_event(mode, e1);
        if events.len() >= 2 {
            assert(e1.last() == events[events.len() - 2]);
        }
    }
}

/// An acquisition fails exactly when the call it just made failed (for a
/// reason other than contention or a stale handle), and the error names that
/// call.
pub proof fn lemma_failure_names_failed_call(mode: LockMode, events: Seq<LockEvent>)
    requires
        run(mode, events) is Some,
    ensures
        run(mode, events) matches Some((_, _, a)) && {
            &&& a == LockAction::Fail(FileLockFailure::Open) <==> (events.len() > 0
                && events.last() == LockEvent::OpenFailed)
            &&& a == LockAction::Fail(FileLockFailure::Lock) <==> (events.len() > 0
                && events.last() == LockEvent::FlockFailed)
            &&& a == LockAction::Fail(FileLockFailure::Stat) <==> (events.len() > 0
                && events.last() == LockEvent::StatFailed)
        },
{
}

/// A lock file that was unlinked, or whose handle went stale, is never taken
/// as held: the acquisition starts over by opening a fresh file.
pub proof fn lemma_stale_file_restarts(mode: LockMode, events: Seq<LockEvent>)
    requires
        run(mode, events) is Some,
        events.len() > 0,
        events.last() == LockEvent::StatStale || events.last() == (LockEvent::Stat { nlink: 0 }),
    ensures
        run(mode, events) == Some((AttemptStage::Open, false, LockAction::OpenFile)),
{
}

/// Once an acquisition is over it receives no further event.
pub proof fn lemma_finished_acquisition_is_final(
    mode: LockMode,
    events: Seq<LockEvent>,
    event: LockEvent,
)
    requires
        run(mode, events) matches Some((_, finished, _)) && finished,
    ensures
        run(mode, events.push(event)) is None,
{
    assert(events.push(event).drop_last() =~= events);
}

/// The number of attempts in `events`: the outcomes of opening the lock
/// file.
pub open spec fn attempts(events: Seq<LockEvent>) -> nat
    decreases events.len(),
{
    if events.len() == 0 {
        0
    } else {
        attempts(events.drop_last()) + if events.last() == LockEvent::Opened || events.last()
            == LockEvent::OpenFailed {
            1nat
        } else {
            0nat
        }
    }
}

/// The number of stale files in `events`: `fstat` found the locked file
/// unlinked or its handle stale.
pub open spec fn stale_files(events: Seq<LockEvent>) -> nat
    decreases events.len(),
{
    if events.len() == 0 {
        0
    } else {
        stale_files(events.drop_last()) + if events.last() == LockEvent::StatStale
            || events.last() == (LockEvent::Stat { nlink: 0 }) {
            1nat
        } else {
            0nat
        }
    }
}

proof fn lemma_attempts_follow_stale_files(mode: LockMode, events: Seq<LockEvent>)
    requires
        run(mode, events) is Some,
    ensures
        run(mode, events) matches Some((stage, finished, _)) && attempts(events) == stale_files(
            events,
        ) + if !finished && stage == AttemptStage::Open {
            0nat
        } else {
            1nat
        },
    decreases events.len(),
{
    if events.len() > 0 {
        lemma_attempts_follow_stale_files(mode, events.drop_last());
    }
}

/// An acquisition retries only after a race with another holder: it opens
/// the lock file at most once more than it found a stale lock file, so
/// without such races it makes a single attempt.
pub proof fn lemma_attempts_bounded_by_stale_files(mode: LockMode, events: Seq<LockEvent>)
    requires
        run(mode, events) is Some,
    ensures
        attempts(events) <= stale_files(events) + 1,
{
    lemma_attempts_follow_stale_files(mode, events);
}

} // verus!
