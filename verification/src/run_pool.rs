//! The pool of working copies of `jj run`.
//!
//! `jj run` runs a command on each revision of a set, each in a working copy
//! of its own under `.jj/run/<workspace>/<N>/`, where `N` counts from 1 up to
//! the number of jobs that may run in parallel. The working copies are reused
//! between jobs and between invocations, so build artifacts and caches
//! survive; `crate::working_copy` keeps their files in step with the revision
//! each job checks out. It also holds the decisions of a run: how many
//! revisions it processes before a failure stops it, whether it may rewrite
//! the revisions, and what a finished job leaves behind.

use vstd::prelude::*;

use crate::decimal::{decimal, decimal_string, decimal_value, lemma_decimal_denotes};
use crate::working_copy::{tracked_files, FileTree};

verus! {

/// The number of jobs that run in parallel: the `--jobs` flag if it is
/// given, else the `run.jobs` setting if it is set, else one. At least one
/// job runs.
pub open spec fn spec_job_count(jobs_flag: Option<usize>, config_jobs: Option<usize>) -> nat {
    let jobs: nat = match jobs_flag {
        Some(n) => n as nat,
        None => match config_jobs {
            Some(n) => n as nat,
            None => 1,
        },
    };
    if jobs == 0 {
        1
    } else {
        jobs
    }
}

/// Computes `spec_job_count`.
pub fn job_count(jobs_flag: Option<usize>, config_jobs: Option<usize>) -> (n: usize)
    ensures
        n == spec_job_count(jobs_flag, config_jobs),
        n >= 1,
{
    let jobs = match jobs_flag {
        Some(n) => n,
        None => match config_jobs {
            Some(n) => n,
            None => 1,
        },
    };
    if jobs == 0 {
        1
    } else {
        jobs
    }
}

/// The working copies of a pool: which are in use by a running job, and
/// which were ever used (and so exist on disk). Working copy `N` is at index
/// `N - 1`.
pub struct SlotPool {
    busy: Vec<bool>,
    used: Vec<bool>,
}

impl SlotPool {
    #[verifier::type_invariant]
    spec fn consistent(self) -> bool {
        &&& self.busy.len() == self.used.len()
        &&& forall|i: int| 0 <= i < self.busy.len() && #[trigger] self.busy[i] ==> self.used[i]
    }

    /// How many working copies the pool may use.
    pub closed spec fn size(&self) -> nat {
        self.busy.len() as nat
    }

    /// Whether working copy `slot` (counted from 1) is in use by a job.
    pub closed spec fn is_busy(&self, slot: int) -> bool {
        1 <= slot <= self.busy.len() && self.busy[slot - 1]
    }

    /// Whether working copy `slot` (counted from 1) was ever used.
    pub closed spec fn was_used(&self, slot: int) -> bool {
        1 <= slot <= self.busy.len() && self.used[slot - 1]
    }

    /// Moves the flags out of the pool, leaving it empty.
    fn take_flags(&mut self) -> (r: (Vec<bool>, Vec<bool>))
        ensures
            r.0@ == old(self).busy@,
            r.1@ == old(self).used@,
            r.0.len() == r.1.len(),
            forall|i: int| 0 <= i < r.0.len() && #[trigger] r.0[i] ==> r.1[i],
    {
        let mut pool = SlotPool { busy: Vec::new(), used: Vec::new() };
        std::mem::swap(self, &mut pool);
        proof {
            use_type_invariant(&pool);
        }
        let SlotPool { busy, used } = pool;
        (busy, used)
    }

    /// A pool of `size` working copies, none used yet.
    pub fn new(size: usize) -> (p: SlotPool)
        ensures
            p.size() == size,
            forall|s: int| !p.is_busy(s) && !p.was_used(s),
    {
        let mut busy: Vec<bool> = Vec::new();
        let mut used: Vec<bool> = Vec::new();
        let mut i: usize = 0;
        while i < size
            invariant
                i <= size,
                busy.len() == i,
                used.len() == i,
                forall|j: int| 0 <= j < i ==> !busy[j] && !used[j],
            decreases size - i,
        {
            busy.push(false);
            used.push(false);
            i += 1;
        }
        SlotPool { busy, used }
    }

    /// Takes the lowest-numbered working copy that no job uses, if there is
    /// one, for a new job.
    pub fn acquire(&mut self) -> (r: Option<usize>)
        ensures
            final(self).size() == old(self).size(),
            match r {
                Some(slot) => {
                    &&& 1 <= slot <= old(self).size()
                    &&& !old(self).is_busy(slot as int)
                    &&& forall|t: int| 1 <= t < slot ==> old(self).is_busy(t)
                    &&& forall|t: int| #[trigger]
                        final(self).is_busy(t) == (old(self).is_busy(t) || t == slot)
                    &&& forall|t: int| #[trigger]
                        final(self).was_used(t) == (old(self).was_used(t) || t == slot)
                },
                None => {
                    &&& forall|t: int| 1 <= t <= old(self).size() ==> old(self).is_busy(t)
                    &&& forall|t: int| #[trigger] final(self).is_busy(t) == old(self).is_busy(t)
                    &&& forall|t: int| #[trigger] final(self).was_used(t) == old(self).was_used(t)
                },
            },
    {
        proof {
            use_type_invariant(&*self);
        }
        let mut i: usize = 0;
        while i < self.busy.len()
            invariant
                i <= self.busy.len(),
                *self == *old(self),
                self.busy.len() == self.used.len(),
                forall|j: int| 0 <= j < i ==> self.busy[j],
            decreases self.busy.len() - i,
        {
            if !self.busy[i] {
                let (mut busy, mut used) = self.take_flags();
                busy.set(i, true);
                used.set(i, true);
                *self = SlotPool { busy, used };
                return Some(i + 1);
            }
            i += 1;
        }
        None
    }

    /// Gives working copy `slot` back to the pool once its job is done.
    pub fn release(&mut self, slot: usize)
        requires
            old(self).is_busy(slot as int),
        ensures
            final(self).size() == old(self).size(),
            forall|t: int| #[trigger] final(self).is_busy(t) == (old(self).is_busy(t) && t != slot),
            forall|t: int| #[trigger] final(self).was_used(t) == old(self).was_used(t),
    {
        proof {
            use_type_invariant(&*self);
        }
        let (mut busy, used) = self.take_flags();
        busy.set(slot - 1, false);
        *self = SlotPool { busy, used };
    }

    /// Whether working copy `slot` (counted from 1) is in use by a job.
    pub fn slot_busy(&self, slot: usize) -> (b: bool)
        ensures
            b == self.is_busy(slot as int),
    {
        1 <= slot && slot <= self.busy.len() && self.busy[slot - 1]
    }

    /// Whether working copy `slot` (counted from 1) was ever used.
    pub fn slot_used(&self, slot: usize) -> (b: bool)
        ensures
            b == self.was_used(slot as int),
    {
        proof {
            use_type_invariant(self);
        }
        1 <= slot && slot <= self.used.len() && self.used[slot - 1]
    }
}

/// The directory of working copy `slot` of the pool of the workspace named
/// `workspace` in the repository at `repo_root`.
pub open spec fn spec_slot_dir(repo_root: Seq<char>, workspace: Seq<char>, slot: nat) -> Seq<
    char,
> {
    repo_root + "/.jj/run/"@ + workspace + "/"@ + decimal(slot)
}

/// Computes `spec_slot_dir`.
pub fn slot_dir(repo_root: &str, workspace: &str, slot: usize) -> (d: String)
    ensures
        d@ == spec_slot_dir(repo_root@, workspace@, slot as nat),
{
    let mut d = String::from_str(repo_root);
    d.append("/.jj/run/");
    d.append(workspace);
    d.append("/");
    let n = decimal_string(slot);
    d.append(n.as_str());
    d
}

/// Each working copy has a directory of its own, named by its number:
/// working copy `s` lives under `<repo>/.jj/run/<workspace>/`, in a
/// directory whose name is ASCII digits that denote `s`, so two different
/// working copies never share a directory.
pub proof fn lemma_slot_dir_is_named_by_its_slot(
    repo_root: Seq<char>,
    workspace: Seq<char>,
    s: nat,
    t: nat,
)
    ensures
        ({
            let pool = repo_root + "/.jj/run/"@ + workspace + "/"@;
            let d = spec_slot_dir(repo_root, workspace, s);
            &&& d.len() > pool.len()
            &&& d.take(pool.len() as int) == pool
            &&& forall|i: int| pool.len() <= i < d.len() ==> '0' <= #[trigger] d[i] <= '9'
            &&& decimal_value(d.skip(pool.len() as int)) == s
        }),
        s != t ==> spec_slot_dir(repo_root, workspace, s) != spec_slot_dir(
            repo_root,
            workspace,
            t,
        ),
{
    let pool = repo_root + "/.jj/run/"@ + workspace + "/"@;
    let ds = spec_slot_dir(repo_root, workspace, s);
    let dt = spec_slot_dir(repo_root, workspace, t);
    lemma_decimal_denotes(s);
    lemma_decimal_denotes(t);
    assert(ds.take(pool.len() as int) =~= pool);
    assert(ds.skip(pool.len() as int) =~= decimal(s));
    assert(dt.skip(pool.len() as int) =~= decimal(t));
    assert forall|i: int| pool.len() <= i < ds.len() implies '0' <= #[trigger] ds[i] <= '9' by {
        assert(ds[i] == decimal(s)[i - pool.len()]);
    }
}

/// The checked-out files of a pool working copy, under its directory. Jobs
/// run here, and `JJ_WORKSPACE_ROOT` points here.
pub fn working_copy_dir(slot_dir: &str) -> (d: String)
    ensures
        d@ == slot_dir@ + "/working_copy"@,
{
    let mut d = String::from_str(slot_dir);
    d.append("/working_copy");
    d
}

/// The working-copy state of a pool working copy, under its directory.
pub fn state_dir(slot_dir: &str) -> (d: String)
    ensures
        d@ == slot_dir@ + "/state"@,
{
    let mut d = String::from_str(slot_dir);
    d.append("/state");
    d
}

/// The file that records the tree a pool working copy holds, under its
/// directory. A working copy without it is wiped before its next use.
pub fn tree_state_file(slot_dir: &str) -> (f: String)
    ensures
        f@ == slot_dir@ + "/state/tree_state"@,
{
    let mut f = String::from_str(slot_dir);
    f.append("/state/tree_state");
    f
}

/// The environment variables a job's command runs with: the change ID and
/// commit ID of the revision, and the root of the job's working copy.
pub fn job_environment(change_id: &str, commit_id: &str, workspace_root: &str) -> (env: Vec<
    (String, String),
>)
    ensures
        env@.len() == 3,
        env@[0].0@ == "JJ_CHANGE_ID"@ && env@[0].1@ == change_id@,
        env@[1].0@ == "JJ_COMMIT_ID"@ && env@[1].1@ == commit_id@,
        env@[2].0@ == "JJ_WORKSPACE_ROOT"@ && env@[2].1@ == workspace_root@,
{
    let mut env = Vec::new();
    env.push((String::from_str("JJ_CHANGE_ID"), String::from_str(change_id)));
    env.push((String::from_str("JJ_COMMIT_ID"), String::from_str(commit_id)));
    env.push((String::from_str("JJ_WORKSPACE_ROOT"), String::from_str(workspace_root)));
    env
}

/// What a finished job leaves behind.
pub struct JobOutcome {
    /// The new tree of the revision, if the revision is rewritten.
    pub rewritten: Option<FileTree>,
    /// The tree state the working copy records for its next job.
    pub tree_state: FileTree,
}

/// Concludes a job whose command left the files `working_copy` in its
/// working copy.
///
/// The working copy is snapshotted whether or not the command succeeded, and
/// the snapshot becomes its tree state, so that files a failed command
/// created are removed by the next checkout. The revision is amended with the
/// snapshot only if the command succeeded and amending was asked for;
/// otherwise it is left unchanged.
pub fn finish_job(succeeded: bool, amend: bool, working_copy: &FileTree, ignored: &Vec<String>) -> (o:
    JobOutcome)
    ensures
        o.tree_state@ == tracked_files(working_copy@, ignored@),
        succeeded && amend ==> (o.rewritten matches Some(t) && t@ == tracked_files(
            working_copy@,
            ignored@,
        )),
        !(succeeded && amend) ==> o.rewritten is None,
{
    let tree_state = working_copy.snapshot(ignored);
    let rewritten = if succeeded && amend {
        Some(tree_state.copy())
    } else {
        None
    };
    JobOutcome { rewritten, tree_state }
}

/// Whether `k` is the number of revisions that `jj run` processes, one at a
/// time in order, when the commands on them succeed as `succeeded` says: all
/// of them with `--keep-going`; otherwise it stops after the first revision
/// whose command failed.
pub open spec fn processes(succeeded: Seq<bool>, keep_going: bool, k: int) -> bool {
    &&& 0 <= k <= succeeded.len()
    &&& keep_going ==> k == succeeded.len()
    &&& !keep_going ==> {
        &&& forall|i: int| 0 <= i < k - 1 ==> #[trigger] succeeded[i]
        &&& k < succeeded.len() ==> k > 0 && !succeeded[k - 1]
    }
}

/// The number of revisions processed one at a time, given whether the
/// command succeeded on each, in order (see `processes`).
pub fn processed_revisions(succeeded: &Vec<bool>, keep_going: bool) -> (k: usize)
    ensures
        processes(succeeded@, keep_going, k as int),
{
    let n = succeeded.len();
    if keep_going {
        return n;
    }
    let mut k: usize = 0;
    while k < n
        invariant
            !keep_going,
            k <= n,
            n == succeeded@.len(),
            forall|i: int| 0 <= i < k ==> #[trigger] succeeded@[i],
        decreases n - k,
    {
        if !succeeded[k] {
            return k + 1;
        }
        k += 1;
    }
    k
}

/// Checks that `jj run` may rewrite the revisions, given which of them are
/// immutable: it returns the position of the first immutable one when the
/// revisions are to be amended, and `None` when the run may go ahead.
pub fn first_immutable(amend: bool, immutable: &Vec<bool>) -> (r: Option<usize>)
    ensures
        match r {
            None => !amend || forall|i: int| 0 <= i < immutable@.len() ==> !#[trigger] immutable@[i],
            Some(p) => amend && p < immutable@.len() && immutable@[p as int] && forall|j: int|
                0 <= j < p ==> !#[trigger] immutable@[j],
        },
{
    if !amend {
        return None;
    }
    let n = immutable.len();
    let mut i: usize = 0;
    while i < n
        invariant
            amend,
            i <= n,
            n == immutable@.len(),
            forall|j: int| 0 <= j < i ==> !#[trigger] immutable@[j],
        decreases n - i,
    {
        if immutable[i] {
            return Some(i);
        }
        i += 1;
    }
    None
}

/// Without `--keep-going`, `jj run` stops at the first revision whose
/// command fails: it processes exactly the revisions up to that one.
pub proof fn lemma_run_stops_at_first_failure(succeeded: Seq<bool>, k: int, f: int)
    requires
        processes(succeeded, false, k),
        0 <= f < succeeded.len(),
        !succeeded[f],
        forall|i: int| 0 <= i < f ==> #[trigger] succeeded[i],
    ensures
        k == f + 1,
{
    if k < f + 1 {
        assert(succeeded[k - 1]);
    } else if k > f + 1 {
        assert(succeeded[f]);
    }
}

/// With `--keep-going`, every revision is processed, whatever fails.
pub proof fn lemma_keep_going_processes_all(succeeded: Seq<bool>, k: int)
    requires
        processes(succeeded, true, k),
    ensures
        k == succeeded.len(),
{
}

/// A pool never uses more working copies than its size: with `n` jobs, the
/// directories `1` to `n` are the only ones that can exist.
pub proof fn lemma_pool_uses_only_its_slots(pool: SlotPool, slot: int)
    requires
        pool.was_used(slot),
    ensures
        1 <= slot <= pool.size(),
{
}

/// By default `jj run` processes one revision at a time; `--jobs` sets the
/// parallelism, and `run.jobs` sets it when `--jobs` is not given.
pub proof fn lemma_job_count_defaults(flag: usize, config: usize)
    ensures
        spec_job_count(None, None) == 1,
        flag >= 1 ==> spec_job_count(Some(flag), None) == flag,
        flag >= 1 ==> spec_job_count(Some(flag), Some(config)) == flag,
        config >= 1 ==> spec_job_count(None, Some(config)) == config,
{
}

} // verus!
