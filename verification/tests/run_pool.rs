use jj_core::run_pool::{
    finish_job, first_immutable, job_count, job_environment, processed_revisions, slot_dir,
    state_dir, tree_state_file,
    working_copy_dir, SlotPool,
};
use jj_core::working_copy::{apply_checkout, plan_checkout, FileTree};

const ROOT: &str = "$TEST_ENV/repo";

fn tree(files: &[(&str, &str)]) -> FileTree {
    let mut t = FileTree::new();
    for (path, content) in files {
        t.insert(path.to_string(), content.as_bytes().to_vec());
    }
    t
}

fn has(t: &FileTree, path: &str) -> bool {
    t.contains(&path.to_string())
}

fn content(t: &FileTree, path: &str) -> Option<String> {
    t.get(&path.to_string())
        .map(|c| String::from_utf8(c).unwrap())
}

/// The working copies of the pool on disk: `slots[n - 1]` is working copy
/// `n` (its files and its tree state), `None` if its directory does not exist.
struct PoolDir {
    slots: Vec<Option<(FileTree, Option<FileTree>)>>,
}

impl PoolDir {
    fn new() -> Self {
        PoolDir { slots: Vec::new() }
    }

    fn slot_exists(&self, slot: usize) -> bool {
        slot >= 1 && slot <= self.slots.len() && self.slots[slot - 1].is_some()
    }

    /// One `jj run` invocation: runs `command` on each revision with `jobs`
    /// working copies, each batch of `jobs` revisions in parallel. Returns
    /// the rewritten trees (`None` where the revision is left unchanged).
    fn run(
        &mut self,
        jobs: usize,
        clean: bool,
        revisions: &[&FileTree],
        ignored: &Vec<String>,
        command: &dyn Fn(usize, &mut FileTree) -> bool,
    ) -> Vec<Option<FileTree>> {
        let mut pool = SlotPool::new(jobs);
        let mut results: Vec<Option<FileTree>> = Vec::new();
        for batch_start in (0..revisions.len()).step_by(jobs) {
            let batch_end = (batch_start + jobs).min(revisions.len());
            let mut running = Vec::new();
            for idx in batch_start..batch_end {
                let slot = pool.acquire().expect("a free working copy");
                running.push((slot, idx));
            }
            for &(slot, idx) in &running {
                while self.slots.len() < slot {
                    self.slots.push(None);
                }
                let (files, state) = self.slots[slot - 1]
                    .take()
                    .unwrap_or_else(|| (FileTree::new(), None));
                let plan = plan_checkout(state.as_ref(), revisions[idx], clean);
                let mut files = apply_checkout(&files, &plan, revisions[idx]);
                let succeeded = command(idx, &mut files);
                let outcome = finish_job(succeeded, true, &files, ignored);
                self.slots[slot - 1] = Some((files, Some(outcome.tree_state)));
                results.push(outcome.rewritten);
            }
            for &(slot, _) in &running {
                pool.release(slot);
            }
        }
        results
    }
}

fn touch(name: &'static str) -> impl Fn(usize, &mut FileTree) -> bool {
    move |_, files: &mut FileTree| {
        files.insert(name.to_string(), Vec::new());
        true
    }
}

#[test]
fn test_run_pool_persists_between_runs() {
    let seed = tree(&[("seed.txt", "seed")]);
    let mut pool_dir = PoolDir::new();
    let jobs = job_count(None, Some(1));
    let rewritten = pool_dir.run(jobs, false, &[&seed], &vec![], &touch("ran.txt"));
    let seed = rewritten[0].as_ref().unwrap().copy();

    // The pool slot directory survives the run.
    let pool_slot = slot_dir(ROOT, "default", 1);
    assert!(
        pool_slot.ends_with(".jj/run/default/1"),
        "expected pool slot 1 to persist between runs at {pool_slot:?}",
    );
    assert!(pool_dir.slot_exists(1));
    assert_eq!(working_copy_dir(&pool_slot), format!("{pool_slot}/working_copy"));
    assert_eq!(state_dir(&pool_slot), format!("{pool_slot}/state"));
    let (_, state) = pool_dir.slots[0].as_ref().unwrap();
    assert!(state.is_some());

    // A second run reuses the existing slot rather than recreating it from
    // scratch.
    let plan = plan_checkout(state.as_ref(), &seed, false);
    assert!(!plan.wipe);
    pool_dir.run(jobs, false, &[&seed], &vec![], &touch("ran2.txt"));
    assert!(pool_dir.slot_exists(1));
    assert!(!pool_dir.slot_exists(2));
}

#[test]
fn test_run_pool_size_from_config() {
    let a = tree(&[("a.txt", "a")]);
    let b = tree(&[("a.txt", "a"), ("b.txt", "b")]);
    let c = tree(&[("a.txt", "a"), ("b.txt", "b"), ("c.txt", "c")]);
    let wc = tree(&[("a.txt", "a"), ("b.txt", "b"), ("c.txt", "c")]);

    // `run.jobs = 1` forces all three commits to share a single slot
    // and be processed sequentially.
    let jobs = job_count(None, Some(1));
    assert_eq!(jobs, 1);
    let mut pool_dir = PoolDir::new();
    let rewritten = pool_dir.run(jobs, false, &[&a, &b, &c, &wc], &vec![], &touch("ran.txt"));

    assert!(pool_dir.slot_exists(1), "pool/1 should exist");
    assert!(!pool_dir.slot_exists(2), "pool/2 should NOT exist with size=1");

    // All three commits picked up `ran.txt`.
    for (parent, files) in ["@---", "@--", "@-"].iter().zip(rewritten.iter()) {
        let files = files.as_ref().unwrap();
        assert!(has(files, "ran.txt"), "expected ran.txt in {parent}");
    }
}

/// `--jobs N` controls pool size when `run.jobs` is not set.
#[test]
fn test_run_pool_size_from_jobs_flag() {
    let a = tree(&[("a.txt", "a")]);
    let b = tree(&[("a.txt", "a"), ("b.txt", "b")]);
    let c = tree(&[("a.txt", "a"), ("b.txt", "b"), ("c.txt", "c")]);
    let wc = tree(&[("a.txt", "a"), ("b.txt", "b"), ("c.txt", "c")]);

    // `--jobs 2` with pool: expect exactly 2 slots, no more.
    let jobs = job_count(Some(2), None);
    let mut pool_dir = PoolDir::new();
    pool_dir.run(jobs, false, &[&a, &b, &c, &wc], &vec![], &touch("ran.txt"));

    assert!(pool_dir.slot_exists(1), "pool/1 should exist");
    assert!(pool_dir.slot_exists(2), "pool/2 should exist");
    assert!(!pool_dir.slot_exists(3), "pool/3 must NOT exist with --jobs 2");
}

#[test]
fn test_run_pool_preserves_untracked_artifacts() {
    // The .gitignore keeps `cache/` out of the snapshot's tracking set, so
    // files there persist on disk between jobs without being committed.
    let seed = tree(&[(".gitignore", "cache/\n"), ("seed.txt", "seed")]);
    let ignored = vec!["cache/marker".to_string()];
    let jobs = job_count(None, Some(1));
    let mut pool_dir = PoolDir::new();

    // Run 1: drop a marker into the gitignored cache directory.
    let run1 = |_: usize, files: &mut FileTree| {
        files.insert("cache/marker".to_string(), b"run1\n".to_vec());
        files.insert("ran1.txt".to_string(), Vec::new());
        true
    };
    let rewritten = pool_dir.run(jobs, false, &[&seed], &ignored, &run1);
    let seed = rewritten[0].as_ref().unwrap().copy();
    assert!(!has(&seed, "cache/marker"));

    // Run 2: assert the marker is still there, write its contents into a
    // tracked file so we can verify from outside.
    let run2 = |_: usize, files: &mut FileTree| {
        let result = files
            .get(&"cache/marker".to_string())
            .unwrap_or_else(|| b"MISSING\n".to_vec());
        files.insert("result.txt".to_string(), result);
        true
    };
    let rewritten = pool_dir.run(jobs, false, &[&seed], &ignored, &run2);

    let result = content(rewritten[0].as_ref().unwrap(), "result.txt").unwrap();
    assert!(
        result.starts_with("run1"),
        "expected result.txt to contain marker content from run 1; got: {result}",
    );
}

/// Pool correctly removes a file that is present in one commit's tree but
/// absent in the next commit processed by the same slot.
#[test]
fn test_run_pool_removes_file_absent_in_next_commit() {
    let a = tree(&[("only_in_a.txt", "a")]);
    let b = tree(&[]);
    let jobs = job_count(None, Some(1));
    let mut pool_dir = PoolDir::new();
    let rewritten = pool_dir.run(jobs, false, &[&a, &b], &vec![], &touch("ran.txt"));

    let files_a = rewritten[0].as_ref().unwrap();
    assert!(has(files_a, "only_in_a.txt"), "expected only_in_a.txt in A");
    let files_b = rewritten[1].as_ref().unwrap();
    assert!(!has(files_b, "only_in_a.txt"), "only_in_a.txt must not leak into B");
    assert!(has(files_b, "ran.txt"), "expected ran.txt in B");
}

/// Files created by a command (not in `.gitignore`) must not leak from one
/// commit to another in the same `jj run` invocation.
#[test]
fn test_run_pool_no_file_leak_between_commits() {
    let a = tree(&[("seed.txt", "seed")]);
    let b = tree(&[("seed.txt", "seed")]);
    let c = tree(&[("seed.txt", "seed")]);
    let wc = tree(&[("seed.txt", "seed")]);

    // A's command produces from_a.txt; B and C do not.
    let command = |idx: usize, files: &mut FileTree| {
        if idx == 0 {
            files.insert("from_a.txt".to_string(), Vec::new());
        }
        files.insert("ran.txt".to_string(), Vec::new());
        true
    };
    let jobs = job_count(None, Some(1));
    let mut pool_dir = PoolDir::new();
    let rewritten = pool_dir.run(jobs, false, &[&a, &b, &c, &wc], &vec![], &command);

    for (rev, files) in [("B", &rewritten[1]), ("C", &rewritten[2])] {
        let files = files.as_ref().unwrap();
        assert!(
            !has(files, "from_a.txt"),
            "from_a.txt must not leak into commit {rev}",
        );
    }
}

/// Files tracked into a commit by run 1 must not reappear in a different
/// commit processed by the same pool slot in run 2.
#[test]
fn test_run_pool_no_file_leak_between_invocations() {
    let commit1 = tree(&[("seed.txt", "seed")]);
    let commit2 = tree(&[("seed.txt", "seed")]);
    let jobs = job_count(None, Some(1));
    let mut pool_dir = PoolDir::new();

    // Run 1: produce artifact.txt in commit2 so the slot's saved tree_state
    // records {seed.txt, artifact.txt}.
    let rewritten = pool_dir.run(jobs, false, &[&commit2], &vec![], &touch("artifact.txt"));
    assert!(has(rewritten[0].as_ref().unwrap(), "artifact.txt"));
    let (_, state) = pool_dir.slots[0].as_ref().unwrap();
    assert!(has(state.as_ref().unwrap(), "artifact.txt"));

    // Run 2: no-op on commit1.
    let noop = |_: usize, _: &mut FileTree| true;
    let rewritten = pool_dir.run(jobs, false, &[&commit1], &vec![], &noop);

    let files = rewritten[0].as_ref().unwrap();
    assert!(
        !has(files, "artifact.txt"),
        "artifact.txt must not leak into commit1 from previous slot state",
    );
    assert!(has(files, "seed.txt"), "expected seed.txt in commit1");
}

/// A slot whose tree_state is absent (simulating a crash mid-job) should be
/// wiped and reinitialised on the next acquisition, not produce garbage.
#[test]
fn test_run_pool_recovers_from_missing_tree_state() {
    let seed = tree(&[("seed.txt", "seed")]);
    let jobs = job_count(None, Some(1));
    let mut pool_dir = PoolDir::new();
    let noop = |_: usize, _: &mut FileTree| true;
    pool_dir.run(jobs, false, &[&seed], &vec![], &noop);

    // Simulate a crash: plant a stale file in the slot and delete tree_state.
    let slot = slot_dir(ROOT, "default", 1);
    assert_eq!(tree_state_file(&slot), format!("{slot}/state/tree_state"));
    let (mut files, _) = pool_dir.slots[0].take().unwrap();
    files.insert("stale.txt".to_string(), b"crash leftovers".to_vec());
    pool_dir.slots[0] = Some((files, None));

    let rewritten = pool_dir.run(jobs, false, &[&seed], &vec![], &touch("ran.txt"));
    let files = rewritten[0].as_ref().unwrap();
    assert!(has(files, "ran.txt"), "expected ran.txt in rewrite after recovery");
    assert!(!has(files, "stale.txt"), "stale.txt must not survive crash recovery");
}

/// A failed command (non-zero exit) must not poison the pool slot for the
/// next `jj run` invocation.
#[test]
fn test_run_pool_failed_command_does_not_poison_slot() {
    let seed = tree(&[("seed.txt", "seed")]);
    let jobs = job_count(None, Some(1));
    let mut pool_dir = PoolDir::new();

    // Run 1: command fails, but writes a file first.
    let failing = |_: usize, files: &mut FileTree| {
        files.insert("poison.txt".to_string(), Vec::new());
        false
    };
    let rewritten = pool_dir.run(jobs, false, &[&seed], &vec![], &failing);
    assert!(rewritten[0].is_none());

    // Run 2: a clean command. poison.txt must not appear in the rewrite.
    let rewritten = pool_dir.run(jobs, false, &[&seed], &vec![], &touch("ran.txt"));
    let files = rewritten[0].as_ref().unwrap();
    assert!(has(files, "ran.txt"), "expected ran.txt");
    assert!(!has(files, "poison.txt"), "poison.txt from failed run must not appear");
}

/// `--clean` wipes each slot before running the command so untracked artifacts
/// left by a previous run do not survive into the next run's working copy.
#[test]
fn test_run_clean_wipes_slot() {
    let seed = tree(&[("seed.txt", "seed")]);
    let jobs = job_count(None, Some(1));
    let noop = |_: usize, _: &mut FileTree| true;
    let saw_it = |_: usize, files: &mut FileTree| {
        if files.contains(&"leftover.txt".to_string()) {
            files.insert("saw_it.txt".to_string(), b"PRESENT\n".to_vec());
        }
        true
    };

    // Without --clean the leftover file is visible to the command.
    let mut pool_dir = PoolDir::new();
    pool_dir.run(jobs, false, &[&seed], &vec![], &noop);
    assert!(pool_dir.slot_exists(1), "slot 1 should exist after first run");
    let (mut files, state) = pool_dir.slots[0].take().unwrap();
    files.insert("leftover.txt".to_string(), b"artifact".to_vec());
    pool_dir.slots[0] = Some((files, state));
    let rewritten = pool_dir.run(jobs, false, &[&seed], &vec![], &saw_it);
    let files_no_clean = rewritten[0].as_ref().unwrap();
    assert!(
        has(files_no_clean, "saw_it.txt") || has(files_no_clean, "leftover.txt"),
        "expected leftover.txt to be visible without --clean",
    );

    // With --clean, the slot is wiped before checkout. leftover.txt vanishes.
    let mut pool_dir = PoolDir::new();
    pool_dir.run(jobs, false, &[&seed], &vec![], &noop);
    let (mut files, state) = pool_dir.slots[0].take().unwrap();
    files.insert("leftover.txt".to_string(), b"artifact".to_vec());
    pool_dir.slots[0] = Some((files, state));
    let rewritten = pool_dir.run(jobs, true, &[&seed], &vec![], &saw_it);
    let files_clean = rewritten[0].as_ref().unwrap();
    assert!(
        !has(files_clean, "saw_it.txt") && !has(files_clean, "leftover.txt"),
        "expected leftover.txt to be absent with --clean",
    );
}

#[test]
fn test_run_sets_workspace_root_env_var() {
    let slot = slot_dir(ROOT, "default", 1);
    let root = working_copy_dir(&slot);
    let env = job_environment("qpvuntsmwlqtpsluzzsnyyzlmlwvmlnu", "5fbe90560fed1c39d46a46a672ba98abd53bdc6d", &root);
    assert_eq!(env[2].0, "JJ_WORKSPACE_ROOT");
    assert_eq!(env[2].1, "$TEST_ENV/repo/.jj/run/default/1/working_copy");
}

#[test]
fn test_run_sets_env_vars() {
    let env = job_environment(
        "qpvuntsmwlqtpsluzzsnyyzlmlwvmlnu",
        "5fbe90560fed1c39d46a46a672ba98abd53bdc6d",
        "$TEST_ENV/repo/.jj/run/default/1/working_copy",
    );
    assert_eq!(env.len(), 3);
    assert_eq!(env[0].0, "JJ_CHANGE_ID");
    assert_eq!(env[0].1, "qpvuntsmwlqtpsluzzsnyyzlmlwvmlnu");
    assert_eq!(env[1].0, "JJ_COMMIT_ID");
    assert_eq!(env[1].1, "5fbe90560fed1c39d46a46a672ba98abd53bdc6d");
}

#[test]
fn slot_pool_hands_out_lowest_free_slot() {
    let mut pool = SlotPool::new(3);
    assert_eq!(pool.acquire(), Some(1));
    assert_eq!(pool.acquire(), Some(2));
    pool.release(1);
    assert!(!pool.slot_busy(1));
    assert!(pool.slot_used(1));
    assert_eq!(pool.acquire(), Some(1));
    assert_eq!(pool.acquire(), Some(3));
    assert_eq!(pool.acquire(), None);
    assert!(!pool.slot_used(4));
}

#[test]
fn job_count_defaults() {
    assert_eq!(job_count(None, None), 1);
    assert_eq!(job_count(Some(4), Some(2)), 4);
    assert_eq!(job_count(None, Some(3)), 3);
    assert_eq!(job_count(Some(0), None), 1);
}

#[test]
fn run_stops_after_the_first_failure_unless_keep_going() {
    let results = vec![true, false, true];
    assert_eq!(processed_revisions(&results, false), 2);
    assert_eq!(processed_revisions(&results, true), 3);
    assert_eq!(processed_revisions(&vec![false, false], false), 1);
    assert_eq!(processed_revisions(&vec![true, true], false), 2);
    assert_eq!(processed_revisions(&vec![], false), 0);
}

#[test]
fn run_refuses_immutable_revisions_unless_not_amending() {
    // `all()` includes the root commit, which is immutable.
    let immutable = vec![false, false, false, true];
    assert_eq!(first_immutable(true, &immutable), Some(3));
    assert_eq!(first_immutable(false, &immutable), None);
    assert_eq!(first_immutable(true, &vec![false, false]), None);
    assert_eq!(first_immutable(true, &vec![true, true]), Some(0));
}
