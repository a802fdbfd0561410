//! The files of a working copy, and keeping a reused working copy in step
//! with the tree it is to hold.
//!
//! A working copy that is reused for several commits (as the working copies
//! of `jj run`'s pool are) records the tree it last held (its *tree state*).
//! Checking out a new tree removes the recorded files that the new tree does
//! not have and writes those it has; files the working copy does not track
//! (ignored build artifacts, caches) are left in place. A working copy without
//! a tree state, or one that is to be cleaned, is wiped first.

use vstd::prelude::*;

verus! {

/// A file: its path relative to the root of the tree, and its content.
pub struct FileEntry {
    pub path: String,
    pub content: Vec<u8>,
}

/// A set of files, keyed by path: a tree of a commit, or what is on disk in
/// a working copy.
pub struct FileTree {
    entries: Vec<FileEntry>,
}

impl FileTree {
    #[verifier::type_invariant]
    spec fn paths_distinct(self) -> bool {
        forall|i: int, j: int|
            0 <= i < self.entries.len() && 0 <= j < self.entries.len() && i != j
                ==> #[trigger] self.entries[i].path@ != #[trigger] self.entries[j].path@
    }

    spec fn has_path_at(self, p: Seq<char>, i: int) -> bool {
        0 <= i < self.entries.len() && self.entries[i].path@ == p
    }

    /// The files, as a map from path to content.
    pub closed spec fn view(&self) -> Map<Seq<char>, Seq<u8>> {
        Map::new(
            |p: Seq<char>| exists|i: int| self.has_path_at(p, i),
            |p: Seq<char>| self.entries[choose|i: int| self.has_path_at(p, i)].content@,
        )
    }

    proof fn lemma_entry_in_view(&self, i: int)
        requires
            self.paths_distinct(),
            0 <= i < self.entries.len(),
        ensures
            self@.dom().contains(self.entries[i].path@),
            self@[self.entries[i].path@] == self.entries[i].content@,
    {
        let p = self.entries[i].path@;
        assert(self.has_path_at(p, i));
        let j = choose|j: int| self.has_path_at(p, j);
        assert(j == i);
    }

    /// The tree without files.
    pub fn new() -> (t: FileTree)
        ensures
            t@ == Map::<Seq<char>, Seq<u8>>::empty(),
    {
        let t = FileTree { entries: Vec::new() };
        assert(t@ =~= Map::<Seq<char>, Seq<u8>>::empty());
        t
    }

    /// The paths of the files, each once.
    pub fn paths(&self) -> (v: Vec<String>)
        ensures
            v@.len() == self@.dom().len(),
            forall|p: Seq<char>| #![trigger listed(v@, p)] listed(v@, p) <==> self@.dom().contains(p),
    {
        proof {
            use_type_invariant(self);
            self.lemma_dom_len();
        }
        let mut v: Vec<String> = Vec::new();
        let mut i: usize = 0;
        while i < self.entries.len()
            invariant
                self.paths_distinct(),
                i <= self.entries.len(),
                v@.len() == i,
                forall|j: int| 0 <= j < i ==> #[trigger] v@[j] == self.entries[j].path,
            decreases self.entries.len() - i,
        {
            v.push(self.entries[i].path.clone());
            i += 1;
        }
        proof {
            assert forall|p: Seq<char>| #![trigger listed(v@, p)] listed(v@, p) <==> self@.dom().contains(p) by {
                if listed(v@, p) {
                    let j = choose|j: int| 0 <= j < v@.len() && v@[j]@ == p;
                    self.lemma_entry_in_view(j);
                }
                if self@.dom().contains(p) {
                    let j = choose|j: int| self.has_path_at(p, j);
                    assert(v@[j]@ == p);
                }
            }
        }
        v
    }

    /// A copy of the tree.
    pub fn copy(&self) -> (t: FileTree)
        ensures
            t@ == self@,
    {
        let mut t = FileTree::new();
        t.write_all(self);
        assert(t@ =~= self@);
        t
    }

    /// The number of files.
    pub fn len(&self) -> (n: usize)
        ensures
            n == self@.dom().len(),
    {
        proof {
            use_type_invariant(self);
            self.lemma_dom_len();
        }
        self.entries.len()
    }

    proof fn lemma_dom_len(&self)
        requires
            self.paths_distinct(),
        ensures
            self@.dom().len() == self.entries.len(),
            self@.dom().finite(),
    {
        let paths = Seq::new(self.entries.len() as nat, |i: int| self.entries[i].path@);
        assert forall|i: int, j: int|
            0 <= i < paths.len() && 0 <= j < paths.len() && i != j implies paths[i]
            != paths[j] by {
            assert(self.entries[i].path@ != self.entries[j].path@);
        }
        assert(paths.no_duplicates());
        assert forall|p: Seq<char>| self@.dom().contains(p) <==> paths.to_set().contains(p) by {
            if self@.dom().contains(p) {
                let i = choose|i: int| self.has_path_at(p, i);
                assert(paths[i] == p);
            }
            if paths.to_set().contains(p) {
                let i = choose|i: int| 0 <= i < paths.len() && paths[i] == p;
                assert(self.has_path_at(p, i));
            }
        }
        assert(self@.dom() =~= paths.to_set());
        paths.unique_seq_to_set();
    }

    /// The index of the entry with path `path`, if there is one.
    fn find(&self, path: &String) -> (r: Option<usize>)
        ensures
            r matches Some(i) ==> i < self.entries.len() && self.entries[i as int].path@ == path@,
            r is None <==> !self@.dom().contains(path@),
    {
        proof {
            use_type_invariant(self);
        }
        let mut i: usize = 0;
        while i < self.entries.len()
            invariant
                self.paths_distinct(),
                i <= self.entries.len(),
                forall|j: int| 0 <= j < i ==> self.entries[j].path@ != path@,
            decreases self.entries.len() - i,
        {
            if self.entries[i].path == *path {
                proof {
                    self.lemma_entry_in_view(i as int);
                }
                return Some(i);
            }
            i += 1;
        }
        None
    }

    /// Whether the tree has a file at `path`.
    pub fn contains(&self, path: &String) -> (b: bool)
        ensures
            b == self@.dom().contains(path@),
    {
        self.find(path).is_some()
    }

    /// The content of the file at `path`, if there is one.
    pub fn get(&self, path: &String) -> (r: Option<Vec<u8>>)
        ensures
            r matches Some(c) ==> self@.dom().contains(path@) && c@ == self@[path@],
            r is None ==> !self@.dom().contains(path@),
    {
        match self.find(path) {
            Some(i) => {
                proof {
                    use_type_invariant(self);
                    self.lemma_entry_in_view(i as int);
                }
                Some(vstd::slice::slice_to_vec(self.entries[i].content.as_slice()))
            },
            None => None,
        }
    }

    /// Writes the file at `path`, replacing the file that was there.
    pub fn insert(&mut self, path: String, content: Vec<u8>)
        ensures
            final(self)@ == old(self)@.insert(path@, content@),
    {
        proof {
            use_type_invariant(&*self);
        }
        let ghost old_tree = *self;
        match self.find(&path) {
            Some(i) => {
                let mut entries = Vec::new();
                std::mem::swap(&mut entries, &mut self.entries);
                let ghost pre = entries@;
                entries.set(i, FileEntry { path, content });
                assert forall|a: int, b: int|
                    0 <= a < entries.len() && 0 <= b < entries.len() && a != b implies #[trigger] entries[a].path@
                    != #[trigger] entries[b].path@ by {
                    assert(old_tree.entries[a].path@ != old_tree.entries[b].path@);
                }
                *self = FileTree { entries };
                proof {
                    self.lemma_replaced(old_tree, i as int);
                }
            },
            None => {
                let mut entries = Vec::new();
                std::mem::swap(&mut entries, &mut self.entries);
                entries.push(FileEntry { path, content });
                assert forall|a: int, b: int|
                    0 <= a < entries.len() && 0 <= b < entries.len() && a != b implies #[trigger] entries[a].path@
                    != #[trigger] entries[b].path@ by {
                    if a < old_tree.entries.len() && b < old_tree.entries.len() {
                        assert(old_tree.entries[a].path@ != old_tree.entries[b].path@);
                    } else if a < old_tree.entries.len() {
                        old_tree.lemma_entry_in_view(a);
                    } else {
                        old_tree.lemma_entry_in_view(b);
                    }
                }
                *self = FileTree { entries };
                proof {
                    self.lemma_pushed(old_tree);
                }
            },
        }
    }

    proof fn lemma_replaced(&self, old_tree: FileTree, i: int)
        requires
            self.paths_distinct(),
            old_tree.paths_distinct(),
            0 <= i < old_tree.entries.len(),
            self.entries.len() == old_tree.entries.len(),
            forall|j: int| 0 <= j < self.entries.len() && j != i ==> self.entries[j] == old_tree.entries[j],
            self.entries[i].path@ == old_tree.entries[i].path@,
        ensures
            self@ == old_tree@.insert(self.entries[i].path@, self.entries[i].content@),
    {
        let p = self.entries[i].path@;
        let expected = old_tree@.insert(p, self.entries[i].content@);
        assert forall|q: Seq<char>| #[trigger] self@.dom().contains(q) <==> expected.dom().contains(q) by {
            if self@.dom().contains(q) {
                let k = choose|k: int| self.has_path_at(q, k);
                if k != i {
                    old_tree.lemma_entry_in_view(k);
                }
            }
            if old_tree@.dom().contains(q) {
                let k = choose|k: int| old_tree.has_path_at(q, k);
                if k != i {
                    self.lemma_entry_in_view(k);
                } else {
                    self.lemma_entry_in_view(i);
                }
            }
            if q == p {
                self.lemma_entry_in_view(i);
            }
        }
        assert forall|q: Seq<char>| #[trigger] self@.dom().contains(q) implies self@[q] == expected[q] by {
            let k = choose|k: int| self.has_path_at(q, k);
            self.lemma_entry_in_view(k);
            if k != i {
                old_tree.lemma_entry_in_view(k);
            }
        }
        assert(self@ =~= expected);
    }

    proof fn lemma_pushed(&self, old_tree: FileTree)
        requires
            self.paths_distinct(),
            old_tree.paths_distinct(),
            self.entries.len() == old_tree.entries.len() + 1,
            forall|j: int| 0 <= j < old_tree.entries.len() ==> self.entries[j] == old_tree.entries[j],
        ensures
            self@ == old_tree@.insert(self.entries@.last().path@, self.entries@.last().content@),
    {
        let n = old_tree.entries.len() as int;
        let p = self.entries[n].path@;
        let expected = old_tree@.insert(p, self.entries[n].content@);
        assert forall|q: Seq<char>| #[trigger] self@.dom().contains(q) <==> expected.dom().contains(q) by {
            if self@.dom().contains(q) {
                let k = choose|k: int| self.has_path_at(q, k);
                if k != n {
                    old_tree.lemma_entry_in_view(k);
                }
            }
            if old_tree@.dom().contains(q) {
                let k = choose|k: int| old_tree.has_path_at(q, k);
                self.lemma_entry_in_view(k);
            }
            if q == p {
                self.lemma_entry_in_view(n);
            }
        }
        assert forall|q: Seq<char>| #[trigger] self@.dom().contains(q) implies self@[q] == expected[q] by {
            let k = choose|k: int| self.has_path_at(q, k);
            self.lemma_entry_in_view(k);
            if k != n {
                old_tree.lemma_entry_in_view(k);
            }
        }
        assert(self@ =~= expected);
    }
}

/// Whether `p` is one of `paths`.
pub open spec fn listed(paths: Seq<String>, p: Seq<char>) -> bool {
    exists|i: int| 0 <= i < paths.len() && paths[i]@ == p
}

/// Whether `path` is one of `paths`.
pub fn is_listed(paths: &Vec<String>, path: &String) -> (b: bool)
    ensures
        b == listed(paths@, path@),
{
    let mut i: usize = 0;
    while i < paths.len()
        invariant
            i <= paths.len(),
            forall|j: int| 0 <= j < i ==> paths@[j]@ != path@,
        decreases paths.len() - i,
    {
        if paths[i] == *path {
            return true;
        }
        i += 1;
    }
    false
}

/// The files of a working copy that a snapshot records: all files on disk
/// but the ignored ones.
pub open spec fn tracked_files(disk: Map<Seq<char>, Seq<u8>>, ignored: Seq<String>) -> Map<
    Seq<char>,
    Seq<u8>,
> {
    Map::new(|p: Seq<char>| disk.dom().contains(p) && !listed(ignored, p), |p: Seq<char>| disk[p])
}

/// How a working copy is brought to a new tree.
pub struct CheckoutPlan {
    /// Remove everything in the working copy first, then write the tree.
    pub wipe: bool,
    /// Otherwise: the files to remove before the tree is written.
    pub remove: Vec<String>,
}

/// What the files of a working copy are after a checkout of `target` by
/// `plan`: the tree alone after a wipe; otherwise the tree, plus the files
/// that were on disk and are not removed by the plan.
pub open spec fn after_checkout(
    disk: Map<Seq<char>, Seq<u8>>,
    wipe: bool,
    remove: Seq<String>,
    target: Map<Seq<char>, Seq<u8>>,
) -> Map<Seq<char>, Seq<u8>> {
    if wipe {
        target
    } else {
        Map::new(
            |p: Seq<char>| target.dom().contains(p) || (disk.dom().contains(p) && !listed(remove, p)),
            |p: Seq<char>| if target.dom().contains(p) {
                target[p]
            } else {
                disk[p]
            },
        )
    }
}

impl FileTree {
    /// The snapshot of a working copy whose files on disk are `self`: every
    /// file but the `ignored` ones.
    pub fn snapshot(&self, ignored: &Vec<String>) -> (t: FileTree)
        ensures
            t@ == tracked_files(self@, ignored@),
    {
        proof {
            use_type_invariant(self);
        }
        let mut t = FileTree::new();
        let mut i: usize = 0;
        while i < self.entries.len()
            invariant
                self.paths_distinct(),
                i <= self.entries.len(),
                t@ == Map::new(
                    |p: Seq<char>|
                        (exists|j: int| 0 <= j < i && self.has_path_at(p, j)) && !listed(
                            ignored@,
                            p,
                        ),
                    |p: Seq<char>| self@[p],
                ),
            decreases self.entries.len() - i,
        {
            let ghost before = t@;
            if !is_listed(ignored, &self.entries[i].path) {
                let content = vstd::slice::slice_to_vec(self.entries[i].content.as_slice());
                t.insert(self.entries[i].path.clone(), content);
            }
            proof {
                self.lemma_entry_in_view(i as int);
                let goal = Map::new(
                    |p: Seq<char>|
                        (exists|j: int| 0 <= j < i + 1 && self.has_path_at(p, j)) && !listed(
                            ignored@,
                            p,
                        ),
                    |p: Seq<char>| self@[p],
                );
                assert forall|p: Seq<char>| #[trigger] goal.dom().contains(p) <==> t@.dom().contains(p) by {
                    if goal.dom().contains(p) {
                        let j = choose|j: int| 0 <= j < i + 1 && self.has_path_at(p, j);
                        if j < i {
                            assert(before.dom().contains(p));
                        }
                    }
                    if before.dom().contains(p) {
                        let j = choose|j: int| 0 <= j < i && self.has_path_at(p, j);
                        assert(0 <= j < i + 1 && self.has_path_at(p, j));
                    }
                    if p == self.entries[i as int].path@ {
                        assert(self.has_path_at(p, i as int));
                    }
                }
                assert(t@ =~= goal);
            }
            i += 1;
        }
        proof {
            assert forall|p: Seq<char>| #[trigger] self@.dom().contains(p) implies exists|j: int|
                0 <= j < self.entries.len() && self.has_path_at(p, j) by {
                let j = choose|j: int| self.has_path_at(p, j);
                assert(0 <= j < self.entries.len() && self.has_path_at(p, j));
            }
            assert(t@ =~= tracked_files(self@, ignored@));
        }
        t
    }

    /// Writes every file of `other` into `self`, replacing files at the same
    /// paths.
    pub fn write_all(&mut self, other: &FileTree)
        ensures
            final(self)@ == old(self)@.union_prefer_right(other@),
    {
        proof {
            use_type_invariant(other);
        }
        let ghost start = self@;
        let mut i: usize = 0;
        while i < other.entries.len()
            invariant
                other.paths_distinct(),
                i <= other.entries.len(),
                self@ == start.union_prefer_right(
                    Map::new(
                        |p: Seq<char>| exists|j: int| 0 <= j < i && other.has_path_at(p, j),
                        |p: Seq<char>| other@[p],
                    ),
                ),
            decreases other.entries.len() - i,
        {
            let ghost before = self@;
            let content = vstd::slice::slice_to_vec(other.entries[i].content.as_slice());
            self.insert(other.entries[i].path.clone(), content);
            proof {
                other.lemma_entry_in_view(i as int);
                let part = Map::new(
                    |p: Seq<char>| exists|j: int| 0 <= j < i + 1 && other.has_path_at(p, j),
                    |p: Seq<char>| other@[p],
                );
                let goal = start.union_prefer_right(part);
                assert forall|p: Seq<char>| #[trigger] goal.dom().contains(p) <==> self@.dom().contains(p) by {
                    if part.dom().contains(p) {
                        let j = choose|j: int| 0 <= j < i + 1 && other.has_path_at(p, j);
                        if j < i {
                            assert(before.dom().contains(p));
                        }
                    }
                    if before.dom().contains(p) && !start.dom().contains(p) {
                        let j = choose|j: int| 0 <= j < i && other.has_path_at(p, j);
                        assert(0 <= j < i + 1 && other.has_path_at(p, j));
                    }
                    if p == other.entries[i as int].path@ {
                        assert(other.has_path_at(p, i as int));
                    }
                }
                assert forall|p: Seq<char>| #[trigger] self@.dom().contains(p) implies self@[p] == goal[p] by {
                    if p != other.entries[i as int].path@ {
                        if part.dom().contains(p) {
                            let j = choose|j: int| 0 <= j < i + 1 && other.has_path_at(p, j);
                            assert(j != i);
                            assert(0 <= j < i && other.has_path_at(p, j));
                        }
                    }
                }
                assert(self@ =~= goal);
            }
            i += 1;
        }
        proof {
            assert forall|p: Seq<char>| #[trigger] other@.dom().contains(p) implies exists|j: int|
                0 <= j < other.entries.len() && other.has_path_at(p, j) by {
                let j = choose|j: int| other.has_path_at(p, j);
                assert(0 <= j < other.entries.len() && other.has_path_at(p, j));
            }
            let part = Map::new(
                |p: Seq<char>| exists|j: int| 0 <= j < other.entries.len() && other.has_path_at(p, j),
                |p: Seq<char>| other@[p],
            );
            assert(part =~= other@);
        }
    }
}

/// Plans the checkout of `target` into a working copy whose tree state is
/// `recorded` (`None` when the working copy has no tree state, for instance
/// after a crash in the middle of a job).
///
/// A working copy without a tree state, or one that is to be `clean`ed, is
/// wiped. Otherwise the recorded files that `target` does not have are
/// removed; files the tree state does not record are left alone.
pub fn plan_checkout(recorded: Option<&FileTree>, target: &FileTree, clean: bool) -> (plan:
    CheckoutPlan)
    ensures
        plan.wipe == (clean || recorded is None),
        plan.wipe ==> plan.remove@.len() == 0,
        !plan.wipe ==> forall|p: Seq<char>|
            #![trigger listed(plan.remove@, p)]
            listed(plan.remove@, p) <==> (recorded.unwrap()@.dom().contains(p)
                && !target@.dom().contains(p)),
{
    match recorded {
        Some(rec) if !clean => {
            proof {
                use_type_invariant(rec);
            }
            let mut remove: Vec<String> = Vec::new();
            let mut i: usize = 0;
            while i < rec.entries.len()
                invariant
                    rec.paths_distinct(),
                    i <= rec.entries.len(),
                    forall|p: Seq<char>|
                        #![trigger listed(remove@, p)]
                        listed(remove@, p) <==> ((exists|j: int|
                            0 <= j < i && rec.has_path_at(p, j)) && !target@.dom().contains(p)),
                decreases rec.entries.len() - i,
            {
                let ghost before = remove@;
                if !target.contains(&rec.entries[i].path) {
                    remove.push(rec.entries[i].path.clone());
                }
                proof {
                    assert forall|p: Seq<char>| #![trigger listed(remove@, p)]
                        listed(remove@, p) <==> ((exists|j: int|
                            0 <= j < i + 1 && rec.has_path_at(p, j)) && !target@.dom().contains(
                            p,
                        )) by {
                        if listed(remove@, p) {
                            let k = choose|k: int| 0 <= k < remove@.len() && remove@[k]@ == p;
                            if k < before.len() {
                                assert(listed(before, p));
                                let j = choose|j: int| 0 <= j < i && rec.has_path_at(p, j);
                                assert(0 <= j < i + 1 && rec.has_path_at(p, j));
                            } else {
                                assert(rec.has_path_at(p, i as int));
                            }
                        }
                        if (exists|j: int| 0 <= j < i + 1 && rec.has_path_at(p, j))
                            && !target@.dom().contains(p) {
                            let j = choose|j: int| 0 <= j < i + 1 && rec.has_path_at(p, j);
                            if j < i {
                                assert(listed(before, p));
                                let k = choose|k: int| 0 <= k < before.len() && before[k]@ == p;
                                assert(remove@[k] == before[k]);
                            } else {
                                assert(remove@[remove@.len() - 1]@ == p);
                            }
                        }
                    }
                }
                i += 1;
            }
            proof {
                assert forall|p: Seq<char>| #![trigger listed(remove@, p)]
                    listed(remove@, p) <==> (rec@.dom().contains(p) && !target@.dom().contains(
                        p,
                    )) by {
                    if rec@.dom().contains(p) {
                        let j = choose|j: int| rec.has_path_at(p, j);
                        assert(0 <= j < rec.entries.len() && rec.has_path_at(p, j));
                    }
                    if exists|j: int| 0 <= j < rec.entries.len() && rec.has_path_at(p, j) {
                        let j = choose|j: int| 0 <= j < rec.entries.len() && rec.has_path_at(p, j);
                        rec.lemma_entry_in_view(j);
                    }
                }
            }
            CheckoutPlan { wipe: false, remove }
        },
        _ => CheckoutPlan { wipe: true, remove: Vec::new() },
    }
}

/// Carries out `plan` on a working copy whose files are `disk`, bringing it
/// to `target`, and returns the files it then has.
pub fn apply_checkout(disk: &FileTree, plan: &CheckoutPlan, target: &FileTree) -> (r: FileTree)
    ensures
        r@ == after_checkout(disk@, plan.wipe, plan.remove@, target@),
{
    if plan.wipe {
        let mut r = FileTree::new();
        r.write_all(target);
        assert(r@ =~= target@);
        r
    } else {
        let mut r = disk.snapshot(&plan.remove);
        r.write_all(target);
        assert(r@ =~= after_checkout(disk@, plan.wipe, plan.remove@, target@));
        r
    }
}

/// The tree that a checkout of `target` leaves in a working copy whose files
/// were `disk` and whose tree state was `recorded`.
pub open spec fn checked_out(
    disk: Map<Seq<char>, Seq<u8>>,
    recorded: Option<Map<Seq<char>, Seq<u8>>>,
    target: Map<Seq<char>, Seq<u8>>,
    clean: bool,
) -> Map<Seq<char>, Seq<u8>> {
    if clean || recorded is None {
        target
    } else {
        Map::new(
            |p: Seq<char>| target.dom().contains(p) || (disk.dom().contains(p)
                && !recorded.unwrap().dom().contains(p)),
            |p: Seq<char>| if target.dom().contains(p) {
                target[p]
            } else {
                disk[p]
            },
        )
    }
}

/// A planned and applied checkout gives `checked_out`.
pub proof fn lemma_plan_gives_checked_out(
    disk: Map<Seq<char>, Seq<u8>>,
    recorded: Option<Map<Seq<char>, Seq<u8>>>,
    target: Map<Seq<char>, Seq<u8>>,
    clean: bool,
    wipe: bool,
    remove: Seq<String>,
)
    requires
        wipe == (clean || recorded is None),
        !wipe ==> forall|p: Seq<char>|
            #![trigger listed(remove, p)]
            listed(remove, p) <==> (recorded.unwrap().dom().contains(p) && !target.dom().contains(
                p,
            )),
    ensures
        after_checkout(disk, wipe, remove, target) == checked_out(disk, recorded, target, clean),
{
    if !wipe {
        assert(after_checkout(disk, wipe, remove, target) =~= checked_out(
            disk,
            recorded,
            target,
            clean,
        ));
    }
}

/// Files do not leak from one job into the next. If the tree state of a
/// reused working copy records exactly its tracked files (as it does after
/// every snapshot), a checkout of a tree without ignored paths leaves a
/// working copy whose tracked files are exactly that tree: nothing of an
/// earlier commit, and nothing an earlier command created, is snapshotted
/// into the next commit.
pub proof fn lemma_checkout_does_not_leak_files(
    disk: Map<Seq<char>, Seq<u8>>,
    recorded: Option<Map<Seq<char>, Seq<u8>>>,
    target: Map<Seq<char>, Seq<u8>>,
    clean: bool,
    ignored: Seq<String>,
)
    requires
        recorded matches Some(r) ==> r == tracked_files(disk, ignored),
        forall|p: Seq<char>| #[trigger] target.dom().contains(p) ==> !listed(ignored, p),
    ensures
        tracked_files(checked_out(disk, recorded, target, clean), ignored) == target,
{
    assert(tracked_files(checked_out(disk, recorded, target, clean), ignored) =~= target);
}

/// Ignored files survive a checkout that does not wipe the working copy:
/// build artifacts and caches of earlier jobs stay in a reused working copy.
pub proof fn lemma_checkout_keeps_ignored_files(
    disk: Map<Seq<char>, Seq<u8>>,
    recorded: Map<Seq<char>, Seq<u8>>,
    target: Map<Seq<char>, Seq<u8>>,
    ignored: Seq<String>,
    p: Seq<char>,
)
    requires
        recorded == tracked_files(disk, ignored),
        disk.dom().contains(p),
        listed(ignored, p),
        !target.dom().contains(p),
    ensures
        checked_out(disk, Some(recorded), target, false).dom().contains(p),
        checked_out(disk, Some(recorded), target, false)[p] == disk[p],
{
}

/// A checkout that cleans the working copy, or one into a working copy
/// without a tree state, leaves exactly the checked-out tree: nothing of the
/// earlier contents survives.
pub proof fn lemma_wiped_checkout_is_exact(
    disk: Map<Seq<char>, Seq<u8>>,
    recorded: Option<Map<Seq<char>, Seq<u8>>>,
    target: Map<Seq<char>, Seq<u8>>,
    clean: bool,
)
    requires
        clean || recorded is None,
    ensures
        checked_out(disk, recorded, target, clean) == target,
{
}

} // verus!
