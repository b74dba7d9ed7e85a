//! An explicit model of the version-control backend the reconciler
//! consumes: a commit graph, the remote-tracking branch refs, and the local
//! revisions.
//!
//! Commits are numbered in the order they were created, so every parent has
//! a smaller number than its child; that makes ancestry walks terminate and
//! gives "nearest common ancestor" a simple reading: the highest-numbered
//! common ancestor.

use vstd::prelude::*;

use crate::error::{Error, ErrorKind};
use crate::message::Message;
use crate::utils::str_eq;

verus! {

/// The stable identity of a revision; it survives edits and rebases.
#[derive(Debug, Clone)]
pub struct ChangeId(pub String);

impl ChangeId {
    pub fn from(s: &str) -> (r: Self)
        ensures
            r.0@ == s@,
    {
        ChangeId(s.to_owned())
    }

    pub fn as_ref(&self) -> (r: &str)
        ensures
            r@ == self.0@,
    {
        self.0.as_str()
    }
}

impl PartialEq for ChangeId {
    fn eq(&self, other: &ChangeId) -> (r: bool) {
        self.0 == other.0
    }
}

impl vstd::std_specs::cmp::PartialEqSpecImpl for ChangeId {
    open spec fn obeys_eq_spec() -> bool {
        true
    }

    open spec fn eq_spec(&self, other: &ChangeId) -> bool {
        self.0@ == other.0@
    }
}

/// A local change: its identity, where it points, its parents, and its
/// trailers.
#[derive(Debug, Clone)]
pub struct Revision {
    pub id: ChangeId,
    /// The commit this revision currently points at.
    pub commit: usize,
    pub parent_ids: Vec<ChangeId>,
    pub pull_request_number: Option<u64>,
    pub title: String,
    pub message: Message,
    /// Local branch labels already pointing at this revision.
    pub bookmarks: Vec<String>,
    pub conflicted: bool,
    pub divergent: bool,
}

/// One commit of the graph: its parents, a fingerprint of its tree, and its
/// text.
#[derive(Debug, Clone)]
pub struct Commit {
    pub parents: Vec<usize>,
    pub tree: u64,
    pub message: String,
}

/// The version-control state the reconciler reads and writes: the commit
/// graph and the remote-tracking branches.
#[derive(Debug)]
pub struct VersionControlBackend {
    commits: Vec<Commit>,
    branches: Vec<(String, usize)>,
    revisions: Vec<Revision>,
}

impl VersionControlBackend {
    pub closed spec fn spec_commits(&self) -> Seq<Commit> {
        self.commits@
    }

    pub closed spec fn spec_branches(&self) -> Seq<(String, usize)> {
        self.branches@
    }

    pub closed spec fn spec_revisions(&self) -> Seq<Revision> {
        self.revisions@
    }

    /// Every parent is an earlier commit, no branch name repeats, and every
    /// branch points at a commit of the graph.
    pub open spec fn wf(&self) -> bool {
        &&& forall|i: int, k: int|
            0 <= i < self.spec_commits().len() && 0 <= k
                < self.spec_commits()[i].parents@.len() ==> #[trigger] self.spec_commits()[i].parents@[k]
                < i
        &&& forall|i: int, j: int|
            0 <= i < j < self.spec_branches().len() ==> #[trigger] self.spec_branches()[i].0@
                != #[trigger] self.spec_branches()[j].0@
        &&& forall|i: int|
            0 <= i < self.spec_branches().len() ==> #[trigger] self.spec_branches()[i].1
                < self.spec_commits().len()
        &&& forall|i: int|
            0 <= i < self.spec_revisions().len() ==> #[trigger] self.spec_revisions()[i].commit
                < self.spec_commits().len()
    }

    /// The one commit that is an ancestor of both `a` and `b` and that every
    /// common ancestor precedes, when the two share any ancestor at all.
    pub open spec fn spec_merge_base(&self, a: int, b: int) -> Option<int> {
        if exists|c: int| self.is_ancestor_of(c, a) && self.is_ancestor_of(c, b) {
            Some(
                choose|m: int|
                    self.is_ancestor_of(m, a) && self.is_ancestor_of(m, b) && forall|c: int|
                        self.is_ancestor_of(c, a) && self.is_ancestor_of(c, b) ==> c <= m,
            )
        } else {
            None
        }
    }

    /// Is `a` an ancestor of `b` (or `b` itself)?
    pub open spec fn is_ancestor_of(&self, a: int, b: int) -> bool
        recommends
            self.wf(),
            0 <= b < self.spec_commits().len(),
        decreases b,
    {
        a == b || (self.wf() && 0 <= b < self.spec_commits().len() && exists|k: int|
            0 <= k < self.spec_commits()[b].parents@.len() && self.is_ancestor_of(
                a,
                #[trigger] self.spec_commits()[b].parents@[k] as int,
            ))
    }

    /// The tree fingerprint of a commit.
    pub open spec fn spec_tree_of(&self, c: int) -> u64
        recommends
            0 <= c < self.spec_commits().len(),
    {
        self.spec_commits()[c].tree
    }

    /// The commit a branch points at, by name.
    pub open spec fn spec_branch_target(&self, name: Seq<char>) -> Option<usize> {
        spec_branch_target_of(self.spec_branches(), name)
    }

    /// An empty graph with no branches.
    pub fn new() -> (r: Self)
        ensures
            r.wf(),
            r.spec_commits().len() == 0,
            r.spec_branches().len() == 0,
            r.spec_revisions().len() == 0,
    {
        VersionControlBackend { commits: Vec::new(), branches: Vec::new(), revisions: Vec::new() }
    }

    pub fn commit_count(&self) -> (r: usize)
        ensures
            r == self.spec_commits().len(),
    {
        self.commits.len()
    }

    pub fn tree_of(&self, c: usize) -> (r: u64)
        requires
            c < self.spec_commits().len(),
        ensures
            r == self.spec_tree_of(c as int),
    {
        self.commits[c].tree
    }

    /// The text of a commit.
    pub fn message_of(&self, c: usize) -> (r: &String)
        requires
            c < self.spec_commits().len(),
        ensures
            r == &self.spec_commits()[c as int].message,
    {
        &self.commits[c].message
    }

    pub fn parents_of(&self, c: usize) -> (r: &Vec<usize>)
        requires
            c < self.spec_commits().len(),
        ensures
            r@ == self.spec_commits()[c as int].parents@,
    {
        &self.commits[c].parents
    }

    /// Appends a new commit with the given parents, tree and text; its
    /// number is returned.
    pub fn add_commit(&mut self, parents: Vec<usize>, tree: u64, message: String) -> (r: usize)
        requires
            old(self).wf(),
            forall|k: int| 0 <= k < parents@.len() ==> #[trigger] parents@[k] < old(self).spec_commits().len(),
        ensures
            final(self).wf(),
            r == old(self).spec_commits().len(),
            final(self).spec_commits() == old(self).spec_commits().push(
                Commit { parents, tree, message },
            ),
            final(self).spec_branches() == old(self).spec_branches(),
            final(self).spec_revisions() == old(self).spec_revisions(),
    {
        let r = self.commits.len();
        self.commits.push(Commit { parents, tree, message });
        proof {
            assert forall|i: int, k: int|
                0 <= i < self.spec_commits().len() && 0 <= k
                    < self.spec_commits()[i].parents@.len() implies #[trigger] self.spec_commits()[i].parents@[k]
                < i by {
                if i < old(self).spec_commits().len() {
                    assert(old(self).spec_commits()[i].parents@[k] < i);
                } else {
                    assert(self.spec_commits()[i] == (Commit { parents, tree, message }));
                }
            }
            assert(self.spec_branches() == old(self).spec_branches());
            assert forall|x: int, y: int|
                0 <= x < y < self.spec_branches().len() implies #[trigger] self.spec_branches()[x].0@
                != #[trigger] self.spec_branches()[y].0@ by {
                assert(old(self).spec_branches()[x].0@ != old(self).spec_branches()[y].0@);
            }
        }
        r
    }

    /// See `is_ancestor_of`.
    pub fn is_ancestor(&self, a: usize, b: usize) -> (r: bool)
        requires
            self.wf(),
            a < self.spec_commits().len(),
            b < self.spec_commits().len(),
        ensures
            r == self.is_ancestor_of(a as int, b as int),
        decreases b,
    {
        if a == b {
            return true;
        }
        let n = self.commits[b].parents.len();
        let mut k: usize = 0;
        while k < n
            invariant
                self.wf(),
                a < self.spec_commits().len(),
                b < self.spec_commits().len(),
                n == self.spec_commits()[b as int].parents@.len(),
                k <= n,
                a != b,
                forall|j: int|
                    0 <= j < k ==> !self.is_ancestor_of(
                        a as int,
                        #[trigger] self.spec_commits()[b as int].parents@[j] as int,
                    ),
            decreases n - k,
        {
            let p = self.commits[b].parents[k];
            if self.is_ancestor(a, p) {
                return true;
            }
            k = k + 1;
        }
        false
    }

    /// An ancestor never has a larger number than its descendant.
    pub proof fn lemma_ancestor_le(&self, a: int, b: int)
        requires
            self.wf(),
            0 <= b < self.spec_commits().len(),
            self.is_ancestor_of(a, b),
        ensures
            0 <= a <= b,
        decreases b,
    {
        if a != b {
            let k = choose|k: int|
                0 <= k < self.spec_commits()[b].parents@.len() && self.is_ancestor_of(
                    a,
                    #[trigger] self.spec_commits()[b].parents@[k] as int,
                );
            self.lemma_ancestor_le(a, self.spec_commits()[b].parents@[k] as int);
        }
    }

    /// Ancestry carries over ancestors of ancestors.
    pub proof fn lemma_ancestor_trans(&self, a: int, b: int, c: int)
        requires
            self.wf(),
            0 <= c < self.spec_commits().len(),
            0 <= b < self.spec_commits().len(),
            self.is_ancestor_of(a, b),
            self.is_ancestor_of(b, c),
        ensures
            self.is_ancestor_of(a, c),
        decreases c,
    {
        if b != c {
            let k = choose|k: int|
                0 <= k < self.spec_commits()[c].parents@.len() && self.is_ancestor_of(
                    b,
                    #[trigger] self.spec_commits()[c].parents@[k] as int,
                );
            self.lemma_ancestor_trans(a, b, self.spec_commits()[c].parents@[k] as int);
        }
    }

    /// The nearest common ancestor of two commits: the highest-numbered
    /// commit that is an ancestor of both, or `None` when they share none.
    pub fn merge_base(&self, a: usize, b: usize) -> (r: Option<usize>)
        requires
            self.wf(),
            a < self.spec_commits().len(),
            b < self.spec_commits().len(),
        ensures
            (match r {
                Some(m) => self.spec_merge_base(a as int, b as int) == Some(m as int),
                None => self.spec_merge_base(a as int, b as int) is None,
            }),
            match r {
                Some(m) => self.is_ancestor_of(m as int, a as int) && self.is_ancestor_of(
                    m as int,
                    b as int,
                ) && forall|c: int|
                    self.is_ancestor_of(c, a as int) && self.is_ancestor_of(c, b as int) ==> c
                        <= m,
                None => forall|c: int|
                    !(self.is_ancestor_of(c, a as int) && self.is_ancestor_of(c, b as int)),
            },
    {
        let n = self.commits.len();
        let top = if a < b {
            a
        } else {
            b
        };
        proof {
            assert forall|c: int| top + 1 <= c implies !(self.is_ancestor_of(c, a as int)
                && self.is_ancestor_of(c, b as int)) by {
                if self.is_ancestor_of(c, a as int) && self.is_ancestor_of(c, b as int) {
                    self.lemma_ancestor_le(c, a as int);
                    self.lemma_ancestor_le(c, b as int);
                }
            }
        }
        let mut m: usize = top + 1;
        while m > 0
            invariant
                self.wf(),
                a < self.spec_commits().len(),
                b < self.spec_commits().len(),
                m <= top + 1,
                top < self.spec_commits().len(),
                top == if a < b {
                    a as int
                } else {
                    b as int
                },
                forall|c: int|
                    m <= c ==> !(self.is_ancestor_of(c, a as int) && self.is_ancestor_of(
                        c,
                        b as int,
                    )),
            decreases m,
        {
            m = m - 1;
            if self.is_ancestor(m, a) && self.is_ancestor(m, b) {
                proof {
                    let mm = choose|x: int|
                        self.is_ancestor_of(x, a as int) && self.is_ancestor_of(x, b as int)
                            && forall|c: int|
                            self.is_ancestor_of(c, a as int) && self.is_ancestor_of(c, b as int)
                                ==> c <= x;
                    assert(self.is_ancestor_of(m as int, a as int) && self.is_ancestor_of(
                        m as int,
                        b as int,
                    ) && forall|c: int|
                        self.is_ancestor_of(c, a as int) && self.is_ancestor_of(c, b as int) ==> c
                            <= m as int);
                    assert(mm == m as int);
                }
                return Some(m);
            }
        }
        proof {
            assert forall|c: int| !(self.is_ancestor_of(c, a as int) && self.is_ancestor_of(
                c,
                b as int,
            )) by {
                if self.is_ancestor_of(c, a as int) && self.is_ancestor_of(c, b as int) {
                    self.lemma_ancestor_le(c, a as int);
                    self.lemma_ancestor_le(c, b as int);
                }
            }
        }
        None
    }

    /// When one commit is an ancestor of the other, it is itself their
    /// nearest common ancestor.
    pub proof fn lemma_merge_base_of_ancestor(&self, a: int, b: int)
        requires
            self.wf(),
            0 <= a < self.spec_commits().len(),
            0 <= b < self.spec_commits().len(),
            self.is_ancestor_of(a, b),
        ensures
            self.is_ancestor_of(a, a) && self.is_ancestor_of(a, b),
            forall|c: int| self.is_ancestor_of(c, a) && self.is_ancestor_of(c, b) ==> c <= a,
    {
        assert forall|c: int| self.is_ancestor_of(c, a) && self.is_ancestor_of(c, b) implies c
            <= a by {
            self.lemma_ancestor_le(c, a);
        }
    }

    /// The commit the named branch points at, if the branch exists.
    pub fn branch_target(&self, name: &str) -> (r: Option<usize>)
        requires
            self.wf(),
        ensures
            r == self.spec_branch_target(name@),
    {
        let n = self.branches.len();
        let mut i: usize = 0;
        while i < n
            invariant
                self.wf(),
                n == self.spec_branches().len(),
                i <= n,
                forall|j: int| 0 <= j < i ==> #[trigger] self.spec_branches()[j].0@ != name@,
            decreases n - i,
        {
            if str_eq(self.branches[i].0.as_str(), name) {
                proof {
                    let j = choose|j: int|
                        0 <= j < self.spec_branches().len()
                            && #[trigger] self.spec_branches()[j].0@ == name@;
                    assert(j == i);
                }
                return Some(self.branches[i].1);
            }
            i = i + 1;
        }
        proof {
            assert(!exists|j: int|
                0 <= j < self.spec_branches().len() && #[trigger] self.spec_branches()[j].0@
                    == name@);
        }
        None
    }

    /// Points the named branch at `c`, keeping every other branch where it
    /// was; the branch is created when it does not exist yet.
    pub fn set_branch(&mut self, name: &str, c: usize)
        requires
            old(self).wf(),
            c < old(self).spec_commits().len(),
        ensures
            final(self).wf(),
            final(self).spec_commits() == old(self).spec_commits(),
            final(self).spec_revisions() == old(self).spec_revisions(),
            final(self).spec_branch_target(name@) == Some(c),
            forall|other: Seq<char>|
                other != name@ ==> final(self).spec_branch_target(other) == old(self).spec_branch_target(other),
    {
        let n = self.branches.len();
        let mut i: usize = 0;
        while i < n
            invariant
                *self == *old(self),
                old(self).wf(),
                c < self.spec_commits().len(),
                n == self.spec_branches().len(),
                i <= n,
                forall|j: int| 0 <= j < i ==> #[trigger] self.spec_branches()[j].0@ != name@,
            decreases n - i,
        {
            if str_eq(self.branches[i].0.as_str(), name) {
                let ghost prev = self.branches@;
                let target: (String, usize) = (name.to_owned(), c);
                self.branches.set(i, target);
                proof {
                    self.lemma_branch_update(prev, i as int, name@, c);
                }
                return ;
            }
            i = i + 1;
        }
        let ghost prev = self.branches@;
        self.branches.push((name.to_owned(), c));
        proof {
            self.lemma_branch_push(prev, name@, c);
        }
    }

    /// Helper for `set_branch`: replacing the entry that held `name` leaves
    /// every other name where it was.
    proof fn lemma_branch_update(&self, prev: Seq<(String, usize)>, i: int, name: Seq<char>, c: usize)
        requires
            0 <= i < prev.len(),
            prev[i].0@ == name,
            forall|j: int| 0 <= j < i ==> #[trigger] prev[j].0@ != name,
            forall|x: int, y: int|
                0 <= x < y < prev.len() ==> #[trigger] prev[x].0@ != #[trigger] prev[y].0@,
            self.spec_branches().len() == prev.len(),
            self.spec_branches()[i].0@ == name,
            self.spec_branches()[i].1 == c,
            forall|j: int| 0 <= j < prev.len() && j != i ==> self.spec_branches()[j] == prev[j],
        ensures
            forall|x: int, y: int|
                0 <= x < y < self.spec_branches().len() ==> #[trigger] self.spec_branches()[x].0@
                    != #[trigger] self.spec_branches()[y].0@,
            self.spec_branch_target(name) == Some(c),
            forall|other: Seq<char>|
                other != name ==> self.spec_branch_target(other) == spec_branch_target_of(
                    prev,
                    other,
                ),
    {
        assert forall|x: int, y: int|
            0 <= x < y < self.spec_branches().len() implies #[trigger] self.spec_branches()[x].0@
            != #[trigger] self.spec_branches()[y].0@ by {
            assert(prev[x].0@ != prev[y].0@);
        }
        assert(self.spec_branches()[i].0@ == name);
        assert forall|other: Seq<char>| other != name implies self.spec_branch_target(other)
            == spec_branch_target_of(prev, other) by {
            if exists|j: int| 0 <= j < prev.len() && #[trigger] prev[j].0@ == other {
                let j = choose|j: int| 0 <= j < prev.len() && #[trigger] prev[j].0@ == other;
                assert(self.spec_branches()[j].0@ == other);
            } else {
                if exists|j: int|
                    0 <= j < self.spec_branches().len() && #[trigger] self.spec_branches()[j].0@
                        == other {
                    let j = choose|j: int|
                        0 <= j < self.spec_branches().len()
                            && #[trigger] self.spec_branches()[j].0@ == other;
                    assert(prev[j].0@ == other);
                }
            }
        }
    }

    /// Helper for `set_branch`: appending a fresh name leaves every other
    /// name where it was.
    proof fn lemma_branch_push(&self, prev: Seq<(String, usize)>, name: Seq<char>, c: usize)
        requires
            forall|j: int| 0 <= j < prev.len() ==> #[trigger] prev[j].0@ != name,
            forall|x: int, y: int|
                0 <= x < y < prev.len() ==> #[trigger] prev[x].0@ != #[trigger] prev[y].0@,
            self.spec_branches().len() == prev.len() + 1,
            self.spec_branches()[prev.len() as int].0@ == name,
            self.spec_branches()[prev.len() as int].1 == c,
            forall|j: int| 0 <= j < prev.len() ==> self.spec_branches()[j] == prev[j],
        ensures
            forall|x: int, y: int|
                0 <= x < y < self.spec_branches().len() ==> #[trigger] self.spec_branches()[x].0@
                    != #[trigger] self.spec_branches()[y].0@,
            self.spec_branch_target(name) == Some(c),
            forall|other: Seq<char>|
                other != name ==> self.spec_branch_target(other) == spec_branch_target_of(
                    prev,
                    other,
                ),
    {
        assert forall|x: int, y: int|
            0 <= x < y < self.spec_branches().len() implies #[trigger] self.spec_branches()[x].0@
            != #[trigger] self.spec_branches()[y].0@ by {
            if y < prev.len() {
                assert(prev[x].0@ != prev[y].0@);
            } else {
                assert(prev[x].0@ != name);
            }
        }
        assert(self.spec_branches()[prev.len() as int].0@ == name);
        assert forall|other: Seq<char>| other != name implies self.spec_branch_target(other)
            == spec_branch_target_of(prev, other) by {
            if exists|j: int| 0 <= j < prev.len() && #[trigger] prev[j].0@ == other {
                let j = choose|j: int| 0 <= j < prev.len() && #[trigger] prev[j].0@ == other;
                assert(self.spec_branches()[j].0@ == other);
            } else {
                if exists|j: int|
                    0 <= j < self.spec_branches().len() && #[trigger] self.spec_branches()[j].0@
                        == other {
                    let j = choose|j: int|
                        0 <= j < self.spec_branches().len()
                            && #[trigger] self.spec_branches()[j].0@ == other;
                    assert(j < prev.len());
                    assert(prev[j].0@ == other);
                }
            }
        }
    }
}

impl VersionControlBackend {
    pub fn revision_count(&self) -> (r: usize)
        ensures
            r == self.spec_revisions().len(),
    {
        self.revisions.len()
    }

    pub fn revision_at(&self, i: usize) -> (r: &Revision)
        requires
            i < self.spec_revisions().len(),
        ensures
            *r == self.spec_revisions()[i as int],
    {
        &self.revisions[i]
    }

    /// Records a new local revision.
    pub fn add_revision(&mut self, rev: Revision)
        requires
            old(self).wf(),
            rev.commit < old(self).spec_commits().len(),
        ensures
            final(self).wf(),
            final(self).spec_revisions() == old(self).spec_revisions().push(rev),
            final(self).spec_commits() == old(self).spec_commits(),
            final(self).spec_branches() == old(self).spec_branches(),
    {
        let ghost prev = self.revisions@;
        self.revisions.push(rev);
        proof {
            assert forall|i: int|
                0 <= i < self.spec_revisions().len() implies #[trigger] self.spec_revisions()[i].commit
                < self.spec_commits().len() by {
                if i < prev.len() {
                    assert(old(self).spec_revisions()[i].commit < self.spec_commits().len());
                }
            }
            lemma_wf_transfer(old(self), self);
        }
    }

    /// Writes a revision's description back: the stored revision with the
    /// same identity takes over the given message, title and request number.
    pub fn update_revision_message(&mut self, rev: &Revision) -> (r: Result<(), Error>)
        requires
            old(self).wf(),
        ensures
            final(self).wf(),
            final(self).spec_commits() == old(self).spec_commits(),
            final(self).spec_branches() == old(self).spec_branches(),
            match r {
                Ok(()) => exists|i: int|
                    {
                        &&& 0 <= i < old(self).spec_revisions().len()
                        &&& #[trigger] old(self).spec_revisions()[i].id.0@ == rev.id.0@
                        &&& final(self).spec_revisions().len() == old(self).spec_revisions().len()
                        &&& (forall|j: int|
                            0 <= j < old(self).spec_revisions().len() && j != i ==> final(self).spec_revisions()[j] == old(self).spec_revisions()[j])
                        &&& crate::message::message_like(
                            final(self).spec_revisions()[i].message,
                            rev.message,
                        )
                        &&& final(self).spec_revisions()[i].title@ == rev.title@
                        &&& final(self).spec_revisions()[i].pull_request_number
                            == rev.pull_request_number
                        &&& final(self).spec_revisions()[i].id == old(self).spec_revisions()[i].id
                        &&& final(self).spec_revisions()[i].commit == old(self).spec_revisions()[i].commit
                    },
                Err(e) => *final(self) == *old(self) && e.spec_kind() == ErrorKind::BackendError,
            },
    {
        let n = self.revisions.len();
        let mut i: usize = 0;
        while i < n
            invariant
                *self == *old(self),
                old(self).wf(),
                n == self.spec_revisions().len(),
                i <= n,
            decreases n - i,
        {
            if str_eq(self.revisions[i].id.0.as_str(), rev.id.as_ref()) {
                let ghost prev = self.revisions@;
                self.revisions[i].message = rev.message.duplicate();
                self.revisions[i].title = rev.title.clone();
                self.revisions[i].pull_request_number = rev.pull_request_number;
                proof {
                    assert forall|k: int|
                        0 <= k < self.spec_revisions().len() implies #[trigger] self.spec_revisions()[k].commit
                        < self.spec_commits().len() by {
                        assert(prev[k].commit < self.spec_commits().len());
                        if k != i {
                            assert(self.spec_revisions()[k] == prev[k]);
                        }
                    }
                    lemma_wf_transfer(old(self), self);
                }
                return Ok(());
            }
            i = i + 1;
        }
        Err(Error::new("No revision with this change id"))
    }

    /// Rebases a revision onto `onto`: its content is kept, its new commit
    /// has `onto` as its only parent.
    pub fn rebase_revision(&mut self, i: usize, onto: usize) -> (c: usize)
        requires
            old(self).wf(),
            i < old(self).spec_revisions().len(),
            onto < old(self).spec_commits().len(),
        ensures
            final(self).wf(),
            c == old(self).spec_commits().len(),
            final(self).spec_commits().len() == old(self).spec_commits().len() + 1,
            forall|j: int|
                0 <= j < old(self).spec_commits().len() ==> #[trigger] final(self).spec_commits()[j] == old(self).spec_commits()[j],
            final(self).spec_commits().last().parents@ == seq![onto as usize],
            final(self).spec_branches() == old(self).spec_branches(),
            final(self).spec_revisions().len() == old(self).spec_revisions().len(),
            forall|j: int|
                0 <= j < old(self).spec_revisions().len() && j != i ==> final(self).spec_revisions()[j] == old(self).spec_revisions()[j],
            final(self).spec_revisions()[i as int].commit == c,
            final(self).spec_revisions()[i as int].id == old(self).spec_revisions()[i as int].id,
            final(self).spec_revisions()[i as int].message == old(self).spec_revisions()[i as int].message,
            final(self).spec_tree_of(c as int) == old(self).spec_tree_of(
                old(self).spec_revisions()[i as int].commit as int,
            ),
            final(self).is_ancestor_of(onto as int, c as int),
    {
        let tree = self.commits[self.revisions[i].commit].tree;
        let text = self.commits[self.revisions[i].commit].message.clone();
        let mut parents: Vec<usize> = Vec::new();
        parents.push(onto);
        let ghost ps = parents@;
        let c = self.add_commit(parents, tree, text);
        let ghost mid = *self;
        self.revisions[i].commit = c;
        proof {
            assert(ps =~= seq![onto]);
            assert forall|k: int|
                0 <= k < self.spec_revisions().len() implies #[trigger] self.spec_revisions()[k].commit
                < self.spec_commits().len() by {
                if k != i {
                    assert(self.spec_revisions()[k] == mid.spec_revisions()[k]);
                }
            }
            lemma_wf_transfer(&mid, self);
            assert(self.spec_commits()[c as int].parents@[0] == onto);
            assert(self.is_ancestor_of(onto as int, onto as int));
            assert(self.is_ancestor_of(onto as int, c as int));
        }
        c
    }

    /// Folds the content at `head` into the revision: its new commit keeps
    /// the old parents but takes `head`'s tree.  Trees are opaque
    /// fingerprints here, so the model's fold takes the remote content
    /// wholesale; merging it with unsynchronized local edits is the real
    /// backend's work.
    pub fn squash_copy_head(&mut self, i: usize, head: usize) -> (c: usize)
        requires
            old(self).wf(),
            i < old(self).spec_revisions().len(),
            head < old(self).spec_commits().len(),
        ensures
            final(self).wf(),
            c == old(self).spec_commits().len(),
            final(self).spec_commits().len() == old(self).spec_commits().len() + 1,
            forall|j: int|
                0 <= j < old(self).spec_commits().len() ==> #[trigger] final(self).spec_commits()[j] == old(self).spec_commits()[j],
            final(self).spec_commits().last().parents@ == old(self).spec_commits()[old(self).spec_revisions()[i as int].commit as int].parents@,
            final(self).spec_branches() == old(self).spec_branches(),
            final(self).spec_revisions().len() == old(self).spec_revisions().len(),
            forall|j: int|
                0 <= j < old(self).spec_revisions().len() && j != i ==> final(self).spec_revisions()[j] == old(self).spec_revisions()[j],
            final(self).spec_revisions()[i as int].commit == c,
            final(self).spec_revisions()[i as int].id == old(self).spec_revisions()[i as int].id,
            final(self).spec_revisions()[i as int].message == old(self).spec_revisions()[i as int].message,
            final(self).spec_tree_of(c as int) == old(self).spec_tree_of(head as int),
    {
        let old_commit = self.revisions[i].commit;
        let tree = self.commits[head].tree;
        let text = self.commits[old_commit].message.clone();
        let parents = self.commits[old_commit].parents.clone();
        proof {
            assert(forall|k: int|
                0 <= k < self.spec_commits()[old_commit as int].parents@.len()
                    ==> #[trigger] self.spec_commits()[old_commit as int].parents@[k]
                    < old_commit);
        }
        let c = self.add_commit(parents, tree, text);
        let ghost mid = *self;
        self.revisions[i].commit = c;
        proof {
            assert forall|k: int|
                0 <= k < self.spec_revisions().len() implies #[trigger] self.spec_revisions()[k].commit
                < self.spec_commits().len() by {
                if k != i {
                    assert(self.spec_revisions()[k] == mid.spec_revisions()[k]);
                }
            }
            lemma_wf_transfer(&mid, self);
        }
        c
    }

    /// Sets one trailer on a stored revision.
    pub fn set_trailer(&mut self, i: usize, k: crate::message::MessageSection, v: String)
        requires
            old(self).wf(),
            i < old(self).spec_revisions().len(),
        ensures
            final(self).wf(),
            final(self).spec_commits() == old(self).spec_commits(),
            final(self).spec_branches() == old(self).spec_branches(),
            final(self).spec_revisions().len() == old(self).spec_revisions().len(),
            forall|j: int|
                0 <= j < old(self).spec_revisions().len() && j != i ==> final(self).spec_revisions()[j] == old(self).spec_revisions()[j],
            final(self).spec_revisions()[i as int].message.spec_get(k) == Some(v),
            forall|k2: crate::message::MessageSection|
                k2 != k ==> final(self).spec_revisions()[i as int].message.spec_get(k2) == old(self).spec_revisions()[i as int].message.spec_get(k2),
            final(self).spec_revisions()[i as int].id == old(self).spec_revisions()[i as int].id,
            final(self).spec_revisions()[i as int].commit == old(self).spec_revisions()[i as int].commit,
            final(self).spec_revisions()[i as int].pull_request_number == old(self).spec_revisions()[i as int].pull_request_number,
    {
        let ghost prev = self.revisions@;
        self.revisions[i].message.insert(k, v);
        proof {
            assert forall|k2: int|
                0 <= k2 < self.spec_revisions().len() implies #[trigger] self.spec_revisions()[k2].commit
                < self.spec_commits().len() by {
                if k2 != i {
                    assert(self.spec_revisions()[k2] == prev[k2]);
                }
            }
            lemma_wf_transfer(old(self), self);
        }
    }

    /// Prunes the first stored revision with the given identity.
    pub fn abandon_revision(&mut self, id: &str) -> (r: Result<(), Error>)
        requires
            old(self).wf(),
        ensures
            final(self).wf(),
            final(self).spec_commits() == old(self).spec_commits(),
            final(self).spec_branches() == old(self).spec_branches(),
            match r {
                Ok(()) => exists|i: int|
                    0 <= i < old(self).spec_revisions().len()
                        && #[trigger] old(self).spec_revisions()[i].id.0@ == id@ && final(self).spec_revisions() == old(self).spec_revisions().remove(i),
                Err(e) => *final(self) == *old(self) && (forall|i: int|
                    0 <= i < old(self).spec_revisions().len()
                        ==> #[trigger] old(self).spec_revisions()[i].id.0@ != id@) && e.spec_kind()
                    == ErrorKind::BackendError,
            },
    {
        let n = self.revisions.len();
        let mut i: usize = 0;
        while i < n
            invariant
                *self == *old(self),
                old(self).wf(),
                n == self.spec_revisions().len(),
                i <= n,
                forall|j: int| 0 <= j < i ==> #[trigger] self.spec_revisions()[j].id.0@ != id@,
            decreases n - i,
        {
            if str_eq(self.revisions[i].id.0.as_str(), id) {
                let ghost prev = self.revisions@;
                self.revisions.remove(i);
                proof {
                    assert forall|k: int|
                        0 <= k < self.spec_revisions().len() implies #[trigger] self.spec_revisions()[k].commit
                        < self.spec_commits().len() by {
                        if k < i {
                            assert(self.spec_revisions()[k] == prev[k]);
                        } else {
                            assert(self.spec_revisions()[k] == prev[k + 1]);
                        }
                    }
                    lemma_wf_transfer(old(self), self);
                }
                return Ok(());
            }
            i = i + 1;
        }
        Err(Error::new("No revision with this change id"))
    }

    pub fn branch_count(&self) -> (r: usize)
        ensures
            r == self.spec_branches().len(),
    {
        self.branches.len()
    }

    pub fn branch_name_at(&self, i: usize) -> (r: &String)
        requires
            i < self.spec_branches().len(),
        ensures
            r@ == self.spec_branches()[i as int].0@,
    {
        &self.branches[i].0
    }
}

/// Well-formedness carries over to a state with the same graph and
/// branches, as long as every revision still points into the graph.
proof fn lemma_wf_transfer(a: &VersionControlBackend, b: &VersionControlBackend)
    requires
        a.wf(),
        b.spec_commits() == a.spec_commits(),
        b.spec_branches() == a.spec_branches(),
        forall|i: int|
            0 <= i < b.spec_revisions().len() ==> #[trigger] b.spec_revisions()[i].commit
                < b.spec_commits().len(),
    ensures
        b.wf(),
{
    assert forall|i: int, k: int|
        0 <= i < b.spec_commits().len() && 0 <= k
            < b.spec_commits()[i].parents@.len() implies #[trigger] b.spec_commits()[i].parents@[k]
        < i by {
        assert(a.spec_commits()[i].parents@[k] < i);
    }
    assert forall|i: int, j: int|
        0 <= i < j < b.spec_branches().len() implies #[trigger] b.spec_branches()[i].0@
        != #[trigger] b.spec_branches()[j].0@ by {
        assert(a.spec_branches()[i].0@ != a.spec_branches()[j].0@);
    }
    assert forall|i: int|
        0 <= i < b.spec_branches().len() implies #[trigger] b.spec_branches()[i].1
        < b.spec_commits().len() by {
        assert(a.spec_branches()[i].1 < a.spec_commits().len());
    }
}

/// The branch lookup of `spec_branch_target`, over a plain branch list.
pub open spec fn spec_branch_target_of(branches: Seq<(String, usize)>, name: Seq<char>) -> Option<
    usize,
> {
    if exists|i: int| 0 <= i < branches.len() && #[trigger] branches[i].0@ == name {
        let i = choose|i: int| 0 <= i < branches.len() && #[trigger] branches[i].0@ == name;
        Some(branches[i].1)
    } else {
        None
    }
}

} // verus!
