//! The review side: pull-request values, updates to them, and an explicit
//! model of the review backend the reconciler consumes.
//!
//! The model keeps one record per pull request — the request itself, who
//! is asked to look at it, its assignees and its comments — and counts every write it performs,
//! so contracts can say not only what a reconciliation run changes but also
//! when it writes nothing at all.

use vstd::prelude::*;

use crate::error::{Error, ErrorKind};
use crate::message::{Message, MessageSection, spec_github_body, build_github_body};
use crate::utils::str_eq;

verus! {

#[derive(Debug, Clone, Copy, PartialEq, Eq, Structural)]
pub enum PullRequestState {
    Open,
    Closed,
}

#[derive(Debug, Clone, Copy, PartialEq, Eq, Structural)]
pub enum ReviewStatus {
    Requested,
    Approved,
    Rejected,
}

/// A pull request as the reconciler sees it.
#[derive(Debug, Clone)]
pub struct PullRequest {
    pub number: u64,
    pub state: PullRequestState,
    pub title: String,
    pub body: Option<String>,
    pub base: String,
    pub head: String,
}

/// Do two pull-request values show the same request?  Equality up to the
/// text carriers.
pub open spec fn pr_like(a: PullRequest, b: PullRequest) -> bool {
    &&& a.number == b.number
    &&& a.state == b.state
    &&& a.title@ == b.title@
    &&& (match (a.body, b.body) {
        (Some(x), Some(y)) => x@ == y@,
        (None, None) => true,
        _ => false,
    })
    &&& a.base@ == b.base@
    &&& a.head@ == b.head@
}

/// A copy of a pull-request value.
pub fn clone_pr(pr: &PullRequest) -> (r: PullRequest)
    ensures
        pr_like(r, *pr),
{
    PullRequest {
        number: pr.number,
        state: pr.state,
        title: pr.title.clone(),
        body: match &pr.body {
            Some(b) => Some(b.clone()),
            None => None,
        },
        base: pr.base.clone(),
        head: pr.head.clone(),
    }
}

/// What a pull request offers to the per-revision algorithms.
pub trait GHPullRequest {
    fn head_branch_name(&self) -> &str;

    fn base_branch_name(&self) -> &str;

    fn pr_number(&self) -> u64;

    fn body(&self) -> &str;

    fn title(&self) -> &str;

    fn closed(&self) -> bool;
}

impl GHPullRequest for PullRequest {
    fn head_branch_name(&self) -> (r: &str)
        ensures
            r@ == self.head@,
    {
        self.head.as_str()
    }

    fn base_branch_name(&self) -> (r: &str)
        ensures
            r@ == self.base@,
    {
        self.base.as_str()
    }

    fn pr_number(&self) -> (r: u64)
        ensures
            r == self.number,
    {
        self.number
    }

    fn title(&self) -> (r: &str)
        ensures
            r@ == self.title@,
    {
        self.title.as_str()
    }

    fn body(&self) -> (r: &str)
        ensures
            match self.body {
                Some(b) => r@ == b@,
                None => r@.len() == 0,
            },
    {
        match &self.body {
            Some(b) => b.as_str(),
            None => {
                proof {
                    reveal_strlit("");
                }
                ""
            },
        }
    }

    fn closed(&self) -> (r: bool)
        ensures
            r == (self.state == PullRequestState::Closed),
    {
        match self.state {
            PullRequestState::Closed => true,
            PullRequestState::Open => false,
        }
    }
}

/// A patch to an open pull request; unset fields stay as they are.
#[derive(Debug, Default)]
pub struct PullRequestUpdate {
    pub title: Option<String>,
    pub body: Option<String>,
    pub base: Option<String>,
    pub state: Option<PullRequestState>,
}

impl PullRequestUpdate {
    pub fn is_empty(&self) -> (r: bool)
        ensures
            r == (self.title is None && self.body is None && self.base is None && self.state
                is None),
    {
        self.title.is_none() && self.body.is_none() && self.base.is_none() && self.state.is_none()
    }

    /// Stages the title and body a message asks for, where they differ from
    /// what the pull request already shows.
    pub fn update_message(&mut self, pull_request: &PullRequest, message: &Message)
        ensures
            message.spec_get(MessageSection::Title) matches Some(t) ==> (t@
                != pull_request.title@ ==> (final(self).title matches Some(nt) && nt@ == t@)),
            !(message.spec_get(MessageSection::Title) matches Some(t) && t@
                != pull_request.title@) ==> final(self).title == old(self).title,
            (pull_request.body matches Some(b) && b@ == spec_github_body(*message)) ==> final(self).body == old(self).body,
            !(pull_request.body matches Some(b) && b@ == spec_github_body(*message)) ==> (final(self).body matches Some(nb) && nb@ == spec_github_body(*message)),
            final(self).base == old(self).base,
            final(self).state == old(self).state,
    {
        let title = message.get(MessageSection::Title);
        match title {
            Some(t) => {
                if !str_eq(t.as_str(), pull_request.title.as_str()) {
                    self.title = Some(t.clone());
                }
            },
            None => {},
        }
        let body = build_github_body(message);
        let same = match &pull_request.body {
            Some(b) => str_eq(b.as_str(), body.as_str()),
            None => false,
        };
        if !same {
            self.body = Some(body);
        }
    }
}

/// One comment under a pull request.
#[derive(Debug, Clone)]
pub struct PullRequestComment {
    pub id: u64,
    /// Whether this tool may edit the comment.
    pub editable: bool,
    pub body: String,
}

/// One record of the review backend.
#[derive(Debug, Clone)]
pub struct PullRequestRecord {
    pub pr: PullRequest,
    pub reviewers: Vec<String>,
    pub assignees: Vec<String>,
    pub comments: Vec<PullRequestComment>,
}

/// The marker every stack-overview comment ends with; the idempotent
/// comment update recognises its own comment by it and touches no other.
pub fn stack_comment_marker() -> (r: &'static str)
    ensures
        r@ == spec_stack_comment_marker(),
        r@.len() > 0,
{
    proof {
        reveal_strlit("\n<!--jj-spr-stack-->");
    }
    "\n<!--jj-spr-stack-->"
}

pub open spec fn spec_stack_comment_marker() -> Seq<char> {
    "\n<!--jj-spr-stack-->"@
}

/// Does this comment carry the stack-overview marker at its end?
pub open spec fn spec_is_marked(body: Seq<char>) -> bool {
    let m = spec_stack_comment_marker();
    body.len() >= m.len() && body.skip(body.len() - m.len()) == m
}

/// The first comment at or after `i` that carries the marker.
pub open spec fn spec_find_marked(comments: Seq<PullRequestComment>, i: int) -> Option<int>
    decreases comments.len() - i,
{
    if i < 0 || i >= comments.len() {
        None
    } else if comments[i].editable && spec_is_marked(comments[i].body@) {
        Some(i)
    } else {
        spec_find_marked(comments, i + 1)
    }
}

/// The review backend the reconciler consumes, as explicit state: the open
/// and closed pull requests with the people on them and their comments,
/// and a count of the writes performed against it.
#[derive(Debug)]
pub struct ReviewBackend {
    records: Vec<PullRequestRecord>,
    writes: u64,
}

impl ReviewBackend {
    pub closed spec fn spec_records(&self) -> Seq<PullRequestRecord> {
        self.records@
    }

    /// How many writes (creations, updates, comment posts) were performed.
    pub closed spec fn spec_writes(&self) -> u64 {
        self.writes
    }

    /// No two records share a pull-request number.
    pub open spec fn wf(&self) -> bool {
        forall|i: int, j: int|
            0 <= i < j < self.spec_records().len() ==> #[trigger] self.spec_records()[i].pr.number
                != #[trigger] self.spec_records()[j].pr.number
    }

    /// The position of the record for `number`.
    pub open spec fn spec_find(&self, number: u64) -> Option<int> {
        spec_find_record(self.spec_records(), number, 0)
    }

    pub fn new() -> (r: Self)
        ensures
            r.wf(),
            r.spec_records().len() == 0,
            r.spec_writes() == 0,
    {
        ReviewBackend { records: Vec::new(), writes: 0 }
    }

    /// See `spec_writes`.
    pub fn write_count(&self) -> (r: u64)
        ensures
            r == self.spec_writes(),
    {
        self.writes
    }

    pub fn record_count(&self) -> (r: usize)
        ensures
            r == self.spec_records().len(),
    {
        self.records.len()
    }

    pub fn record_at(&self, i: usize) -> (r: &PullRequestRecord)
        requires
            i < self.spec_records().len(),
        ensures
            *r == self.spec_records()[i as int],
    {
        &self.records[i]
    }

    /// The position of the record for `number`, if it exists.
    fn find_index(&self, number: u64) -> (r: Option<usize>)
        ensures
            match r {
                Some(i) => self.spec_find(number) == Some(i as int) && i
                    < self.spec_records().len() && self.spec_records()[i as int].pr.number
                    == number,
                None => self.spec_find(number) is None,
            },
    {
        let n = self.records.len();
        let mut i: usize = 0;
        while i < n
            invariant
                n == self.spec_records().len(),
                i <= n,
                spec_find_record(self.spec_records(), number, 0) == spec_find_record(
                    self.spec_records(),
                    number,
                    i as int,
                ),
            decreases n - i,
        {
            if self.records[i].pr.number == number {
                return Some(i);
            }
            i = i + 1;
        }
        None
    }

    /// The pull request with the given number; an error when none exists.
    pub fn pull_request(&self, number: u64) -> (r: Result<PullRequest, Error>)
        ensures
            match r {
                Ok(pr) => self.spec_find(number) matches Some(i) && pr_like(
                    pr,
                    self.spec_records()[i].pr,
                ),
                Err(e) => self.spec_find(number) is None && e.spec_kind()
                    == ErrorKind::BackendError,
            },
    {
        let found = self.find_index(number);
        match found {
            Some(i) => Ok(clone_pr(&self.records[i].pr)),
            None => Err(Error::new("No such PR")),
        }
    }

    /// The one pull request whose head branch is `head`; an error when none
    /// matches, and equally when several do — an ambiguous head branch must
    /// not be resolved silently.
    pub fn pull_request_by_head(&self, head: &str) -> (r: Result<PullRequest, Error>)
        ensures
            match r {
                Ok(pr) => exists|i: int|
                    {
                        &&& 0 <= i < self.spec_records().len()
                        &&& #[trigger] self.spec_records()[i].pr.head@ == head@
                        &&& pr_like(pr, self.spec_records()[i].pr)
                        &&& forall|j: int|
                            0 <= j < self.spec_records().len() && j != i
                                ==> #[trigger] self.spec_records()[j].pr.head@ != head@
                    },
                Err(e) => e.spec_kind() == ErrorKind::BackendError && ((forall|i: int|
                    0 <= i < self.spec_records().len()
                        ==> #[trigger] self.spec_records()[i].pr.head@ != head@) || (exists|
                    i: int,
                    j: int,
                |
                    0 <= i < j < self.spec_records().len()
                        && #[trigger] self.spec_records()[i].pr.head@
                        == #[trigger] self.spec_records()[j].pr.head@
                        && self.spec_records()[i].pr.head@ == head@)),
            },
    {
        let n = self.records.len();
        let mut found: Option<usize> = None;
        let mut i: usize = 0;
        while i < n
            invariant
                n == self.spec_records().len(),
                i <= n,
                match found {
                    Some(k) => k < i && self.spec_records()[k as int].pr.head@ == head@ && forall|
                        j: int,
                    |
                        0 <= j < i && j != k ==> #[trigger] self.spec_records()[j].pr.head@
                            != head@,
                    None => forall|j: int|
                        0 <= j < i ==> #[trigger] self.spec_records()[j].pr.head@ != head@,
                },
            decreases n - i,
        {
            if str_eq(self.records[i].pr.head.as_str(), head) {
                match found {
                    Some(k) => {
                        proof {
                            assert(self.spec_records()[k as int].pr.head@
                                == self.spec_records()[i as int].pr.head@);
                        }
                        return Err(Error::new("Found more than one candidate PR"));
                    },
                    None => {
                        found = Some(i);
                    },
                }
            }
            i = i + 1;
        }
        match found {
            Some(k) => Ok(clone_pr(&self.records[k].pr)),
            None => Err(Error::new("No such PR")),
        }
    }

    /// Opens a new pull request; its number is one more than the largest in
    /// use, and it starts with nobody on it and no comments.
    pub fn new_pull_request(&mut self, title: &str, body: &str, base: &str, head: &str, draft:
        bool) -> (r: Result<PullRequest, Error>)
        requires
            old(self).wf(),
        ensures
            final(self).wf(),
            match r {
                Ok(pr) => {
                    &&& pr.title@ == title@
                    &&& pr.body matches Some(b) && b@ == body@
                    &&& pr.base@ == base@
                    &&& pr.head@ == head@
                    &&& pr.state == PullRequestState::Open
                    &&& final(self).spec_records().len() == old(self).spec_records().len() + 1
                    &&& (forall|i: int|
                        0 <= i < old(self).spec_records().len() ==> #[trigger] final(self).spec_records()[i] == old(self).spec_records()[i])
                    &&& pr_like(final(self).spec_records().last().pr, pr)
                    &&& final(self).spec_records().last().reviewers@ == Seq::<String>::empty()
                    &&& final(self).spec_records().last().assignees@ == Seq::<String>::empty()
                    &&& final(self).spec_records().last().comments@ == Seq::<
                        PullRequestComment,
                    >::empty()
                    &&& final(self).spec_writes() == old(self).spec_writes() + 1
                    &&& forall|i: int|
                        0 <= i < old(self).spec_records().len()
                            ==> #[trigger] old(self).spec_records()[i].pr.number < pr.number
                },
                Err(e) => *final(self) == *old(self) && e.spec_kind() == ErrorKind::BackendError
                    && (old(self).spec_writes() == u64::MAX || exists|i: int|
                    0 <= i < old(self).spec_records().len()
                        && #[trigger] old(self).spec_records()[i].pr.number == u64::MAX),
            },
    {
        if self.writes == u64::MAX {
            return Err(Error::new("Review backend write counter exhausted"));
        }
        let n = self.records.len();
        let mut max: u64 = 0;
        let mut i: usize = 0;
        while i < n
            invariant
                *self == *old(self),
                old(self).wf(),
                old(self).spec_writes() < u64::MAX,
                n == self.spec_records().len(),
                i <= n,
                max < u64::MAX,
                forall|j: int|
                    0 <= j < i ==> #[trigger] self.spec_records()[j].pr.number <= max,
            decreases n - i,
        {
            if self.records[i].pr.number > max {
                if self.records[i].pr.number == u64::MAX {
                    proof {
                        assert(old(self).spec_records()[i as int].pr.number == u64::MAX);
                    }
                    return Err(Error::new("Pull request numbers exhausted"));
                }
                max = self.records[i].pr.number;
            } else {
            }
            i = i + 1;
        }
        let _ = draft;
        let pr = PullRequest {
            number: max + 1,
            state: PullRequestState::Open,
            title: title.to_owned(),
            body: Some(body.to_owned()),
            base: base.to_owned(),
            head: head.to_owned(),
        };
        let record = PullRequestRecord {
            pr: clone_pr(&pr),
            reviewers: Vec::new(),
            assignees: Vec::new(),
            comments: Vec::new(),
        };
        let ghost prev = self.records@;
        let ghost recg = record;
        self.records.push(record);
        self.writes = self.writes + 1;
        proof {
            assert(self.spec_records().last() == recg);
            assert(recg.reviewers@ =~= Seq::<String>::empty());
            assert(recg.assignees@ =~= Seq::<String>::empty());
            assert(recg.comments@ =~= Seq::<PullRequestComment>::empty());
            assert forall|x: int, y: int|
                0 <= x < y < self.spec_records().len() implies #[trigger] self.spec_records()[x].pr.number
                != #[trigger] self.spec_records()[y].pr.number by {
                if y < prev.len() {
                    assert(old(self).spec_records()[x].pr.number != old(
                        self,
                    ).spec_records()[y].pr.number);
                } else {
                    assert(old(self).spec_records()[x].pr.number <= max);
                    assert(self.spec_records()[y] == recg);
                }
            }
        }
        Ok(pr)
    }

    /// Seeds a record, for driving the model from outside; refused when the
    /// number is already taken.
    pub fn insert_record(&mut self, record: PullRequestRecord) -> (r: Result<(), Error>)
        requires
            old(self).wf(),
        ensures
            final(self).wf(),
            match r {
                Ok(()) => old(self).spec_find(record.pr.number) is None && final(self).spec_records() == old(self).spec_records().push(record) && final(self).spec_writes() == old(self).spec_writes(),
                Err(e) => *final(self) == *old(self) && old(self).spec_find(record.pr.number)
                    is Some && e.spec_kind() == ErrorKind::BackendError,
            },
    {
        let found = self.find_index(record.pr.number);
        match found {
            Some(_) => Err(Error::new("A PR with this number exists")),
            None => {
                let ghost prev = self.records@;
                let ghost num = record.pr.number;
                self.records.push(record);
                proof {
                    lemma_find_record_none_all(prev, num);
                    assert forall|x: int, y: int|
                        0 <= x < y < self.spec_records().len() implies #[trigger] self.spec_records()[x].pr.number
                        != #[trigger] self.spec_records()[y].pr.number by {
                        if y < prev.len() {
                            assert(old(self).spec_records()[x].pr.number != old(
                                self,
                            ).spec_records()[y].pr.number);
                        }
                    }
                }
                Ok(())
            },
        }
    }

    /// Records who review is requested from; an error when the pull
    /// request does not exist.
    pub fn add_reviewers(&mut self, number: u64, reviewers: Vec<String>) -> (r: Result<(), Error>)
        requires
            old(self).wf(),
        ensures
            final(self).wf(),
            match r {
                Ok(()) => {
                    &&& old(self).spec_find(number) matches Some(i)
                    &&& final(self).spec_records().len() == old(self).spec_records().len()
                    &&& (forall|j: int|
                        0 <= j < old(self).spec_records().len() && j != i ==> final(self).spec_records()[j] == old(self).spec_records()[j])
                    &&& final(self).spec_records()[i].pr == old(self).spec_records()[i].pr
                    &&& final(self).spec_records()[i].reviewers@ == old(
                        self,
                    ).spec_records()[i].reviewers@ + reviewers@
                    &&& final(self).spec_records()[i].assignees == old(
                        self,
                    ).spec_records()[i].assignees
                    &&& final(self).spec_records()[i].comments == old(
                        self,
                    ).spec_records()[i].comments
                    &&& final(self).spec_writes() == old(self).spec_writes() + 1
                },
                Err(e) => *final(self) == *old(self) && e.spec_kind() == ErrorKind::BackendError
                    && (old(self).spec_writes() == u64::MAX || old(self).spec_find(number)
                    is None),
            },
    {
        if self.writes == u64::MAX {
            return Err(Error::new("Review backend write counter exhausted"));
        }
        let found = self.find_index(number);
        match found {
            None => Err(Error::new("No such PR")),
            Some(i) => {
                let mut names = reviewers;
                let ghost all = names@;
                let ghost orig = self.records@;
                while names.len() > 0
                    invariant
                        old(self).wf(),
                        old(self).spec_writes() < u64::MAX,
                        self.spec_writes() == old(self).spec_writes(),
                        orig == old(self).spec_records(),
                        0 <= i < self.spec_records().len(),
                        self.spec_records().len() == orig.len(),
                        forall|j: int|
                            0 <= j < orig.len() && j != i ==> self.spec_records()[j] == orig[j],
                        self.spec_records()[i as int].pr == orig[i as int].pr,
                        self.spec_records()[i as int].assignees == orig[i as int].assignees,
                        self.spec_records()[i as int].comments == orig[i as int].comments,
                        self.spec_records()[i as int].reviewers@ + names@ == orig[i as int].reviewers@
                            + all,
                    decreases names.len(),
                {
                    let ghost prevrecs = self.records@;
                    let ghost prevnames = names@;
                    let x = names.remove(0);
                    self.records[i].reviewers.push(x);
                    proof {
                        assert(self.spec_records() =~= prevrecs.update(
                            i as int,
                            self.spec_records()[i as int],
                        ));
                        assert(self.spec_records()[i as int].reviewers@ + names@
                            =~= prevrecs[i as int].reviewers@ + prevnames);
                    }
                }
                self.writes = self.writes + 1;
                proof {
                    assert(self.spec_records()[i as int].reviewers@ =~= self.spec_records()[i as int].reviewers@
                        + names@);
                    lemma_wf_update_keeps(orig, self.spec_records(), i as int);
                }
                Ok(())
            },
        }
    }

    /// Adds assignees to the pull request's record; an error when the pull
    /// request does not exist.
    pub fn add_assignees(&mut self, number: u64, assignees: Vec<String>) -> (r: Result<(), Error>)
        requires
            old(self).wf(),
        ensures
            final(self).wf(),
            match r {
                Ok(()) => {
                    &&& old(self).spec_find(number) matches Some(i)
                    &&& final(self).spec_records().len() == old(self).spec_records().len()
                    &&& (forall|j: int|
                        0 <= j < old(self).spec_records().len() && j != i ==> final(self).spec_records()[j] == old(self).spec_records()[j])
                    &&& final(self).spec_records()[i].pr == old(self).spec_records()[i].pr
                    &&& final(self).spec_records()[i].assignees@ == old(
                        self,
                    ).spec_records()[i].assignees@ + assignees@
                    &&& final(self).spec_records()[i].reviewers == old(
                        self,
                    ).spec_records()[i].reviewers
                    &&& final(self).spec_records()[i].comments == old(
                        self,
                    ).spec_records()[i].comments
                    &&& final(self).spec_writes() == old(self).spec_writes() + 1
                },
                Err(e) => *final(self) == *old(self) && e.spec_kind() == ErrorKind::BackendError
                    && (old(self).spec_writes() == u64::MAX || old(self).spec_find(number)
                    is None),
            },
    {
        if self.writes == u64::MAX {
            return Err(Error::new("Review backend write counter exhausted"));
        }
        let found = self.find_index(number);
        match found {
            None => Err(Error::new("No such PR")),
            Some(i) => {
                let mut names = assignees;
                let ghost all = names@;
                let ghost orig = self.records@;
                while names.len() > 0
                    invariant
                        old(self).wf(),
                        old(self).spec_writes() < u64::MAX,
                        self.spec_writes() == old(self).spec_writes(),
                        orig == old(self).spec_records(),
                        0 <= i < self.spec_records().len(),
                        self.spec_records().len() == orig.len(),
                        forall|j: int|
                            0 <= j < orig.len() && j != i ==> self.spec_records()[j] == orig[j],
                        self.spec_records()[i as int].pr == orig[i as int].pr,
                        self.spec_records()[i as int].reviewers == orig[i as int].reviewers,
                        self.spec_records()[i as int].comments == orig[i as int].comments,
                        self.spec_records()[i as int].assignees@ + names@ == orig[i as int].assignees@
                            + all,
                    decreases names.len(),
                {
                    let ghost prevrecs = self.records@;
                    let ghost prevnames = names@;
                    let x = names.remove(0);
                    self.records[i].assignees.push(x);
                    proof {
                        assert(self.spec_records() =~= prevrecs.update(
                            i as int,
                            self.spec_records()[i as int],
                        ));
                        assert(self.spec_records()[i as int].assignees@ + names@
                            =~= prevrecs[i as int].assignees@ + prevnames);
                    }
                }
                self.writes = self.writes + 1;
                proof {
                    assert(self.spec_records()[i as int].assignees@ =~= self.spec_records()[i as int].assignees@
                        + names@);
                    lemma_wf_update_keeps(orig, self.spec_records(), i as int);
                }
                Ok(())
            },
        }
    }

    /// Applies the set fields of `updates` to the pull request; an error
    /// when it does not exist.
    pub fn update_pull_request(&mut self, number: u64, updates: PullRequestUpdate) -> (r: Result<
        (),
        Error,
    >)
        requires
            old(self).wf(),
        ensures
            final(self).wf(),
            match r {
                Ok(()) => {
                    &&& old(self).spec_find(number) matches Some(i)
                    &&& final(self).spec_records().len() == old(self).spec_records().len()
                    &&& (forall|j: int|
                        0 <= j < old(self).spec_records().len() && j != i ==> final(self).spec_records()[j] == old(self).spec_records()[j])
                    &&& final(self).spec_records()[i].pr.number == old(
                        self,
                    ).spec_records()[i].pr.number
                    &&& final(self).spec_records()[i].pr.title == (match updates.title {
                        Some(t) => t,
                        None => old(self).spec_records()[i].pr.title,
                    })
                    &&& final(self).spec_records()[i].pr.body == (match updates.body {
                        Some(b) => Some(b),
                        None => old(self).spec_records()[i].pr.body,
                    })
                    &&& final(self).spec_records()[i].pr.base == (match updates.base {
                        Some(b) => b,
                        None => old(self).spec_records()[i].pr.base,
                    })
                    &&& final(self).spec_records()[i].pr.state == (match updates.state {
                        Some(st) => st,
                        None => old(self).spec_records()[i].pr.state,
                    })
                    &&& final(self).spec_records()[i].pr.head == old(
                        self,
                    ).spec_records()[i].pr.head
                    &&& final(self).spec_records()[i].reviewers == old(
                        self,
                    ).spec_records()[i].reviewers
                    &&& final(self).spec_records()[i].assignees == old(
                        self,
                    ).spec_records()[i].assignees
                    &&& final(self).spec_records()[i].comments == old(
                        self,
                    ).spec_records()[i].comments
                    &&& final(self).spec_writes() == old(self).spec_writes() + 1
                },
                Err(e) => *final(self) == *old(self) && e.spec_kind() == ErrorKind::BackendError
                    && (old(self).spec_writes() == u64::MAX || old(self).spec_find(number)
                    is None),
            },
    {
        if self.writes == u64::MAX {
            return Err(Error::new("Review backend write counter exhausted"));
        }
        let found = self.find_index(number);
        match found {
            None => Err(Error::new("No such PR")),
            Some(i) => {
                let ghost orig = self.records@;
                let PullRequestUpdate { title, body, base, state } = updates;
                match title {
                    Some(t) => {
                        self.records[i].pr.title = t;
                    },
                    None => {},
                }
                match body {
                    Some(b) => {
                        self.records[i].pr.body = Some(b);
                    },
                    None => {},
                }
                match base {
                    Some(b) => {
                        self.records[i].pr.base = b;
                    },
                    None => {},
                }
                match state {
                    Some(st) => {
                        self.records[i].pr.state = st;
                    },
                    None => {},
                }
                self.writes = self.writes + 1;
                proof {
                    lemma_wf_update_keeps(orig, self.spec_records(), i as int);
                }
                Ok(())
            },
        }
    }

    /// The idempotent stack-overview comment update: the first comment that
    /// ends with the marker is this tool's own; it is brought to the given
    /// content if it differs, left alone if not, and created when missing.
    /// A comment without the marker is never touched.
    pub fn update_pr_comment(&mut self, number: u64, content: &str) -> (r: Result<(), Error>)
        requires
            old(self).wf(),
        ensures
            final(self).wf(),
            match r {
                Ok(()) => {
                    &&& old(self).spec_find(number) matches Some(i)
                    &&& final(self).spec_records().len() == old(self).spec_records().len()
                    &&& (forall|j: int|
                        0 <= j < old(self).spec_records().len() && j != i ==> final(self).spec_records()[j] == old(self).spec_records()[j])
                    &&& final(self).spec_records()[i].pr == old(self).spec_records()[i].pr
                    &&& final(self).spec_records()[i].reviewers == old(
                        self,
                    ).spec_records()[i].reviewers
                    &&& final(self).spec_records()[i].assignees == old(
                        self,
                    ).spec_records()[i].assignees
                    &&& {
                        let before = old(self).spec_records()[i].comments@;
                        let after = final(self).spec_records()[i].comments@;
                        let wanted = content@ + spec_stack_comment_marker();
                        match spec_find_marked(before, 0) {
                            Some(k) => {
                                if before[k].body@ == wanted {
                                    &&& after == before
                                    &&& final(self).spec_writes() == old(self).spec_writes()
                                } else {
                                    &&& after.len() == before.len()
                                    &&& after[k].body@ == wanted
                                    &&& after[k].editable == before[k].editable
                                    &&& after[k].id == before[k].id
                                    &&& (forall|l: int|
                                        0 <= l < before.len() && l != k ==> after[l] == before[l])
                                    &&& final(self).spec_writes() == old(self).spec_writes() + 1
                                }
                            },
                            None => {
                                &&& after.len() == before.len() + 1
                                &&& (forall|l: int|
                                    0 <= l < before.len() ==> #[trigger] after[l] == before[l])
                                &&& after.last().body@ == wanted
                                &&& after.last().editable
                                &&& final(self).spec_writes() == old(self).spec_writes() + 1
                            },
                        }
                    }
                },
                Err(e) => *final(self) == *old(self) && e.spec_kind() == ErrorKind::BackendError
                    && (old(self).spec_writes() == u64::MAX || old(self).spec_find(number) is None
                    || (old(self).spec_find(number) matches Some(i) && spec_find_marked(
                    old(self).spec_records()[i].comments@,
                    0,
                ) is None && exists|k: int|
                    0 <= k < old(self).spec_records()[i].comments@.len()
                        && #[trigger] old(self).spec_records()[i].comments@[k].id == u64::MAX)),
            },
    {
        if self.writes == u64::MAX {
            return Err(Error::new("Review backend write counter exhausted"));
        }
        let found = self.find_index(number);
        match found {
            None => Err(Error::new("No such PR")),
            Some(i) => {
                let mut wanted = content.to_owned();
                wanted.append(stack_comment_marker());
                let ghost orig = self.records@;
                let ghost comments0 = self.records@[i as int].comments@;
                let n = self.records[i].comments.len();
                let mut k: usize = 0;
                while k < n
                    invariant
                        *self == *old(self),
                        old(self).wf(),
                        old(self).spec_writes() < u64::MAX,
                        old(self).spec_find(number) == Some(i as int),
                        orig == old(self).spec_records(),
                        wanted@ == content@ + spec_stack_comment_marker(),
                        0 <= i < self.spec_records().len(),
                        comments0 == self.spec_records()[i as int].comments@,
                        n == comments0.len(),
                        k <= n,
                        spec_find_marked(comments0, 0) == spec_find_marked(comments0, k as int),
                    decreases n - k,
                {
                    let editable = self.records[i].comments[k].editable;
                    let marked = ends_with_marker(&self.records[i].comments[k].body);
                    if editable && marked {
                        proof {
                            assert(spec_find_marked(comments0, k as int) == Some(k as int));
                        }
                        if str_eq(self.records[i].comments[k].body.as_str(), wanted.as_str()) {
                            return Ok(());
                        }
                        let ghost prevrecs = self.records@;
                        self.records[i].comments[k].body = wanted;
                        self.writes = self.writes + 1;
                        proof {
                            assert(self.spec_records() =~= prevrecs.update(
                                i as int,
                                self.spec_records()[i as int],
                            ));
                            lemma_wf_update_keeps(orig, self.spec_records(), i as int);
                        }
                        return Ok(());
                    }
                    k = k + 1;
                }
                proof {
                    assert(spec_find_marked(comments0, n as int) is None);
                }
                let mut max_id: u64 = 0;
                let m = self.records[i].comments.len();
                let mut j: usize = 0;
                while j < m
                    invariant
                        max_id == 0 || exists|k: int|
                            0 <= k < self.spec_records()[i as int].comments@.len()
                                && #[trigger] self.spec_records()[i as int].comments@[k].id
                                == max_id,
                        *self == *old(self),
                        old(self).wf(),
                        old(self).spec_writes() < u64::MAX,
                        old(self).spec_find(number) == Some(i as int),
                        wanted@ == content@ + spec_stack_comment_marker(),
                        spec_find_marked(self.spec_records()[i as int].comments@, 0) is None,
                        comments0 == self.spec_records()[i as int].comments@,
                        0 <= i < self.spec_records().len(),
                        m == self.spec_records()[i as int].comments@.len(),
                        j <= m,
                    decreases m - j,
                {
                    if self.records[i].comments[j].id > max_id {
                        max_id = self.records[i].comments[j].id;
                    }
                    j = j + 1;
                }
                if max_id == u64::MAX {
                    proof {
                        let k = choose|k: int|
                            0 <= k < self.spec_records()[i as int].comments@.len()
                                && #[trigger] self.spec_records()[i as int].comments@[k].id
                                == max_id;
                        assert(old(self).spec_records()[i as int].comments@[k].id == u64::MAX);
                    }
                    return Err(Error::new("Comment identifiers exhausted"));
                }
                let ghost prevrecs = self.records@;
                let comment = PullRequestComment { id: max_id + 1, editable: true, body: wanted };
                self.records[i].comments.push(comment);
                self.writes = self.writes + 1;
                proof {
                    assert(self.spec_records() =~= prevrecs.update(
                        i as int,
                        self.spec_records()[i as int],
                    ));
                    lemma_wf_update_keeps(orig, self.spec_records(), i as int);
                }
                Ok(())
            },
        }
    }
}

/// Whether the string ends with the stack-overview marker.
fn ends_with_marker(s: &String) -> (r: bool)
    ensures
        r == spec_is_marked(s@),
{
    let marker = stack_comment_marker();
    let n = s.as_str().unicode_len();
    let m = marker.unicode_len();
    if n < m {
        return false;
    }
    let tail = s.as_str().substring_char(n - m, n);
    let r = str_eq(tail, marker);
    proof {
        assert(s@.subrange(n as int - m as int, n as int) =~= s@.skip(n as int - m as int));
    }
    r
}

/// A record list that differs from a well-formed one only at one position,
/// with the number kept, is well-formed with the same lookups.
proof fn lemma_wf_update_keeps(orig: Seq<PullRequestRecord>, now: Seq<PullRequestRecord>, i: int)
    requires
        0 <= i < orig.len(),
        now.len() == orig.len(),
        forall|j: int| 0 <= j < orig.len() && j != i ==> now[j] == orig[j],
        now[i].pr.number == orig[i].pr.number,
        forall|x: int, y: int|
            0 <= x < y < orig.len() ==> #[trigger] orig[x].pr.number != #[trigger] orig[y].pr.number,
    ensures
        forall|x: int, y: int|
            0 <= x < y < now.len() ==> #[trigger] now[x].pr.number != #[trigger] now[y].pr.number,
{
    assert forall|x: int, y: int| 0 <= x < y < now.len() implies #[trigger] now[x].pr.number
        != #[trigger] now[y].pr.number by {
        assert(orig[x].pr.number != orig[y].pr.number);
        assert(now[x].pr.number == orig[x].pr.number);
        assert(now[y].pr.number == orig[y].pr.number);
    }
}

/// A list in which no record carries `number` never finds one.
proof fn lemma_find_record_none_all(records: Seq<PullRequestRecord>, number: u64)
    requires
        spec_find_record(records, number, 0) is None,
    ensures
        forall|j: int| 0 <= j < records.len() ==> #[trigger] records[j].pr.number != number,
{
    lemma_find_record_none_from(records, number, 0);
}

/// Helper for `lemma_find_record_none_all`, walking from `i`.
proof fn lemma_find_record_none_from(records: Seq<PullRequestRecord>, number: u64, i: int)
    requires
        0 <= i,
        spec_find_record(records, number, i) is None,
    ensures
        forall|j: int| i <= j < records.len() ==> #[trigger] records[j].pr.number != number,
    decreases records.len() - i,
{
    if i < records.len() {
        lemma_find_record_none_from(records, number, i + 1);
    }
}

/// The first record at or after `i` whose pull request has `number`.
pub open spec fn spec_find_record(records: Seq<PullRequestRecord>, number: u64, i: int) -> Option<
    int,
>
    decreases records.len() - i,
{
    if i < 0 || i >= records.len() {
        None
    } else if records[i].pr.number == number {
        Some(i)
    } else {
        spec_find_record(records, number, i + 1)
    }
}

} // verus!
