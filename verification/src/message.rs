//! The structured trailers embedded in a revision's description: title,
//! summary, who is asked to look, assignees, the review request it belongs to, and the
//! remote commit last synchronized with.

use vstd::prelude::*;

use crate::error::{Error, ErrorKind};

verus! {

/// The keys of the trailer block of a revision's description.
#[derive(Clone, Copy, Debug, PartialEq, Eq, Structural)]
pub enum MessageSection {
    Title,
    Summary,
    Reviewers,
    Assignees,
    PullRequest,
    LastCommit,
}

/// A revision's trailers: at most one value per `MessageSection` key.
#[derive(Clone, Debug)]
pub struct Message {
    title: Option<String>,
    summary: Option<String>,
    reviewers: Option<String>,
    assignees: Option<String>,
    pull_request: Option<String>,
    last_commit: Option<String>,
}

impl Message {
    /// The value stored under `k`.
    pub closed spec fn spec_get(self, k: MessageSection) -> Option<String> {
        match k {
            MessageSection::Title => self.title,
            MessageSection::Summary => self.summary,
            MessageSection::Reviewers => self.reviewers,
            MessageSection::Assignees => self.assignees,
            MessageSection::PullRequest => self.pull_request,
            MessageSection::LastCommit => self.last_commit,
        }
    }

    /// A message with no trailer set.
    pub fn new() -> (r: Self)
        ensures
            forall|k: MessageSection| r.spec_get(k) is None,
    {
        Message {
            title: None,
            summary: None,
            reviewers: None,
            assignees: None,
            pull_request: None,
            last_commit: None,
        }
    }

    pub fn get(&self, k: MessageSection) -> (r: Option<&String>)
        ensures
            match r {
                Some(v) => self.spec_get(k) == Some(*v),
                None => self.spec_get(k) is None,
            },
    {
        match k {
            MessageSection::Title => self.title.as_ref(),
            MessageSection::Summary => self.summary.as_ref(),
            MessageSection::Reviewers => self.reviewers.as_ref(),
            MessageSection::Assignees => self.assignees.as_ref(),
            MessageSection::PullRequest => self.pull_request.as_ref(),
            MessageSection::LastCommit => self.last_commit.as_ref(),
        }
    }

    /// A copy of this message.
    pub fn duplicate(&self) -> (r: Message)
        ensures
            message_like(r, *self),
    {
        Message {
            title: clone_opt(&self.title),
            summary: clone_opt(&self.summary),
            reviewers: clone_opt(&self.reviewers),
            assignees: clone_opt(&self.assignees),
            pull_request: clone_opt(&self.pull_request),
            last_commit: clone_opt(&self.last_commit),
        }
    }

    /// Sets the value under `k`, leaving every other key unchanged.
    pub fn insert(&mut self, k: MessageSection, v: String)
        ensures
            final(self).spec_get(k) == Some(v),
            forall|k2: MessageSection|
                k2 != k ==> final(self).spec_get(k2) == old(self).spec_get(k2),
    {
        match k {
            MessageSection::Title => {
                self.title = Some(v);
            },
            MessageSection::Summary => {
                self.summary = Some(v);
            },
            MessageSection::Reviewers => {
                self.reviewers = Some(v);
            },
            MessageSection::Assignees => {
                self.assignees = Some(v);
            },
            MessageSection::PullRequest => {
                self.pull_request = Some(v);
            },
            MessageSection::LastCommit => {
                self.last_commit = Some(v);
            },
        }
    }
}

/// Do two messages store the same trailers, character for character?
pub open spec fn message_like(a: Message, b: Message) -> bool {
    forall|k: MessageSection|
        match (#[trigger] a.spec_get(k), b.spec_get(k)) {
            (Some(x), Some(y)) => x@ == y@,
            (None, None) => true,
            _ => false,
        }
}

/// A copy of an optional string, character for character.
fn clone_opt(o: &Option<String>) -> (r: Option<String>)
    ensures
        match (*o, r) {
            (Some(x), Some(y)) => x@ == y@,
            (None, None) => true,
            _ => false,
        },
{
    match o {
        Some(s) => Some(s.clone()),
        None => None,
    }
}

/// The body a review request is given for a message: its summary, or empty
/// when none is stored.
pub open spec fn spec_github_body(m: Message) -> Seq<char> {
    match m.spec_get(MessageSection::Summary) {
        Some(s) => s@,
        None => Seq::empty(),
    }
}

/// See `spec_github_body`.
pub fn build_github_body(message: &Message) -> (r: String)
    ensures
        r@ == spec_github_body(*message),
{
    let summary = message.get(MessageSection::Summary);
    match summary {
        Some(s) => s.clone(),
        None => {
            let r = String::new();
            proof {
                assert(r@ =~= Seq::<char>::empty());
            }
            r
        },
    }
}

/// Structural validation of a revision's trailers: the title must be
/// present and non-empty.
pub fn validate_commit_message(message: &Message) -> (r: Result<(), Error>)
    ensures
        match r {
            Ok(()) => message.spec_get(MessageSection::Title) matches Some(t) && t@.len() > 0,
            Err(e) => (message.spec_get(MessageSection::Title) is None || message.spec_get(
                MessageSection::Title,
            )->Some_0@.len() == 0) && e.spec_kind() == ErrorKind::ValidationFailure,
        },
{
    let title = message.get(MessageSection::Title);
    match title {
        Some(t) => {
            if t.as_str().unicode_len() > 0 {
                Ok(())
            } else {
                Err(Error::with_kind(ErrorKind::ValidationFailure, "Commit has an empty title"))
            }
        },
        None => Err(Error::with_kind(ErrorKind::ValidationFailure, "Commit has no title")),
    }
}

} // verus!
