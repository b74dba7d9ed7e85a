//! The error type carried through every fallible operation of the crate.
//!
//! An `Error` is a kind together with a growing stack of context messages:
//! when an error propagates upward, callers push further messages onto it
//! rather than replacing what is already there, so the oldest context is
//! reported last.

use vstd::prelude::*;

verus! {

/// The failure taxonomy of the reconciliation logic.
///
/// - `InvalidStackTopology`: a candidate revision has several parents, is
///   conflicted, divergent or a merge; detected before any mutation.
/// - `UnexpectedUpstream`: the remote head branch moved since this tool last
///   recorded it, and no overwrite was forced.
/// - `AmbiguousOrEmptySelector`: a selector did not resolve to the expected
///   single revision.
/// - `ValidationFailure`: malformed trailers on a revision; accumulated over
///   a whole batch rather than aborting it.
/// - `BackendError`: any failure reported by a backend.
#[derive(Clone, Copy, Debug, PartialEq, Eq, Structural)]
pub enum ErrorKind {
    InvalidStackTopology,
    UnexpectedUpstream,
    AmbiguousOrEmptySelector,
    ValidationFailure,
    BackendError,
}

#[derive(Clone, Debug)]
pub struct Error {
    kind: ErrorKind,
    messages: Vec<String>,
}

impl Error {
    /// The kind this error was raised with.
    pub closed spec fn spec_kind(&self) -> ErrorKind {
        self.kind
    }

    /// The context messages, oldest first.
    pub closed spec fn spec_messages(&self) -> Seq<String> {
        self.messages@
    }

    /// A backend error with a single message.
    pub fn new(message: &str) -> (r: Self)
        ensures
            r.spec_kind() == ErrorKind::BackendError,
            r.spec_messages().len() == 1,
            r.spec_messages()[0]@ == message@,
    {
        let mut messages: Vec<String> = Vec::new();
        messages.push(message.to_owned());
        Error { kind: ErrorKind::BackendError, messages }
    }

    /// An error of the given kind with a single message.
    pub fn with_kind(kind: ErrorKind, message: &str) -> (r: Self)
        ensures
            r.spec_kind() == kind,
            r.spec_messages().len() == 1,
            r.spec_messages()[0]@ == message@,
    {
        let mut messages: Vec<String> = Vec::new();
        messages.push(message.to_owned());
        Error { kind, messages }
    }

    /// The aggregate marker returned after a batch in which some revisions
    /// failed validation; it carries no message of its own.
    pub fn empty() -> (r: Self)
        ensures
            r.spec_kind() == ErrorKind::ValidationFailure,
            r.spec_messages().len() == 0,
    {
        Error { kind: ErrorKind::ValidationFailure, messages: Vec::new() }
    }

    pub fn is_empty(&self) -> (r: bool)
        ensures
            r == (self.spec_messages().len() == 0),
    {
        self.messages.len() == 0
    }

    pub fn kind(&self) -> (r: ErrorKind)
        ensures
            r == self.spec_kind(),
    {
        self.kind
    }

    pub fn messages(&self) -> (r: &Vec<String>)
        ensures
            r@ == self.spec_messages(),
    {
        &self.messages
    }

    /// Adds one more context message; existing messages are kept.
    pub fn push(&mut self, message: String)
        ensures
            final(self).spec_kind() == old(self).spec_kind(),
            final(self).spec_messages() == old(self).spec_messages().push(message),
    {
        self.messages.push(message);
    }

    /// The text shown for this error: its most recent context message.
    pub fn text(&self) -> (r: String)
        ensures
            self.spec_messages().len() > 0 ==> r@ == self.spec_messages().last()@,
            self.spec_messages().len() == 0 ==> r@ == "unknown error"@,
    {
        if self.messages.len() > 0 {
            let m: &String = &self.messages[self.messages.len() - 1];
            m.clone()
        } else {
            "unknown error".to_owned()
        }
    }
}

/// Context-stacking helpers on `Result`, so call sites can annotate failures
/// as they propagate.
pub trait ResultExt {
    type Output;

    fn convert(self) -> Self::Output;

    fn context(self, message: String) -> Self::Output;

    fn reword(self, message: String) -> Self::Output;
}

impl<T> ResultExt for Result<T, Error> {
    type Output = Result<T, Error>;

    /// The identity on an already-converted result.
    fn convert(self) -> (r: Result<T, Error>)
        ensures
            r == self,
    {
        self
    }

    /// Pushes `message` onto the context stack of a failure; a success is
    /// returned unchanged.
    fn context(self, message: String) -> (r: Result<T, Error>)
        ensures
            self is Ok ==> r == self,
            self matches Err(e) ==> r matches Err(re) && re.spec_kind() == e.spec_kind()
                && re.spec_messages() == e.spec_messages().push(message),
    {
        match self {
            Ok(v) => Ok(v),
            Err(mut e) => {
                e.push(message);
                Err(e)
            },
        }
    }

    /// Replaces the whole context stack of a failure with `message`; a
    /// success is returned unchanged.
    fn reword(self, message: String) -> (r: Result<T, Error>)
        ensures
            self is Ok ==> r == self,
            self matches Err(e) ==> r matches Err(re) && re.spec_kind() == e.spec_kind()
                && re.spec_messages() == seq![message],
    {
        match self {
            Ok(v) => Ok(v),
            Err(e) => {
                let mut messages: Vec<String> = Vec::new();
                messages.push(message);
                Err(Error { kind: e.kind, messages })
            },
        }
    }
}

} // verus!
