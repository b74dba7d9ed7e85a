//! A typed, composable description of a subset of the change graph.
//!
//! A selector is a pure expression; what it denotes is decided by the
//! version-control backend that evaluates it.  Building one never touches
//! the graph, so a command can assemble its whole query before the backend
//! runs it once.

use vstd::prelude::*;

verus! {

/// The selector algebra: primitives name starting points, combinators build
/// larger sets out of smaller ones.
#[derive(Debug)]
pub enum Selector {
    /// The working-copy revision.
    Current,
    /// The root of the change graph.
    Root,
    /// Every revision that may still be edited.
    Mutable,
    /// A revision named by its stable change identity.
    Change(String),
    /// The commit a remote branch points at.
    RemoteBranch(String),
    /// Revisions whose description matches a pattern.
    DescriptionMatches(String),
    /// Revisions the backend considers immutable (landed).
    Immutable,
    /// Revisions in a conflicted state.
    Conflicted,
    /// Revisions with several visible versions.
    Divergent,
    /// Revisions with more than one parent.
    MergeCommit,
    /// The heads of the argument set.
    Heads(Box<Selector>),
    /// The parents of the argument set.
    Parents(Box<Selector>),
    /// Every ancestor of the argument set, the set included.
    AncestorsOf(Box<Selector>),
    /// Everything in either set.
    Union(Box<Selector>, Box<Selector>),
    /// Everything in both sets.
    Intersect(Box<Selector>, Box<Selector>),
    /// Everything in the first set but not the second.
    Difference(Box<Selector>, Box<Selector>),
    /// The nearest common ancestor of the heads of the two sets.
    ForkPoint(Box<Selector>, Box<Selector>),
    /// The revisions reachable from the second set but not from the first.
    Range(Box<Selector>, Box<Selector>),
    /// The single member of the argument set; an error when it has none or
    /// several.
    Unique(Box<Selector>),
}

impl Selector {
    pub fn current() -> (r: Self)
        ensures
            r == Selector::Current,
    {
        Selector::Current
    }

    pub fn root() -> (r: Self)
        ensures
            r == Selector::Root,
    {
        Selector::Root
    }

    pub fn mutable() -> (r: Self)
        ensures
            r == Selector::Mutable,
    {
        Selector::Mutable
    }

    pub fn change(id: String) -> (r: Self)
        ensures
            r == Selector::Change(id),
    {
        Selector::Change(id)
    }

    pub fn remote_branch(name: String) -> (r: Self)
        ensures
            r == Selector::RemoteBranch(name),
    {
        Selector::RemoteBranch(name)
    }

    pub fn description(pattern: String) -> (r: Self)
        ensures
            r == Selector::DescriptionMatches(pattern),
    {
        Selector::DescriptionMatches(pattern)
    }

    pub fn immutable() -> (r: Self)
        ensures
            r == Selector::Immutable,
    {
        Selector::Immutable
    }

    pub fn conflicts() -> (r: Self)
        ensures
            r == Selector::Conflicted,
    {
        Selector::Conflicted
    }

    pub fn divergent() -> (r: Self)
        ensures
            r == Selector::Divergent,
    {
        Selector::Divergent
    }

    pub fn merges() -> (r: Self)
        ensures
            r == Selector::MergeCommit,
    {
        Selector::MergeCommit
    }

    pub fn heads(self) -> (r: Self)
        ensures
            r == Selector::Heads(Box::new(self)),
    {
        Selector::Heads(Box::new(self))
    }

    pub fn parent(self) -> (r: Self)
        ensures
            r == Selector::Parents(Box::new(self)),
    {
        Selector::Parents(Box::new(self))
    }

    pub fn ancestors(self) -> (r: Self)
        ensures
            r == Selector::AncestorsOf(Box::new(self)),
    {
        Selector::AncestorsOf(Box::new(self))
    }

    pub fn or(self, other: Selector) -> (r: Self)
        ensures
            r == Selector::Union(Box::new(self), Box::new(other)),
    {
        Selector::Union(Box::new(self), Box::new(other))
    }

    pub fn and(self, other: Selector) -> (r: Self)
        ensures
            r == Selector::Intersect(Box::new(self), Box::new(other)),
    {
        Selector::Intersect(Box::new(self), Box::new(other))
    }

    pub fn without(self, other: Selector) -> (r: Self)
        ensures
            r == Selector::Difference(Box::new(self), Box::new(other)),
    {
        Selector::Difference(Box::new(self), Box::new(other))
    }

    pub fn fork_point(self, other: Selector) -> (r: Self)
        ensures
            r == Selector::ForkPoint(Box::new(self), Box::new(other)),
    {
        Selector::ForkPoint(Box::new(self), Box::new(other))
    }

    pub fn to(self, other: Selector) -> (r: Self)
        ensures
            r == Selector::Range(Box::new(self), Box::new(other)),
    {
        Selector::Range(Box::new(self), Box::new(other))
    }

    pub fn unique(self) -> (r: Self)
        ensures
            r == Selector::Unique(Box::new(self)),
    {
        Selector::Unique(Box::new(self))
    }
}

/// The selector that gathers the candidate stack below `heads`: every
/// ancestor that has not landed and has a description.
pub fn stack_selector(heads: Selector, empty_description_pattern: String) -> (r: Selector)
    ensures
        r == Selector::Difference(
            Box::new(Selector::AncestorsOf(Box::new(heads))),
            Box::new(
                Selector::Union(
                    Box::new(Selector::Immutable),
                    Box::new(Selector::DescriptionMatches(empty_description_pattern)),
                ),
            ),
        ),
{
    heads.ancestors().without(Selector::immutable().or(Selector::description(
        empty_description_pattern,
    )))
}

/// The selector for revisions that cannot be pushed: conflicted, divergent,
/// or merges.
pub fn blocker_selector(scope: Selector) -> (r: Selector)
    ensures
        r == Selector::Intersect(
            Box::new(scope),
            Box::new(
                Selector::Union(
                    Box::new(
                        Selector::Union(
                            Box::new(Selector::Conflicted),
                            Box::new(Selector::Divergent),
                        ),
                    ),
                    Box::new(Selector::MergeCommit),
                ),
            ),
        ),
{
    scope.and(Selector::conflicts().or(Selector::divergent()).or(Selector::merges()))
}

} // verus!
