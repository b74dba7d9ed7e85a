//! The push reconciler: the per-revision synchronization step and the
//! sequential, parent-before-child loop around it.
//!
//! The step is idempotent (an unchanged revision over an unmoved base writes
//! nothing), safety-checked (a remote head that moved since the last
//! recorded synchronization is never silently overwritten), and
//! tree-preserving (whatever is pushed has exactly the revision's tree,
//! while its parents record the remote's actual state).  Commit text is
//! presentation, not model state: the graph model keeps trees and ancestry.

use vstd::prelude::*;

use crate::backend::{Revision, VersionControlBackend};
use crate::config::Config;
use crate::error::{Error, ErrorKind, ResultExt};
use crate::github::{PullRequest, ReviewBackend};
use crate::message::{MessageSection, build_github_body};
use crate::render::{finalize_revision_comment, prepare_revision_comment};
use crate::tree::{Forest, total_pred};
use crate::utils::{all_digits, decimal_digits, digits_val, format_u64, parse_u64,
    split_commas_trimmed, str_eq};

verus! {

/// What the caller asked of `push`.
#[derive(Debug)]
pub struct PushOptions {
    message: Option<String>,
    revset: Option<String>,
    all: bool,
    existing: bool,
    force: bool,
}

impl PushOptions {
    pub closed spec fn spec_force(&self) -> bool {
        self.force
    }

    pub closed spec fn spec_message(&self) -> Option<String> {
        self.message
    }

    pub closed spec fn spec_revset(&self) -> Option<String> {
        self.revset
    }

    pub closed spec fn spec_all(&self) -> bool {
        self.all
    }

    pub closed spec fn spec_existing(&self) -> bool {
        self.existing
    }

    pub fn with_message(self, message: Option<&str>) -> (r: Self)
        ensures
            (match message {
                Some(m) => r.spec_message() matches Some(s) && s@ == m@,
                None => r.spec_message() is None,
            }),
            r.spec_revset() == self.spec_revset(),
            r.spec_force() == self.spec_force(),
            r.spec_existing() == self.spec_existing(),
            r.spec_all() == self.spec_all(),
    {
        PushOptions {
            message: match message {
                Some(m) => Some(m.to_owned()),
                None => None,
            },
            ..self
        }
    }

    pub fn with_revset(self, revset: Option<&str>) -> (r: Self)
        ensures
            (match revset {
                Some(m) => r.spec_revset() matches Some(s) && s@ == m@,
                None => r.spec_revset() is None,
            }),
            r.spec_message() == self.spec_message(),
            r.spec_force() == self.spec_force(),
            r.spec_existing() == self.spec_existing(),
            r.spec_all() == self.spec_all(),
    {
        PushOptions {
            revset: match revset {
                Some(m) => Some(m.to_owned()),
                None => None,
            },
            ..self
        }
    }

    pub fn with_force(self, val: bool) -> (r: Self)
        ensures
            r.spec_force() == val,
            r.spec_message() == self.spec_message(),
            r.spec_revset() == self.spec_revset(),
            r.spec_existing() == self.spec_existing(),
            r.spec_all() == self.spec_all(),
    {
        PushOptions { force: val, ..self }
    }

    pub fn with_existing(self, val: bool) -> (r: Self)
        ensures
            r.spec_existing() == val,
            r.spec_message() == self.spec_message(),
            r.spec_revset() == self.spec_revset(),
            r.spec_force() == self.spec_force(),
            r.spec_all() == self.spec_all(),
    {
        PushOptions { existing: val, ..self }
    }
}

impl Default for PushOptions {
    fn default() -> (r: Self)
        ensures
            r.spec_message() is None,
            r.spec_revset() is None,
            !r.spec_all(),
            !r.spec_existing(),
            !r.spec_force(),
    {
        PushOptions { message: None, revset: None, all: false, existing: false, force: false }
    }
}

/// The text of the derived commit: on a first publish with a stored title,
/// the canonical message from the trailers; otherwise the caller-supplied
/// message.  `None` means the caller supplied none and none can be
/// synthesized — a configuration error, since nothing is prompted for.
pub open spec fn spec_derived_message(rev: Revision, optmsg: Option<String>,
    first_publish: bool) -> Option<Seq<char>> {
    if first_publish && rev.message.spec_get(MessageSection::Title) is Some {
        Some(
            rev.message.spec_get(MessageSection::Title)->Some_0@ + "\n\n"@
                + crate::message::spec_github_body(rev.message) + "\n\nCreated using jj-spr"@,
        )
    } else {
        match optmsg {
            Some(m) => Some(m@ + "\n\nCreated using jj-spr"@),
            None => None,
        }
    }
}

/// See `spec_derived_message`.
fn derived_commit_message(revision: &Revision, opts: &PushOptions, first_publish: bool) -> (r:
    Result<String, Error>)
    ensures
        match r {
            Ok(m) => spec_derived_message(*revision, opts.spec_message(), first_publish)
                matches Some(t) && m@ == t,
            Err(e) => spec_derived_message(*revision, opts.spec_message(), first_publish) is None
                && e.spec_kind() == ErrorKind::BackendError,
        },
{
    proof {
        reveal_strlit("\n\n");
        reveal_strlit("\n\nCreated using jj-spr");
    }
    let title = revision.message.get(MessageSection::Title);
    if first_publish && title.is_some() {
        let mut m = match title {
            Some(t) => t.clone(),
            None => String::new(),
        };
        m.append("\n\n");
        let body = build_github_body(&revision.message);
        m.append(body.as_str());
        m.append("\n\nCreated using jj-spr");
        Ok(m)
    } else {
        match &opts.message {
            Some(msg) => {
                let mut m = msg.clone();
                m.append("\n\nCreated using jj-spr");
                Ok(m)
            },
            None => Err(
                Error::new("No message was given for updating the already published revision"),
            ),
        }
    }
}

/// What one push step did.
#[derive(Debug, Clone, Copy, PartialEq, Eq, Structural)]
pub enum PushOutcome {
    /// The remote already showed this revision over this base.
    NoUpdate,
    /// A plain content update: the new remote commit continues the remote
    /// head.
    Updated(usize),
    /// The base diverged: the new remote commit records both the remote
    /// head and the new base, so reviewed history is never dropped.
    Rebased(usize),
}

/// The commit a head branch resolves to: its target, or the base itself
/// when the branch does not exist yet (a first publish).
pub open spec fn spec_resolved_head(vcs: VersionControlBackend, head_branch: Seq<char>,
    base: usize) -> int {
    match vcs.spec_branch_target(head_branch) {
        Some(c) => c as int,
        None => base as int,
    }
}

/// The last-synchronized-commit trailer of a revision: `None` when unset,
/// `Some(None)` when unreadable, `Some(Some(c))` for commit `c`.
pub open spec fn spec_last_commit_trailer(rev: Revision) -> Option<Option<nat>> {
    match rev.message.spec_get(MessageSection::LastCommit) {
        None => None,
        Some(t) => if t@.len() > 0 && all_digits(t@) && digits_val(t@) <= u64::MAX {
            Some(Some(digits_val(t@)))
        } else {
            Some(None)
        },
    }
}

/// Does the safety check refuse to overwrite the remote head?  Only when no
/// overwrite was forced, a synchronization was recorded, and the remote head
/// is not the commit it recorded.
pub open spec fn spec_upstream_unexpected(rev: Revision, head0: int, force: bool) -> bool {
    &&& !force
    &&& spec_last_commit_trailer(rev) matches Some(Some(c)) && c != head0
}

/// Is the recorded trailer unreadable, in a way that blocks the safety
/// check?
pub open spec fn spec_trailer_unreadable(rev: Revision, force: bool) -> bool {
    !force && spec_last_commit_trailer(rev) == Some(Option::<nat>::None)
}

/// One revision's push step; see the module text.
#[verifier::rlimit(80)]
pub fn push_one(vcs: &mut VersionControlBackend, opts: &PushOptions, revision: &mut Revision,
    base: usize, head_branch: &str) -> (r: Result<PushOutcome, Error>)
    requires
        old(vcs).wf(),
        base < old(vcs).spec_commits().len(),
        old(revision).commit < old(vcs).spec_commits().len(),
    ensures
        final(vcs).wf(),
        final(vcs).spec_revisions() == old(vcs).spec_revisions(),
        ({
            let head0 = spec_resolved_head(*old(vcs), head_branch@, base);
            let target = old(revision).commit as int;
            let fresh = old(vcs).spec_commits().len();
            match r {
                Ok(PushOutcome::NoUpdate) => {
                    &&& old(vcs).spec_tree_of(target) == old(vcs).spec_tree_of(head0)
                    &&& old(vcs).is_ancestor_of(base as int, head0)
                    &&& *final(vcs) == *old(vcs)
                    &&& *final(revision) == *old(revision)
                },
                Ok(PushOutcome::Updated(c)) => {
                    &&& c == fresh
                    &&& old(vcs).is_ancestor_of(base as int, head0)
                    &&& !(old(vcs).spec_tree_of(target) == old(vcs).spec_tree_of(head0))
                    &&& !spec_upstream_unexpected(*old(revision), head0, opts.spec_force())
                    &&& !spec_trailer_unreadable(*old(revision), opts.spec_force())
                    &&& spec_derived_message(*old(revision), opts.spec_message(), head0 == base as int)
                        matches Some(m) && spec_pushed_state(
                        *old(vcs),
                        *final(vcs),
                        seq![head0 as usize],
                        target,
                        head_branch@,
                        c,
                        m,
                    )
                    &&& spec_trailer_recorded(*old(revision), *final(revision), c)
                },
                Ok(PushOutcome::Rebased(c)) => {
                    &&& c == fresh
                    &&& !old(vcs).is_ancestor_of(base as int, head0)
                    &&& old(vcs).spec_merge_base(head0, base as int) is Some
                    &&& !spec_upstream_unexpected(*old(revision), head0, opts.spec_force())
                    &&& !spec_trailer_unreadable(*old(revision), opts.spec_force())
                    &&& spec_derived_message(*old(revision), opts.spec_message(), head0 == base as int)
                        matches Some(m) && spec_pushed_state(
                        *old(vcs),
                        *final(vcs),
                        seq![head0 as usize, base],
                        target,
                        head_branch@,
                        c,
                        m,
                    )
                    &&& spec_trailer_recorded(*old(revision), *final(revision), c)
                },
                Err(e) => {
                    &&& *final(vcs) == *old(vcs)
                    &&& *final(revision) == *old(revision)
                    &&& (e.spec_kind() == ErrorKind::UnexpectedUpstream || e.spec_kind()
                        == ErrorKind::BackendError)
                    &&& (e.spec_kind() == ErrorKind::UnexpectedUpstream ==> spec_upstream_unexpected(
                        *old(revision),
                        head0,
                        opts.spec_force(),
                    ) && !(old(vcs).spec_tree_of(target) == old(vcs).spec_tree_of(head0)
                        && old(vcs).is_ancestor_of(base as int, head0)))
                    &&& (e.spec_kind() == ErrorKind::BackendError ==> old(vcs).spec_merge_base(
                        head0,
                        base as int,
                    ) is None || spec_trailer_unreadable(*old(revision), opts.spec_force())
                        || spec_derived_message(
                        *old(revision),
                        opts.spec_message(),
                        head0 == base as int,
                    ) is None)
                },
            }
        }),
{
    let ghost head0 = spec_resolved_head(*old(vcs), head_branch@, base);
    let found = vcs.branch_target(head_branch);
    let head_oid = match found {
        Some(c) => c,
        None => base,
    };
    let head_tree = vcs.tree_of(head_oid);
    let target_oid = revision.commit;
    let target_tree = vcs.tree_of(target_oid);
    let mb = vcs.merge_base(head_oid, base);
    let base_base = match mb {
        Some(m) => m,
        None => {
            return Err(Error::new("Remote head and base share no history"));
        },
    };
    let base_unchanged = base_base == base;
    proof {
        if base_unchanged {
            vcs.lemma_merge_base_of_ancestor(base as int, head0);
        } else {
            if vcs.is_ancestor_of(base as int, head0) {
                vcs.lemma_merge_base_of_ancestor(base as int, head0);
                assert(base_base == base);
            }
        }
    }
    if target_tree == head_tree && base_unchanged {
        return Ok(PushOutcome::NoUpdate);
    }
    if !opts.force {
        let recorded = revision.message.get(MessageSection::LastCommit);
        match recorded {
            Some(t) => {
                let parsed = parse_u64(t.as_str());
                match parsed {
                    Some(v) => {
                        if v != head_oid as u64 {
                            return Err(
                                Error::with_kind(
                                    ErrorKind::UnexpectedUpstream,
                                    "Cannot update: the remote branch has an unexpected upstream",
                                ),
                            );
                        }
                    },
                    None => {
                        return Err(Error::new("Recorded upstream commit is unreadable"));
                    },
                }
            },
            None => {},
        }
    }
    let first_publish = head_oid == base;
    let message = match derived_commit_message(revision, opts, first_publish) {
        Ok(m) => m,
        Err(e) => {
            return Err(e);
        },
    };
    let mut parents: Vec<usize> = Vec::new();
    parents.push(head_oid);
    if !base_unchanged {
        parents.push(base);
    }
    let ghost ps = parents@;
    let c = vcs.add_commit(parents, target_tree, message);
    let digits = format_u64(c as u64);
    revision.message.insert(MessageSection::LastCommit, digits);
    vcs.set_branch(head_branch, c);
    proof {
        if base_unchanged {
            assert(ps =~= seq![head0 as usize]);
        } else {
            assert(ps =~= seq![head0 as usize, base]);
        }
    }
    if base_unchanged {
        Ok(PushOutcome::Updated(c))
    } else {
        Ok(PushOutcome::Rebased(c))
    }
}

/// The push effect on the version-control state: one new commit carrying
/// the revision's tree with the given parents, and the head branch moved to
/// it; everything else untouched.
pub open spec fn spec_pushed_state(before: VersionControlBackend, after: VersionControlBackend,
    parents: Seq<usize>, target: int, head_branch: Seq<char>, c: usize, message: Seq<char>) -> bool {
    &&& after.spec_commits().len() == before.spec_commits().len() + 1
    &&& (forall|j: int|
        0 <= j < before.spec_commits().len() ==> #[trigger] after.spec_commits()[j]
            == before.spec_commits()[j])
    &&& after.spec_commits().last().parents@ == parents
    &&& after.spec_commits().last().tree == before.spec_tree_of(target)
    &&& after.spec_commits().last().message@ == message
    &&& after.spec_branch_target(head_branch) == Some(c)
    &&& (forall|other: Seq<char>|
        other != head_branch ==> #[trigger] after.spec_branch_target(other)
            == before.spec_branch_target(other))
    &&& after.spec_tree_of(c as int) == before.spec_tree_of(target)
}

/// The trailer write after a successful push: the revision records commit
/// `c` as the last synchronized upstream state; nothing else changes.
pub open spec fn spec_trailer_recorded(before: Revision, after: Revision, c: usize) -> bool {
    &&& after.message.spec_get(MessageSection::LastCommit) matches Some(t) && t@ == decimal_digits(
        c as nat,
    )
    &&& (forall|k: MessageSection|
        k != MessageSection::LastCommit ==> #[trigger] after.message.spec_get(k)
            == before.message.spec_get(k))
    &&& after.id == before.id
    &&& after.commit == before.commit
    &&& after.parent_ids == before.parent_ids
    &&& after.pull_request_number == before.pull_request_number
    &&& after.title == before.title
    &&& after.bookmarks == before.bookmarks
    &&& after.conflicted == before.conflicted
    &&& after.divergent == before.divergent
}

/// One processed revision of a batch: where it was pushed, what it was
/// based on, and the review request it already had, if any.
#[derive(Debug)]
pub struct BranchAction {
    pub revision: Revision,
    pub head_branch: String,
    pub base_branch: String,
    pub existing_nr: Option<u64>,
}

/// The remote-tracking ref names the branch-name search must avoid: one per
/// branch of the backend.
fn all_ref_names(vcs: &VersionControlBackend, config: &Config) -> (r: Vec<String>)
    ensures
        r@.len() == vcs.spec_branches().len(),
        forall|i: int|
            0 <= i < r@.len() ==> #[trigger] r@[i]@ == crate::config::spec_remote_ref(
                config.remote_name@,
                vcs.spec_branches()[i].0@,
            ),
{
    let n = vcs.branch_count();
    let mut names: Vec<String> = Vec::new();
    let mut i: usize = 0;
    while i < n
        invariant
            n == vcs.spec_branches().len(),
            i <= n,
            names@.len() == i,
            forall|j: int|
                0 <= j < i ==> #[trigger] names@[j]@ == crate::config::spec_remote_ref(
                    config.remote_name@,
                    vcs.spec_branches()[j].0@,
                ),
        decreases n - i,
    {
        proof {
            reveal_strlit("refs/remotes/");
            reveal_strlit("/");
            assert("/"@ =~= seq!['/']);
        }
        let mut s = String::from_str("refs/remotes/");
        s.append(config.remote_name.as_str());
        s.append("/");
        s.append(vcs.branch_name_at(i).as_str());
        proof {
            assert(s@ =~= crate::config::spec_remote_ref(
                config.remote_name@,
                vcs.spec_branches()[i as int].0@,
            ));
        }
        names.push(s);
        i = i + 1;
    }
    names
}

/// The title text of a revision, for naming its branch: the stored title
/// trailer, or nothing.
pub open spec fn spec_title_text(rev: Revision) -> Seq<char> {
    match rev.message.spec_get(MessageSection::Title) {
        Some(t) => t@,
        None => Seq::empty(),
    }
}

/// The head-branch rule of one step: the request's own head branch; else
/// the revision's first bookmark; else a fresh name from the branch prefix
/// and the title's slug, avoiding every remote-tracking ref.
pub open spec fn spec_head_rule(vcs: VersionControlBackend, config: Config, rev: Revision,
    pr: Option<PullRequest>, head: Seq<char>) -> bool {
    match pr {
        Some(p) => head == p.head@,
        None => if rev.bookmarks@.len() > 0 {
            head == rev.bookmarks@[0]@
        } else {
            (exists|names: Seq<String>|
                {
                    &&& names.len() == vcs.spec_branches().len()
                    &&& (forall|i: int|
                        0 <= i < names.len()
                            ==> #[trigger] names[i]@ == crate::config::spec_remote_ref(
                            config.remote_name@,
                            vcs.spec_branches()[i].0@,
                        ))
                    &&& crate::config::spec_is_unused_candidate(
                        head,
                        config.branch_prefix@ + crate::utils::slug_of(spec_title_text(rev)),
                        config.remote_name@,
                        names,
                    )
                })
        },
    }
}

/// The head branch recorded for the first prior batch item that is `rev`'s
/// parent, scanning the prior actions from `i`.
pub open spec fn spec_seen_parent_head(seen: Seq<BranchAction>, i: int, rev: Revision) -> Option<
    Seq<char>,
>
    decreases seen.len() - i,
{
    if i < 0 || i >= seen.len() {
        None
    } else if seen[i].revision.id.0@ == rev.parent_ids@[0].0@ {
        Some(seen[i].head_branch@)
    } else {
        spec_seen_parent_head(seen, i + 1, rev)
    }
}

/// The base-branch rule of one step: the request's base branch is
/// authoritative; else the head branch freshly pushed for the revision's
/// parent earlier in the batch; else none — the trunk.
pub open spec fn spec_base_branch_rule(rev: Revision, pr: Option<PullRequest>,
    seen: Seq<BranchAction>) -> Option<Seq<char>> {
    match pr {
        Some(p) => Some(p.base@),
        None => spec_seen_parent_head(seen, 0, rev),
    }
}

/// The base commit the rules resolve to: the named branch's target — except
/// that the trunk is never taken at its literal tip: there, and when no
/// branch is named, the fork point of trunk and the revision is used.
/// `None` is a model failure: the named branch is missing, or the revision
/// shares no history with the trunk.
pub open spec fn spec_base_rule(vcs: VersionControlBackend, config: Config, rev: Revision,
    pr: Option<PullRequest>, seen: Seq<BranchAction>, trunk: usize) -> Option<int> {
    match spec_base_branch_rule(rev, pr, seen) {
        Some(name) => if name != config.master_ref.spec_branch_name() {
            match vcs.spec_branch_target(name) {
                Some(c) => Some(c as int),
                None => None,
            }
        } else {
            vcs.spec_merge_base(trunk as int, rev.commit as int)
        },
        None => vcs.spec_merge_base(trunk as int, rev.commit as int),
    }
}

/// The full effect of one push step: the three outcomes of `push_one`,
/// merged into one relation between the states before and after.
pub open spec fn spec_push_one_effect(pre: VersionControlBackend, post: VersionControlBackend,
    force: bool, optmsg: Option<String>, rev_before: Revision, rev_after: Revision, base: usize,
    head_branch: Seq<char>) -> bool {
    let head0 = spec_resolved_head(pre, head_branch, base);
    let target = rev_before.commit as int;
    ||| {
        &&& pre.spec_tree_of(target) == pre.spec_tree_of(head0)
        &&& pre.is_ancestor_of(base as int, head0)
        &&& post == pre
        &&& rev_after == rev_before
    }
    ||| (exists|c: usize|
        {
            &&& c == pre.spec_commits().len()
            &&& pre.is_ancestor_of(base as int, head0)
            &&& !(pre.spec_tree_of(target) == pre.spec_tree_of(head0))
            &&& !spec_upstream_unexpected(rev_before, head0, force)
            &&& !spec_trailer_unreadable(rev_before, force)
            &&& spec_derived_message(rev_before, optmsg, head0 == base as int) matches Some(m)
                && spec_pushed_state(pre, post, seq![head0 as usize], target, head_branch, c, m)
            &&& #[trigger] spec_trailer_recorded(rev_before, rev_after, c)
        })
    ||| (exists|c: usize|
        {
            &&& c == pre.spec_commits().len()
            &&& !pre.is_ancestor_of(base as int, head0)
            &&& pre.spec_merge_base(head0, base as int) is Some
            &&& !spec_upstream_unexpected(rev_before, head0, force)
            &&& !spec_trailer_unreadable(rev_before, force)
            &&& spec_derived_message(rev_before, optmsg, head0 == base as int) matches Some(m)
                && spec_pushed_state(
                pre,
                post,
                seq![head0 as usize, base],
                target,
                head_branch,
                c,
                m,
            )
            &&& #[trigger] spec_trailer_recorded(rev_before, rev_after, c)
        })
}

/// One step of the batch: the head and base rules name where to push, the
/// step effect relates the states, and the action records it all.
#[verifier::opaque]
pub open spec fn spec_push_step(pre: VersionControlBackend, post: VersionControlBackend,
    config: Config, force: bool, optmsg: Option<String>, rev: Revision, pr: Option<PullRequest>,
    action: BranchAction, seen: Seq<BranchAction>, trunk: usize) -> bool {
    &&& spec_head_rule(pre, config, rev, pr, action.head_branch@)
    &&& spec_base_rule(pre, config, rev, pr, seen, trunk) matches Some(base)
        && 0 <= base <= usize::MAX && spec_push_one_effect(
        pre,
        post,
        force,
        optmsg,
        rev,
        action.revision,
        base as usize,
        action.head_branch@,
    )
    &&& action.existing_nr == (match pr {
        Some(p) => Some(p.number),
        None => None,
    })
    &&& action.base_branch@ == (match spec_base_branch_rule(rev, pr, seen) {
        Some(n) => n,
        None => config.master_ref.spec_branch_name(),
    })
    &&& action.revision.id.0@ == rev.id.0@
}

/// Does the action record this batch item: same revision identity, and the
/// item's request number as the existing one?
pub open spec fn spec_action_matches(a: BranchAction, item: (Revision, Option<PullRequest>)) -> bool {
    &&& a.revision.id.0@ == item.0.id.0@
    &&& a.existing_nr == (match item.1 {
        Some(pr) => Some(pr.number),
        None => None,
    })
}

/// One step of a batch at position `i`: the step relates the adjacent
/// states, over the actions taken before it.
pub open spec fn spec_push_step_at(states: Seq<VersionControlBackend>, config: Config,
    force: bool, optmsg: Option<String>, items: Seq<(Revision, Option<PullRequest>)>,
    actions: Seq<BranchAction>, trunk: usize, i: int) -> bool {
    spec_push_step(
        states[i],
        states[i + 1],
        config,
        force,
        optmsg,
        items[i].0,
        items[i].1,
        actions[i],
        actions.take(i),
        trunk,
    )
}

/// A chain of states that takes the batch's items one step at a time, each
/// step over the actions before it.
pub open spec fn spec_push_chain(states: Seq<VersionControlBackend>, config: Config, force: bool,
    optmsg: Option<String>, items: Seq<(Revision, Option<PullRequest>)>,
    actions: Seq<BranchAction>, trunk: usize) -> bool {
    &&& states.len() == items.len() + 1
    &&& actions.len() == items.len()
    &&& forall|i: int|
        0 <= i < items.len() ==> #[trigger] spec_push_step_at(
            states,
            config,
            force,
            optmsg,
            items,
            actions,
            trunk,
            i,
        )
}

/// The whole batch: some chain of states from `pre` to `post`, one step per
/// item in order.
pub open spec fn spec_push_batch(pre: VersionControlBackend, post: VersionControlBackend,
    config: Config, force: bool, optmsg: Option<String>, items: Seq<
    (Revision, Option<PullRequest>),
>, actions: Seq<BranchAction>, trunk: usize) -> bool {
    exists|states: Seq<VersionControlBackend>|
        #[trigger] spec_push_chain(states, config, force, optmsg, items, actions, trunk)
            && states[0] == pre && states.last() == post
}

/// A batch that stopped part way, at an item strictly inside the stack: the
/// items before the failing one were taken, as a full chain of steps;
/// nothing from the failing item on was touched.
pub open spec fn spec_push_batch_prefix(pre: VersionControlBackend, post: VersionControlBackend,
    config: Config, force: bool, optmsg: Option<String>, items: Seq<
    (Revision, Option<PullRequest>),
>, trunk: usize) -> bool {
    exists|k: int, acts: Seq<BranchAction>|
        0 <= k < items.len() && #[trigger] spec_push_batch(
            pre,
            post,
            config,
            force,
            optmsg,
            items.take(k),
            acts,
            trunk,
        )
}

/// The sequential, parent-before-child loop of `push`: each revision is
/// pushed over the base its position in the stack dictates — its own
/// request's base branch, or the head branch freshly pushed for its parent,
/// or the fork point with trunk — and any failure aborts the batch, since
/// later revisions build on earlier branches.  A successful batch is
/// exactly a chain of push steps (`spec_push_batch`); a failed one leaves
/// exactly the chain of the steps before the failure.
#[verifier::rlimit(100)]
pub fn do_push(vcs: &mut VersionControlBackend, config: &Config, opts: &PushOptions,
    revisions: Vec<(Revision, Option<PullRequest>)>, trunk: usize) -> (r: Result<
    Vec<BranchAction>,
    Error,
>)
    requires
        old(vcs).wf(),
        trunk < old(vcs).spec_commits().len(),
        forall|i: int|
            0 <= i < revisions@.len() ==> #[trigger] revisions@[i].0.commit < old(
                vcs,
            ).spec_commits().len(),
        forall|i: int| 0 <= i < revisions@.len() ==> #[trigger] revisions@[i].0.parent_ids@.len() >= 1,
    ensures
        final(vcs).wf(),
        final(vcs).spec_revisions() == old(vcs).spec_revisions(),
        old(vcs).spec_commits().len() <= final(vcs).spec_commits().len(),
        match r {
            Ok(actions) => {
                &&& actions@.len() == revisions@.len()
                &&& (forall|i: int|
                    0 <= i < actions@.len() ==> #[trigger] spec_action_matches(
                        actions@[i],
                        revisions@[i],
                    ))
                &&& spec_push_batch(
                    *old(vcs),
                    *final(vcs),
                    *config,
                    opts.spec_force(),
                    opts.spec_message(),
                    revisions@,
                    actions@,
                    trunk,
                )
            },
            Err(e) => {
                &&& spec_push_batch_prefix(
                    *old(vcs),
                    *final(vcs),
                    *config,
                    opts.spec_force(),
                    opts.spec_message(),
                    revisions@,
                    trunk,
                )
                &&& {
                    ||| {
                        &&& e.spec_messages().len() >= 1
                        &&& e.spec_messages().last()@ == "pushing one revision of the stack"@
                        &&& (e.spec_kind() == ErrorKind::UnexpectedUpstream || e.spec_kind()
                            == ErrorKind::BackendError)
                    }
                    ||| e.spec_kind() == ErrorKind::BackendError && e.spec_messages().len() == 1
                }
            },
        },
{
    let ghost orig = revisions@;
    let ghost force = opts.spec_force();
    let ghost optmsg = opts.spec_message();
    let mut rest = revisions;
    let mut seen: Vec<BranchAction> = Vec::new();
    let ghost mut states: Seq<VersionControlBackend> = seq![*vcs];
    while rest.len() > 0
        invariant
            vcs.wf(),
            vcs.spec_revisions() == old(vcs).spec_revisions(),
            old(vcs).spec_commits().len() <= vcs.spec_commits().len(),
            trunk < vcs.spec_commits().len(),
            force == opts.spec_force(),
            optmsg == opts.spec_message(),
            orig == revisions@,
            seen@.len() + rest@.len() == orig.len(),
            rest@ == orig.skip(seen@.len() as int),
            states.len() == seen@.len() + 1,
            states[0] == *old(vcs),
            states.last() == *vcs,
            forall|i: int|
                0 <= i < seen@.len() ==> #[trigger] spec_push_step_at(
                    states,
                    *config,
                    force,
                    optmsg,
                    orig,
                    seen@,
                    trunk,
                    i,
                ),
            forall|i: int|
                0 <= i < orig.len() ==> #[trigger] orig[i].0.commit < vcs.spec_commits().len(),
            forall|i: int| 0 <= i < orig.len() ==> #[trigger] orig[i].0.parent_ids@.len() >= 1,
            forall|i: int|
                0 <= i < seen@.len() ==> #[trigger] spec_action_matches(seen@[i], orig[i]),
        decreases rest@.len(),
    {
        let ghost k = seen@.len();
        let ghost pre_i = *vcs;
        let ghost seen_pre = seen@;
        let ghost states_pre = states;
        proof {
            assert(orig.skip(k as int)[0] == orig[k as int]);
            assert(orig.skip(k as int).drop_first() =~= orig.skip(k as int + 1));
        }
        let (mut revision, maybe_pr) = rest.remove(0);
        let ghost rev0 = revision;
        proof {
            assert(rev0 == orig[k as int].0);
            assert(maybe_pr == orig[k as int].1);
            assert(rev0.commit < vcs.spec_commits().len());
        }
        let head_ref: String = match &maybe_pr {
            Some(pr) => {
                let h = pr.head.clone();
                proof {
                    assert(spec_head_rule(pre_i, *config, rev0, maybe_pr, h@));
                }
                h
            },
            None => {
                if revision.bookmarks.len() > 0 {
                    let h = revision.bookmarks[0].clone();
                    proof {
                        assert(spec_head_rule(pre_i, *config, rev0, maybe_pr, h@));
                    }
                    h
                } else {
                    let names = all_ref_names(vcs, config);
                    let title = revision.message.get(MessageSection::Title);
                    let h = match title {
                        Some(t) => {
                            let t2 = t.clone();
                            let h = config.get_new_branch_name(&names, t2.as_str());
                            proof {
                                assert(t2@ == spec_title_text(rev0));
                            }
                            h
                        },
                        None => {
                            let h = config.get_new_branch_name(&names, "");
                            proof {
                                reveal_strlit("");
                                assert(""@ =~= spec_title_text(rev0));
                            }
                            h
                        },
                    };
                    proof {
                        assert(spec_head_rule(pre_i, *config, rev0, maybe_pr, h@));
                    }
                    h
                }
            },
        };
        let base_branch: Option<String> = match &maybe_pr {
            Some(pr) => {
                let b = pr.base.clone();
                proof {
                    assert(spec_base_branch_rule(rev0, maybe_pr, seen_pre) == Some(b@));
                }
                Some(b)
            },
            None => {
                let mut found: Option<String> = None;
                let m = seen.len();
                let mut j: usize = 0;
                while j < m
                    invariant
                        m == seen@.len(),
                        seen@ == seen_pre,
                        j <= m,
                        revision == rev0,
                        rev0.parent_ids@.len() >= 1,
                        match found {
                            Some(h) => spec_seen_parent_head(seen_pre, 0, rev0) == Some(h@),
                            None => spec_seen_parent_head(seen_pre, 0, rev0)
                                == spec_seen_parent_head(seen_pre, j as int, rev0),
                        },
                    decreases m - j,
                {
                    if found.is_none() && str_eq(
                        seen[j].revision.id.0.as_str(),
                        revision.parent_ids[0].0.as_str(),
                    ) {
                        let h = seen[j].head_branch.clone();
                        proof {
                            assert(spec_seen_parent_head(seen_pre, j as int, rev0) == Some(
                                seen_pre[j as int].head_branch@,
                            ));
                        }
                        found = Some(h);
                    }
                    j = j + 1;
                }
                proof {
                    match &found {
                        Some(h) => {
                            assert(spec_base_branch_rule(rev0, maybe_pr, seen_pre) == Some(h@));
                        },
                        None => {
                            assert(spec_seen_parent_head(seen_pre, m as int, rev0) is None);
                            assert(spec_base_branch_rule(rev0, maybe_pr, seen_pre) is None);
                        },
                    }
                }
                found
            },
        };
        let base_ref: usize = match &base_branch {
            Some(name) => {
                if !str_eq(name.as_str(), config.master_ref.branch_name()) {
                    let target = vcs.branch_target(name.as_str());
                    match target {
                        Some(c) => {
                            proof {
                                let bi = choose|bi: int|
                                    0 <= bi < vcs.spec_branches().len()
                                        && #[trigger] vcs.spec_branches()[bi].0@ == name@;
                                assert(vcs.spec_branches()[bi].1 < vcs.spec_commits().len());
                                assert(spec_base_rule(
                                    pre_i,
                                    *config,
                                    rev0,
                                    maybe_pr,
                                    seen_pre,
                                    trunk,
                                ) == Some(c as int));
                            }
                            c
                        },
                        None => {
                            proof {
                                lemma_prefix_batch_witness(
                                    states,
                                    *config,
                                    force,
                                    optmsg,
                                    orig,
                                    seen_pre,
                                    trunk,
                                    k as int,
                                );
                                assert(spec_push_batch_prefix(
                                    *old(vcs),
                                    *vcs,
                                    *config,
                                    opts.spec_force(),
                                    opts.spec_message(),
                                    orig,
                                    trunk,
                                ));
                            }
                            return Err(Error::new("Base branch not found on the remote"));
                        },
                    }
                } else {
                    let fp = vcs.merge_base(trunk, revision.commit);
                    match fp {
                        Some(c) => {
                            proof {
                                vcs.lemma_ancestor_le(c as int, trunk as int);
                                assert(spec_base_rule(
                                    pre_i,
                                    *config,
                                    rev0,
                                    maybe_pr,
                                    seen_pre,
                                    trunk,
                                ) == Some(c as int));
                            }
                            c
                        },
                        None => {
                            proof {
                                lemma_prefix_batch_witness(
                                    states,
                                    *config,
                                    force,
                                    optmsg,
                                    orig,
                                    seen_pre,
                                    trunk,
                                    k as int,
                                );
                                assert(spec_push_batch_prefix(
                                    *old(vcs),
                                    *vcs,
                                    *config,
                                    opts.spec_force(),
                                    opts.spec_message(),
                                    orig,
                                    trunk,
                                ));
                            }
                            return Err(
                                Error::new("Revision shares no history with the trunk branch"),
                            );
                        },
                    }
                }
            },
            None => {
                let fp = vcs.merge_base(trunk, revision.commit);
                match fp {
                    Some(c) => {
                        proof {
                            vcs.lemma_ancestor_le(c as int, trunk as int);
                            assert(spec_base_rule(pre_i, *config, rev0, maybe_pr, seen_pre, trunk)
                                == Some(c as int));
                        }
                        c
                    },
                    None => {
                        proof {
                            lemma_prefix_batch_witness(
                                states,
                                *config,
                                force,
                                optmsg,
                                orig,
                                seen_pre,
                                trunk,
                                k as int,
                            );
                            assert(spec_push_batch_prefix(
                                *old(vcs),
                                *vcs,
                                *config,
                                opts.spec_force(),
                                opts.spec_message(),
                                orig,
                                trunk,
                            ));
                        }
                        return Err(
                            Error::new("Revision shares no history with the trunk branch"),
                        );
                    },
                }
            },
        };
        let step = push_one(vcs, opts, &mut revision, base_ref, head_ref.as_str());
        match step {
            Ok(_) => {},
            Err(e) => {
                proof {
                    lemma_prefix_batch_witness(
                        states,
                        *config,
                        force,
                        optmsg,
                        orig,
                        seen_pre,
                        trunk,
                        k as int,
                    );
                    assert(spec_push_batch_prefix(
                        *old(vcs),
                        *vcs,
                        *config,
                        opts.spec_force(),
                        opts.spec_message(),
                        orig,
                        trunk,
                    ));
                }
                return Err(e).context("pushing one revision of the stack".to_owned());
            },
        }
        proof {
            assert(revision.id == rev0.id);
        }
        let base_branch_name: String = match base_branch {
            Some(name) => name,
            None => {
                let b = config.master_ref.branch_name();
                b.to_owned()
            },
        };
        let existing_nr: Option<u64> = match &maybe_pr {
            Some(pr) => Some(pr.number),
            None => None,
        };
        seen.push(
            BranchAction { revision, head_branch: head_ref, base_branch: base_branch_name, existing_nr },
        );
        proof {
            states = states.push(*vcs);
            let act = seen@.last();
            assert(seen@[k as int] == seen@.last());
            assert(spec_action_matches(seen@[k as int], orig[k as int]));
            assert forall|i: int|
                0 <= i < seen@.len() implies #[trigger] spec_action_matches(seen@[i], orig[i]) by {
                if i < k {
                    assert(seen@[i] == seen_pre[i]);
                    assert(spec_action_matches(seen_pre[i], orig[i]));
                }
            }
            assert(spec_push_one_effect(
                pre_i,
                *vcs,
                force,
                optmsg,
                rev0,
                act.revision,
                base_ref,
                act.head_branch@,
            )) by {
                match step {
                    Ok(PushOutcome::NoUpdate) => {},
                    Ok(PushOutcome::Updated(c)) => {
                        assert(spec_trailer_recorded(rev0, act.revision, c));
                    },
                    Ok(PushOutcome::Rebased(c)) => {
                        assert(spec_trailer_recorded(rev0, act.revision, c));
                    },
                    Err(_) => {
                        assert(false);
                    },
                }
            }
            assert(spec_push_step(
                pre_i,
                *vcs,
                *config,
                force,
                optmsg,
                rev0,
                maybe_pr,
                act,
                seen_pre,
                trunk,
            )) by {
                reveal(spec_push_step);
            }
            assert(seen@.take(k as int) =~= seen_pre);
            assert(spec_push_step_at(states, *config, force, optmsg, orig, seen@, trunk, k as int))
                by {
                reveal(spec_push_step);
                assert(states[k as int] == pre_i);
                assert(states[k as int + 1] == *vcs);
            }
            assert forall|i: int|
                0 <= i < seen@.len() implies #[trigger] spec_push_step_at(
                states,
                *config,
                force,
                optmsg,
                orig,
                seen@,
                trunk,
                i,
            ) by {
                if i < k {
                    assert(spec_push_step_at(
                        states_pre,
                        *config,
                        force,
                        optmsg,
                        orig,
                        seen_pre,
                        trunk,
                        i,
                    ));
                    assert(states_pre[i] == states[i]);
                    assert(states_pre[i + 1] == states[i + 1]);
                    assert(seen@[i] == seen_pre[i]);
                    assert(seen@.take(i) =~= seen_pre.take(i));
                    reveal(spec_push_step);
                }
            }
        }
    }
    proof {
        assert(orig.skip(orig.len() as int) =~= Seq::<(Revision, Option<PullRequest>)>::empty());
        assert(spec_push_chain(states, *config, force, optmsg, orig, seen@, trunk));
        assert(spec_push_batch(*old(vcs), *vcs, *config, force, optmsg, orig, seen@, trunk));
    }
    Ok(seen)
}

/// The witness for a batch that stops after `k` items: the chain built so
/// far is exactly the batch over the first `k` items.
proof fn lemma_prefix_batch_witness(states: Seq<VersionControlBackend>, config: Config,
    force: bool, optmsg: Option<String>, orig: Seq<(Revision, Option<PullRequest>)>,
    seen: Seq<BranchAction>, trunk: usize, k: int)
    requires
        0 <= k <= orig.len(),
        states.len() == k + 1,
        seen.len() == k,
        forall|i: int|
            0 <= i < k ==> #[trigger] spec_push_step_at(
                states,
                config,
                force,
                optmsg,
                orig,
                seen,
                trunk,
                i,
            ),
    ensures
        spec_push_batch(states[0], states.last(), config, force, optmsg, orig.take(k), seen, trunk),
        exists|k2: int, acts: Seq<BranchAction>|
            0 <= k2 <= orig.len() && #[trigger] spec_push_batch(
                states[0],
                states.last(),
                config,
                force,
                optmsg,
                orig.take(k2),
                acts,
                trunk,
            ),
{
    let items = orig.take(k);
    assert forall|i: int|
        0 <= i < items.len() implies #[trigger] spec_push_step_at(
        states,
        config,
        force,
        optmsg,
        items,
        seen,
        trunk,
        i,
    ) by {
        assert(spec_push_step_at(states, config, force, optmsg, orig, seen, trunk, i));
        assert(items[i] == orig[i]);
        reveal(spec_push_step);
    }
    assert(spec_push_chain(states, config, force, optmsg, items, seen, trunk));
    assert(spec_push_batch(states[0], states.last(), config, force, optmsg, items, seen, trunk));
}

/// Every request a stack revision names is present in the review backend.
pub open spec fn spec_requests_found(gh: ReviewBackend, stack: Seq<Revision>) -> bool {
    forall|i: int|
        0 <= i < stack.len() ==> match #[trigger] stack[i].pull_request_number {
            Some(n) => gh.spec_find(n) is Some,
            None => true,
        }
}

/// One prefetched pair: the revision itself, and — exactly when it names a
/// request — a faithful copy of that request's record.
pub open spec fn spec_prefetched_at(gh: ReviewBackend, stack: Seq<Revision>, pairs: Seq<
    (Revision, Option<PullRequest>),
>, i: int) -> bool {
    &&& pairs[i].0 == stack[i]
    &&& match stack[i].pull_request_number {
        Some(n) => gh.spec_find(n) matches Some(j) && (pairs[i].1 matches Some(p)
            && crate::github::pr_like(p, gh.spec_records()[j].pr)),
        None => pairs[i].1 is None,
    }
}

/// The read fan-out before the batch: every revision paired with its
/// request, read from the review backend.
pub open spec fn spec_prefetched(gh: ReviewBackend, stack: Seq<Revision>, pairs: Seq<
    (Revision, Option<PullRequest>),
>) -> bool {
    &&& pairs.len() == stack.len()
    &&& forall|i: int| 0 <= i < stack.len() ==> #[trigger] spec_prefetched_at(gh, stack, pairs, i)
}

/// What a successful push run did to the version-control state: the whole
/// batch was pushed over the prefetched pairs, and the later bookkeeping
/// touched neither the commit graph nor the branches.
pub open spec fn spec_push_effect(vcs0: VersionControlBackend, vcs1: VersionControlBackend,
    gh0: ReviewBackend, config: Config, force: bool, optmsg: Option<String>, stack: Seq<Revision>,
    trunk: usize) -> bool {
    exists|pairs: Seq<(Revision, Option<PullRequest>)>, actions: Seq<BranchAction>, mid: VersionControlBackend|
        {
            &&& spec_prefetched(gh0, stack, pairs)
            &&& #[trigger] spec_push_batch(vcs0, mid, config, force, optmsg, pairs, actions, trunk)
            &&& vcs1.spec_commits() == mid.spec_commits()
            &&& vcs1.spec_branches() == mid.spec_branches()
        }
}

/// May this revision not be pushed?  A stacked revision must have exactly
/// one parent and be neither conflicted nor divergent; a merge is excluded
/// by the parent count.
pub open spec fn spec_revision_blocked(rev: Revision) -> bool {
    rev.parent_ids@.len() != 1 || rev.conflicted || rev.divergent
}

/// The push command over the whole candidate stack, parent first: validate
/// the topology, push every revision over its base, open review requests
/// for the new ones, and bring every request's stack-overview comment up to
/// date.  An empty stack is a successful no-op, and a blocked revision
/// aborts the whole batch before anything is written.
pub fn push(vcs: &mut VersionControlBackend, gh: &mut ReviewBackend, config: &Config,
    opts: PushOptions, stack: Vec<Revision>) -> (r: Result<(), Error>)
    requires
        old(vcs).wf(),
        old(gh).wf(),
        forall|i: int|
            0 <= i < stack@.len() ==> #[trigger] stack@[i].commit < old(vcs).spec_commits().len(),
    ensures
        final(vcs).wf(),
        final(gh).wf(),
        (exists|i: int| 0 <= i < stack@.len() && spec_revision_blocked(#[trigger] stack@[i]))
            ==> (r matches Err(e) && e.spec_kind() == ErrorKind::InvalidStackTopology && *final(vcs) == *old(vcs) && *final(gh) == *old(gh)),
        stack@.len() == 0 ==> r is Ok && *final(vcs) == *old(vcs) && *final(gh) == *old(gh),
        (exists|i: int|
            {
                &&& 0 <= i < stack@.len()
                &&& (#[trigger] stack@[i].pull_request_number) matches Some(n) && old(gh).spec_find(n) is None
                &&& forall|j: int|
                    0 <= j < stack@.len() ==> !spec_revision_blocked(#[trigger] stack@[j])
            }) ==> (r is Err && *final(vcs) == *old(vcs) && *final(gh) == *old(gh)),
        r is Ok && (forall|i: int|
            0 <= i < stack@.len() ==> (#[trigger] stack@[i]).pull_request_number is Some)
            ==> final(gh).spec_records().len() == old(gh).spec_records().len(),
        r matches Err(e) ==> (e.spec_kind() == ErrorKind::InvalidStackTopology || e.spec_kind()
            == ErrorKind::UnexpectedUpstream || e.spec_kind() == ErrorKind::BackendError),
        r is Ok && stack@.len() > 0 ==> (old(vcs).spec_branch_target(
            config.master_ref.spec_branch_name(),
        ) matches Some(trunk) && spec_push_effect(
            *old(vcs),
            *final(vcs),
            *old(gh),
            *config,
            opts.spec_force(),
            opts.spec_message(),
            stack@,
            trunk,
        )),
{
    let ghost stack0 = stack@;
    let n = stack.len();
    let mut i: usize = 0;
    while i < n
        invariant
            *vcs == *old(vcs),
            *gh == *old(gh),
            old(vcs).wf(),
            old(gh).wf(),
            n == stack@.len(),
            stack@ == stack0,
            i <= n,
            forall|j: int| 0 <= j < i ==> !spec_revision_blocked(#[trigger] stack@[j]),
        decreases n - i,
    {
        if stack[i].parent_ids.len() != 1 || stack[i].conflicted || stack[i].divergent {
            return Err(
                Error::with_kind(
                    ErrorKind::InvalidStackTopology,
                    "Found an invalid commit: it is divergent, conflicted or a merge",
                ),
            );
        }
        i = i + 1;
    }
    if n == 0 {
        return Ok(());
    }
    let mut rest = stack;
    let mut pairs: Vec<(Revision, Option<PullRequest>)> = Vec::new();
    while rest.len() > 0
        invariant
            *vcs == *old(vcs),
            *gh == *old(gh),
            old(vcs).wf(),
            old(gh).wf(),
            stack0 == stack@,
            forall|j: int| 0 <= j < stack0.len() ==> !spec_revision_blocked(#[trigger] stack0[j]),
            pairs@.len() + rest@.len() == stack0.len(),
            rest@ == stack0.skip(pairs@.len() as int),
            forall|j: int| 0 <= j < stack0.len() ==> !spec_revision_blocked(#[trigger] stack0[j]),
            forall|j: int|
                0 <= j < stack0.len() ==> #[trigger] stack0[j].commit < vcs.spec_commits().len(),
            forall|j: int| 0 <= j < pairs@.len() ==> #[trigger] pairs@[j].0 == stack0[j],
            forall|j: int|
                0 <= j < pairs@.len() ==> #[trigger] spec_prefetched_at(
                    *old(gh),
                    stack0,
                    pairs@,
                    j,
                ),
        decreases rest@.len(),
    {
        let ghost k = pairs@.len();
        let ghost pairs_pre = pairs@;
        proof {
            assert(stack0.skip(k as int)[0] == stack0[k as int]);
            assert(stack0.skip(k as int).drop_first() =~= stack0.skip(k as int + 1));
        }
        let rev = rest.remove(0);
        let pr: Option<PullRequest> = match rev.pull_request_number {
            Some(num) => {
                let got = gh.pull_request(num);
                match got {
                    Ok(p) => Some(p),
                    Err(e) => {
                        return Err(e).context("fetching the stack's review requests".to_owned());
                    },
                }
            },
            None => None,
        };
        pairs.push((rev, pr));
        proof {
            assert(spec_prefetched_at(*old(gh), stack0, pairs@, k as int));
            assert forall|j: int|
                0 <= j < pairs@.len() implies #[trigger] spec_prefetched_at(
                *old(gh),
                stack0,
                pairs@,
                j,
            ) by {
                if j < k {
                    assert(spec_prefetched_at(*old(gh), stack0, pairs_pre, j));
                    assert(pairs@[j] == pairs_pre[j]);
                }
            }
        }
    }
    proof {
        assert(stack0.skip(stack0.len() as int) =~= Seq::<Revision>::empty());
        assert(spec_prefetched(*old(gh), stack0, pairs@));
        assert forall|i: int|
            0 <= i < stack0.len() implies match #[trigger] stack0[i].pull_request_number {
            Some(n) => old(gh).spec_find(n) is Some,
            None => true,
        } by {
            assert(spec_prefetched_at(*old(gh), stack0, pairs@, i));
        }
        assert(spec_requests_found(*old(gh), stack0));
    }
    let ghost pairs_g = pairs@;
    let trunk_found = vcs.branch_target(config.master_ref.branch_name());
    let trunk = match trunk_found {
        Some(c) => {
            proof {
                let bi = choose|bi: int|
                    0 <= bi < vcs.spec_branches().len() && #[trigger] vcs.spec_branches()[bi].0@
                        == config.master_ref.spec_branch_name();
                assert(vcs.spec_branches()[bi].1 < vcs.spec_commits().len());
            }
            c
        },
        None => {
            return Err(Error::new("The trunk branch does not exist on the remote"));
        },
    };
    let pushed = do_push(vcs, config, &opts, pairs, trunk);
    let actions = match pushed {
        Ok(a) => a,
        Err(e) => {
            return Err(e);
        },
    };
    let ghost vcs_mid = *vcs;
    let ghost actions_g = actions@;
    proof {
        assert(spec_push_batch(
            *old(vcs),
            vcs_mid,
            *config,
            opts.spec_force(),
            opts.spec_message(),
            pairs_g,
            actions_g,
            trunk,
        ));
    }
    proof {
        assert forall|q: int|
            0 <= q < actions_g.len() && (forall|j: int|
                0 <= j < stack0.len() ==> (#[trigger] stack0[j]).pull_request_number is Some) implies (#[trigger] actions_g[q]).existing_nr is Some by {
            assert(spec_action_matches(actions_g[q], pairs_g[q]));
            assert(spec_prefetched_at(*old(gh), stack0, pairs_g, q));
        }
    }
    let mut acts = actions;
    let mut processed: Vec<Revision> = Vec::new();
    while acts.len() > 0
        invariant
            vcs.wf(),
            gh.wf(),
            stack0 == stack@,
            stack0.len() > 0,
            forall|j: int| 0 <= j < stack0.len() ==> !spec_revision_blocked(#[trigger] stack0[j]),
            (forall|j: int|
                0 <= j < stack0.len() ==> (#[trigger] stack0[j]).pull_request_number is Some) ==> gh.spec_records().len() == old(gh).spec_records().len(),
            forall|q: int|
                0 <= q < acts@.len() && (forall|j: int|
                0 <= j < stack0.len() ==> (#[trigger] stack0[j]).pull_request_number is Some) ==> (#[trigger] acts@[q]).existing_nr is Some,
            spec_requests_found(*old(gh), stack0),
            old(vcs).spec_branch_target(config.master_ref.spec_branch_name()) == Some(trunk),
            spec_prefetched(*old(gh), stack0, pairs_g),
            spec_push_batch(
                *old(vcs),
                vcs_mid,
                *config,
                opts.spec_force(),
                opts.spec_message(),
                pairs_g,
                actions_g,
                trunk,
            ),
            vcs.spec_commits() == vcs_mid.spec_commits(),
            vcs.spec_branches() == vcs_mid.spec_branches(),
        decreases acts@.len(),
    {
        let ghost acts_pre = acts@;
        let mut action = acts.remove(0);
        proof {
            assert forall|q: int| 0 <= q < acts@.len() implies acts@[q] == acts_pre[q + 1] by {}
        }
        match action.existing_nr {
            Some(_) => {
                let wrote = vcs.update_revision_message(&action.revision);
                match wrote {
                    Ok(()) => {},
                    Err(e) => {
                        return Err(e).context("recording the synchronized state".to_owned());
                    },
                }
            },
            None => {
                proof {
                    if (forall|j: int|
                0 <= j < stack0.len() ==> (#[trigger] stack0[j]).pull_request_number is Some) {
                        assert(acts_pre[0].existing_nr is Some);
                        assert(false);
                    }
                }
                let title: String = {
                    let t = action.revision.message.get(MessageSection::Title);
                    match t {
                        Some(t) => t.clone(),
                        None => String::from_str("Missing Title"),
                    }
                };
                let body = build_github_body(&action.revision.message);
                let made = gh.new_pull_request(
                    title.as_str(),
                    body.as_str(),
                    action.base_branch.as_str(),
                    action.head_branch.as_str(),
                    false,
                );
                let pr = match made {
                    Ok(p) => p,
                    Err(e) => {
                        return Err(e).context("opening a review request".to_owned());
                    },
                };
                let reviewers: Option<String> = {
                    let v = action.revision.message.get(MessageSection::Reviewers);
                    match v {
                        Some(v) => Some(v.clone()),
                        None => None,
                    }
                };
                match reviewers {
                    Some(v) => {
                        let parts = split_commas_trimmed(v.as_str());
                        let added = gh.add_reviewers(pr.number, parts);
                        match added {
                            Ok(()) => {},
                            Err(e) => {
                                return Err(e).context("requesting reviews".to_owned());
                            },
                        }
                    },
                    None => {},
                }
                let assignees: Option<String> = {
                    let v = action.revision.message.get(MessageSection::Assignees);
                    match v {
                        Some(v) => Some(v.clone()),
                        None => None,
                    }
                };
                match assignees {
                    Some(v) => {
                        let parts = split_commas_trimmed(v.as_str());
                        let added = gh.add_assignees(pr.number, parts);
                        match added {
                            Ok(()) => {},
                            Err(e) => {
                                return Err(e).context("adding assignees".to_owned());
                            },
                        }
                    },
                    None => {},
                }
                let url = config.pull_request_url(pr.number);
                action.revision.message.insert(MessageSection::PullRequest, url);
                action.revision.pull_request_number = Some(pr.number);
                let wrote = vcs.update_revision_message(&action.revision);
                match wrote {
                    Ok(()) => {},
                    Err(e) => {
                        return Err(e).context("recording the new review request".to_owned());
                    },
                }
            },
        }
        processed.push(action.revision);
    }
    let mut forest: Forest<Revision> = Forest::new();
    let mut revs = processed;
    while revs.len() > 0
        invariant
            vcs.wf(),
            gh.wf(),
            stack0 == stack@,
            stack0.len() > 0,
            forall|j: int| 0 <= j < stack0.len() ==> !spec_revision_blocked(#[trigger] stack0[j]),
            spec_requests_found(*old(gh), stack0),
            old(vcs).spec_branch_target(config.master_ref.spec_branch_name()) == Some(trunk),
            spec_prefetched(*old(gh), stack0, pairs_g),
            spec_push_batch(
                *old(vcs),
                vcs_mid,
                *config,
                opts.spec_force(),
                opts.spec_message(),
                pairs_g,
                actions_g,
                trunk,
            ),
            vcs.spec_commits() == vcs_mid.spec_commits(),
            vcs.spec_branches() == vcs_mid.spec_branches(),
            (forall|j: int|
                0 <= j < stack0.len() ==> (#[trigger] stack0[j]).pull_request_number is Some) ==> gh.spec_records().len() == old(gh).spec_records().len(),
        decreases revs@.len(),
    {
        let rev = revs.remove(0);
        if rev.parent_ids.len() == 0 {
            return Err(Error::new("Found a revision without parents in postprocessing"));
        }
        let parent_id: String = rev.parent_ids[0].0.clone();
        let pred = |p: &Revision| -> (b: bool)
            ensures
                b == (p.id.0@ == parent_id@),
            {
                str_eq(p.id.0.as_str(), parent_id.as_str())
            };
        proof {
            assert forall|t: &Revision, b1: bool, b2: bool|
                #[trigger] call_ensures(pred, (t,), b1) && #[trigger] call_ensures(pred, (t,), b2)
                    implies b1 == b2 by {}
            assert(total_pred(pred));
        }
        forest.insert_below(&pred, rev);
    }
    let mut trees = forest.into_trees();
    while trees.len() > 0
        invariant
            vcs.wf(),
            gh.wf(),
            stack0 == stack@,
            stack0.len() > 0,
            forall|j: int| 0 <= j < stack0.len() ==> !spec_revision_blocked(#[trigger] stack0[j]),
            spec_requests_found(*old(gh), stack0),
            old(vcs).spec_branch_target(config.master_ref.spec_branch_name()) == Some(trunk),
            spec_prefetched(*old(gh), stack0, pairs_g),
            spec_push_batch(
                *old(vcs),
                vcs_mid,
                *config,
                opts.spec_force(),
                opts.spec_message(),
                pairs_g,
                actions_g,
                trunk,
            ),
            vcs.spec_commits() == vcs_mid.spec_commits(),
            vcs.spec_branches() == vcs_mid.spec_branches(),
            (forall|j: int|
                0 <= j < stack0.len() ==> (#[trigger] stack0[j]).pull_request_number is Some) ==> gh.spec_records().len() == old(gh).spec_records().len(),
        decreases trees@.len(),
    {
        let tree = trees.remove(0);
        let size = tree.checked_size(usize::MAX / 2);
        match size {
            None => {
                return Err(Error::new("The stack is too large to render"));
            },
            Some(_) => {},
        }
        let prepared = prepare_revision_comment(&tree, config);
        if prepared.len() as u64 == u64::MAX {
            return Err(Error::new("The stack is too large to render"));
        }
        let mut it = tree.into_iter();
        loop
            invariant
                vcs.wf(),
                gh.wf(),
                stack0 == stack@,
                stack0.len() > 0,
                forall|j: int|
                    0 <= j < stack0.len() ==> !spec_revision_blocked(#[trigger] stack0[j]),
                spec_requests_found(*old(gh), stack0),
                old(vcs).spec_branch_target(config.master_ref.spec_branch_name()) == Some(trunk),
                spec_prefetched(*old(gh), stack0, pairs_g),
                spec_push_batch(
                    *old(vcs),
                    vcs_mid,
                    *config,
                    opts.spec_force(),
                    opts.spec_message(),
                    pairs_g,
                    actions_g,
                    trunk,
                ),
                vcs.spec_commits() == vcs_mid.spec_commits(),
                vcs.spec_branches() == vcs_mid.spec_branches(),
                prepared@.len() <= u64::MAX,
                (forall|j: int|
                0 <= j < stack0.len() ==> (#[trigger] stack0[j]).pull_request_number is Some) ==> gh.spec_records().len() == old(gh).spec_records().len(),
            decreases crate::tree::iter_remaining(it).len(),
        {
            let nx = it.next();
            match nx {
                None => {
                    break ;
                },
                Some(rev) => {
                    match rev.pull_request_number {
                        Some(num) => {
                            let content = finalize_revision_comment(&rev, config, &prepared);
                            let wrote = gh.update_pr_comment(num, content.as_str());
                            match wrote {
                                Ok(()) => {},
                                Err(e) => {
                                    return Err(e).context(
                                        "updating the stack overview comment".to_owned(),
                                    );
                                },
                            }
                        },
                        None => {},
                    }
                },
            }
        }
    }
    Ok(())
}

} // verus!
