//! The pull direction: folding changes made upstream, by people or by
//! automation, on the remote head branches back into the local revisions, with the base-motion
//! triangulation that tells "the upstream base moved forward" apart from
//! "the local revision is simply behind".

use vstd::prelude::*;

use crate::backend::VersionControlBackend;
use crate::config::Config;
use crate::error::{Error, ErrorKind, ResultExt};
use crate::github::{PullRequest, ReviewBackend};
use crate::message::{MessageSection, validate_commit_message};
use crate::utils::{format_u64, str_eq};

verus! {

/// What the caller asked of `fetch`.
#[derive(Debug)]
pub struct FetchOptions {
    revset: Option<String>,
    all: bool,
    pull_code_changes: bool,
    rebase: bool,
}

impl FetchOptions {
    pub closed spec fn spec_revset(&self) -> Option<String> {
        self.revset
    }

    pub closed spec fn spec_all(&self) -> bool {
        self.all
    }

    pub closed spec fn spec_pull_code(&self) -> bool {
        self.pull_code_changes
    }

    pub closed spec fn spec_rebase(&self) -> bool {
        self.rebase
    }

    pub fn with_revset(self, revset: Option<&str>) -> (r: Self)
        ensures
            (match revset {
                Some(m) => r.spec_revset() matches Some(s) && s@ == m@,
                None => r.spec_revset() is None,
            }),
            r.spec_pull_code() == self.spec_pull_code(),
            r.spec_rebase() == self.spec_rebase(),
            r.spec_all() == self.spec_all(),
    {
        FetchOptions {
            revset: match revset {
                Some(m) => Some(m.to_owned()),
                None => None,
            },
            ..self
        }
    }

    /// Also merge in any code changes from the remote.
    pub fn with_pull_code(self) -> (r: Self)
        ensures
            r.spec_pull_code(),
            r.spec_rebase() == self.spec_rebase(),
            r.spec_revset() == self.spec_revset(),
            r.spec_all() == self.spec_all(),
    {
        FetchOptions { pull_code_changes: true, ..self }
    }

    /// Also follow a base that was moved upstream; implies pulling code.
    pub fn with_rebase(self) -> (r: Self)
        ensures
            r.spec_pull_code(),
            r.spec_rebase(),
            r.spec_revset() == self.spec_revset(),
            r.spec_all() == self.spec_all(),
    {
        FetchOptions { pull_code_changes: true, rebase: true, ..self }
    }
}

impl Default for FetchOptions {
    fn default() -> (r: Self)
        ensures
            r.spec_revset() is None,
            !r.spec_all(),
            !r.spec_pull_code(),
            !r.spec_rebase(),
    {
        FetchOptions { revset: None, all: false, pull_code_changes: false, rebase: false }
    }
}

/// The base-motion triangulation: where the remote head's fork point with
/// trunk lies strictly ahead of the local revision's own fork point with
/// trunk — someone moved the base upstream — the commit to rebase onto is
/// returned; a local revision that is simply behind yields nothing.
pub fn detect_base_motion(vcs: &VersionControlBackend, head: usize, local: usize, trunk: usize) -> (r:
    Result<Option<usize>, Error>)
    requires
        vcs.wf(),
        head < vcs.spec_commits().len(),
        local < vcs.spec_commits().len(),
        trunk < vcs.spec_commits().len(),
    ensures
        match r {
            Ok(opt) => {
                &&& (match opt {
                    Some(u) => u < vcs.spec_commits().len(),
                    None => true,
                })
                &&& vcs.spec_merge_base(head as int, trunk as int) matches Some(m1)
                    && vcs.spec_merge_base(local as int, trunk as int) matches Some(m2)
                    && vcs.spec_merge_base(m1, m2) matches Some(ff) && (if ff == m2 && m2 != m1 {
                    opt matches Some(u) && u == m1
                } else {
                    opt is None
                })
            },
            Err(e) => e.spec_kind() == ErrorKind::BackendError && (vcs.spec_merge_base(
                head as int,
                trunk as int,
            ) is None || vcs.spec_merge_base(local as int, trunk as int) is None || (
            vcs.spec_merge_base(head as int, trunk as int) matches Some(m1)
                && vcs.spec_merge_base(local as int, trunk as int) matches Some(m2)
                && vcs.spec_merge_base(m1, m2) is None)),
        },
{
    let m1 = match vcs.merge_base(head, trunk) {
        Some(m) => m,
        None => {
            return Err(Error::new("The remote head shares no history with the trunk branch"));
        },
    };
    let m2 = match vcs.merge_base(local, trunk) {
        Some(m) => m,
        None => {
            return Err(Error::new("The revision shares no history with the trunk branch"));
        },
    };
    proof {
        vcs.lemma_ancestor_le(m1 as int, trunk as int);
        vcs.lemma_ancestor_le(m2 as int, trunk as int);
    }
    let ff = match vcs.merge_base(m1, m2) {
        Some(m) => m,
        None => {
            return Err(Error::new("The two fork points share no history"));
        },
    };
    proof {
        assert(m1 < vcs.spec_commits().len());
    }
    if ff == m2 && m2 != m1 {
        Ok(Some(m1))
    } else {
        Ok(None)
    }
}

/// One fetched item: the position of a local revision, and the pull request
/// found for it, if it has one.
pub type FetchItem = (usize, Option<PullRequest>);

/// What the pull loop did to one fetched revision, read off the states
/// before and after the whole batch; see `fetch_one` for the rule.
pub open spec fn spec_fetched_item(pre: VersionControlBackend, post: VersionControlBackend,
    pull: bool, idx: usize, pr: PullRequest) -> bool {
    let before = pre.spec_revisions()[idx as int];
    let after = post.spec_revisions()[idx as int];
    &&& after.id == before.id
    &&& after.message.spec_get(MessageSection::Title) matches Some(t) && t@ == pr.title@
    &&& after.message.spec_get(MessageSection::Summary) matches Some(b) && b@ == (match pr.body {
        Some(x) => x@,
        None => Seq::<char>::empty(),
    })
    &&& (if pull && before.message.spec_get(MessageSection::LastCommit) is Some {
        pre.spec_branch_target(pr.head@) matches Some(h) && {
            &&& post.spec_tree_of(after.commit as int) == pre.spec_tree_of(h as int)
            &&& after.message.spec_get(MessageSection::LastCommit) matches Some(lc) && lc@
                == crate::utils::decimal_digits(h as nat)
        }
    } else {
        after.commit == before.commit && after.message.spec_get(MessageSection::LastCommit)
            == before.message.spec_get(MessageSection::LastCommit)
    })
}

/// Is position `j` left alone by the batch: no item with a request names it?
pub open spec fn spec_untouched_by(items: Seq<FetchItem>, j: int) -> bool {
    forall|i: int| 0 <= i < items.len() ==> (#[trigger] items[i]).0 != j || items[i].1 is None
}

/// One step of the pull loop, from the state it found to the state it
/// left: an item without a request changes nothing; one with a request is
/// fetched as `fetch_one` promises, other revisions stay put, and — when
/// code is pulled onto a recorded upstream state — the fetched revision's
/// new parent is exactly what `spec_pull_rebase_choice` picks on the
/// state the step found.
#[verifier::opaque]
pub open spec fn spec_fetch_step(pre: VersionControlBackend, post: VersionControlBackend,
    gh: ReviewBackend, config: Config, opts: FetchOptions, item: FetchItem) -> bool {
    &&& post.wf()
    &&& post.spec_branches() == pre.spec_branches()
    &&& post.spec_revisions().len() == pre.spec_revisions().len()
    &&& pre.spec_commits().len() <= post.spec_commits().len()
    &&& (forall|c: int|
        0 <= c < pre.spec_commits().len() ==> #[trigger] post.spec_commits()[c]
            == pre.spec_commits()[c])
    &&& match item.1 {
        Some(pr) => {
            &&& spec_fetched_item(pre, post, opts.spec_pull_code(), item.0, pr)
            &&& (forall|j: int|
                0 <= j < pre.spec_revisions().len() && j != item.0
                    ==> #[trigger] post.spec_revisions()[j] == pre.spec_revisions()[j])
            &&& (opts.spec_pull_code() && pre.spec_revisions()[item.0 as int].message.spec_get(
                MessageSection::LastCommit,
            ) is Some ==> (exists|choice: Option<usize>|
                {
                    &&& #[trigger] spec_pull_rebase_choice(
                        pre,
                        gh,
                        config,
                        opts.spec_rebase(),
                        pre.spec_revisions()[item.0 as int].commit,
                        pr,
                        choice,
                    )
                    &&& match choice {
                        Some(onto) => post.spec_commits()[post.spec_revisions()[item.0 as int].commit as int].parents@
                            =~= seq![onto],
                        None => post.spec_commits()[post.spec_revisions()[item.0 as int].commit as int].parents@
                            == pre.spec_commits()[pre.spec_revisions()[item.0 as int].commit as int].parents@,
                    }
                }))
        },
        None => post == pre,
    }
}

/// Step `i` of the chain: `states[i]` to `states[i + 1]` by `items[i]`.
pub open spec fn spec_fetch_step_at(states: Seq<VersionControlBackend>, gh: ReviewBackend,
    config: Config, opts: FetchOptions, items: Seq<FetchItem>, i: int) -> bool {
    spec_fetch_step(states[i], states[i + 1], gh, config, opts, items[i])
}

/// The whole batch as a chain of states, one step per item.
pub open spec fn spec_fetch_chain(states: Seq<VersionControlBackend>, gh: ReviewBackend,
    config: Config, opts: FetchOptions, items: Seq<FetchItem>) -> bool {
    &&& states.len() == items.len() + 1
    &&& (forall|i: int|
        0 <= i < items.len() ==> #[trigger] spec_fetch_step_at(states, gh, config, opts, items, i))
}

/// The pull loop took `pre` to `post` by fetching `items` in order.
pub open spec fn spec_fetch_batch(pre: VersionControlBackend, post: VersionControlBackend,
    gh: ReviewBackend, config: Config, opts: FetchOptions, items: Seq<FetchItem>) -> bool {
    exists|states: Seq<VersionControlBackend>|
        {
            &&& #[trigger] spec_fetch_chain(states, gh, config, opts, items)
            &&& states[0] == pre
            &&& states.last() == post
        }
}

/// The per-revision pull loop: optionally follow an upstream base that
/// moved, fold the remote content back in, record the new upstream state,
/// and take over the request's title and body.  Validation failures are
/// gathered, not fatal: the batch runs to the end and then reports them as
/// one aggregate error — exactly when some fetched request has an empty
/// title.
#[verifier::rlimit(100)]
pub fn do_fetch(vcs: &mut VersionControlBackend, gh: &ReviewBackend, config: &Config,
    opts: &FetchOptions, items: Vec<FetchItem>) -> (r: Result<(), Error>)
    requires
        old(vcs).wf(),
        forall|i: int|
            0 <= i < items@.len() ==> #[trigger] items@[i].0 < old(vcs).spec_revisions().len(),
        forall|i: int, j: int|
            0 <= i < j < items@.len() ==> (#[trigger] items@[i]).0 != (#[trigger] items@[j]).0,
    ensures
        final(vcs).wf(),
        final(vcs).spec_branches() == old(vcs).spec_branches(),
        final(vcs).spec_revisions().len() == old(vcs).spec_revisions().len(),
        forall|c: int|
            0 <= c < old(vcs).spec_commits().len() ==> #[trigger] final(vcs).spec_commits()[c]
                == old(vcs).spec_commits()[c],
        match r {
            Ok(()) => (forall|i: int|
                0 <= i < items@.len() ==> ((#[trigger] items@[i]).1 matches Some(pr)
                    ==> spec_fetched_item(
                    *old(vcs),
                    *final(vcs),
                    opts.spec_pull_code(),
                    items@[i].0,
                    pr,
                ) && pr.title@.len() > 0)) && (forall|j: int|
                0 <= j < old(vcs).spec_revisions().len() && spec_untouched_by(items@, j)
                    ==> #[trigger] final(vcs).spec_revisions()[j] == old(vcs).spec_revisions()[j])
                && spec_fetch_batch(*old(vcs), *final(vcs), *gh, *config, *opts, items@),
            Err(e) => (e.spec_kind() == ErrorKind::ValidationFailure || e.spec_kind()
                == ErrorKind::BackendError || e.spec_kind() == ErrorKind::AmbiguousOrEmptySelector)
                && (e.spec_kind() == ErrorKind::ValidationFailure ==> (e.spec_messages().len()
                == 0 && (exists|i: int|
                {
                    &&& 0 <= i < items@.len()
                    &&& (#[trigger] items@[i]).1 matches Some(pr) && pr.title@.len() == 0
                }) && (forall|i: int|
                0 <= i < items@.len() ==> ((#[trigger] items@[i]).1 matches Some(pr)
                    ==> spec_fetched_item(
                    *old(vcs),
                    *final(vcs),
                    opts.spec_pull_code(),
                    items@[i].0,
                    pr,
                ))) && spec_fetch_batch(*old(vcs), *final(vcs), *gh, *config, *opts, items@)))
                && (e.spec_kind() != ErrorKind::ValidationFailure ==> (exists|k: int|
                {
                    &&& 0 <= k < items@.len()
                    &&& (#[trigger] items@[k]).1 is Some
                    &&& spec_fetch_batch(
                        *old(vcs),
                        *final(vcs),
                        *gh,
                        *config,
                        *opts,
                        items@.take(k),
                    )
                })),
        },
{
    let ghost items0 = items@;
    let mut failure = false;
    let mut rest = items;
    let ghost mut done: int = 0;
    let ghost mut states: Seq<VersionControlBackend> = seq![*old(vcs)];
    while rest.len() > 0
        invariant
            vcs.wf(),
            old(vcs).wf(),
            items0 == items@,
            done + rest@.len() == items0.len(),
            0 <= done,
            rest@ == items0.skip(done),
            vcs.spec_branches() == old(vcs).spec_branches(),
            vcs.spec_revisions().len() == old(vcs).spec_revisions().len(),
            forall|c: int|
                0 <= c < old(vcs).spec_commits().len() ==> #[trigger] vcs.spec_commits()[c]
                    == old(vcs).spec_commits()[c],
            old(vcs).spec_commits().len() <= vcs.spec_commits().len(),
            forall|i: int|
                0 <= i < items0.len() ==> #[trigger] items0[i].0 < old(vcs).spec_revisions().len(),
            forall|i: int, j: int|
                0 <= i < j < items0.len() ==> (#[trigger] items0[i]).0 != (#[trigger] items0[j]).0,
            forall|i: int|
                0 <= i < done ==> ((#[trigger] items0[i]).1 matches Some(pr)
                    ==> spec_fetched_item(
                    *old(vcs),
                    *vcs,
                    opts.spec_pull_code(),
                    items0[i].0,
                    pr,
                )),
            forall|j: int|
                0 <= j < old(vcs).spec_revisions().len() && (forall|i: int|
                    0 <= i < done ==> (#[trigger] items0[i]).0 != j || items0[i].1 is None)
                    ==> #[trigger] vcs.spec_revisions()[j] == old(vcs).spec_revisions()[j],
            failure == (exists|i: int|
                {
                    &&& 0 <= i < done
                    &&& (#[trigger] items0[i]).1 matches Some(pr) && pr.title@.len() == 0
                }),
            states.len() == done + 1,
            states[0] == *old(vcs),
            states.last() == *vcs,
            forall|i: int|
                0 <= i < done ==> #[trigger] spec_fetch_step_at(
                    states,
                    *gh,
                    *config,
                    *opts,
                    items0,
                    i,
                ),
        decreases rest@.len(),
    {
        let ghost prev = *vcs;
        let ghost states_pre = states;
        proof {
            assert(items0.skip(done)[0] == items0[done]);
            assert(items0.skip(done).drop_first() =~= items0.skip(done + 1));
        }
        let (idx, maybe_pr) = rest.remove(0);
        match maybe_pr {
            Some(pr) => {
                proof {
                    assert(vcs.spec_revisions()[idx as int] == old(vcs).spec_revisions()[idx as int]);
                }
                let ok = fetch_one(vcs, gh, config, opts, idx, &pr);
                match ok {
                    Ok(valid) => {
                        if !valid {
                            failure = true;
                        }
                        proof {
                            assert(spec_fetched_item(
                                *old(vcs),
                                *vcs,
                                opts.spec_pull_code(),
                                idx,
                                pr,
                            )) by {
                                if opts.spec_pull_code() && old(vcs).spec_revisions()[idx as int].message.spec_get(
                                    MessageSection::LastCommit,
                                ) is Some {
                                    let h = prev.spec_branch_target(pr.head@)->Some_0;
                                    assert(prev.spec_tree_of(h as int) == old(vcs).spec_tree_of(
                                        h as int,
                                    ));
                                }
                            }
                            assert forall|i: int|
                                0 <= i < done + 1 implies ((#[trigger] items0[i]).1 matches Some(
                                p2,
                            ) ==> spec_fetched_item(
                                *old(vcs),
                                *vcs,
                                opts.spec_pull_code(),
                                items0[i].0,
                                p2,
                            )) by {
                                if i < done {
                                    if items0[i].1 is Some {
                                        assert(items0[i].0 != idx);
                                        assert(vcs.spec_revisions()[items0[i].0 as int]
                                            == prev.spec_revisions()[items0[i].0 as int]);
                                    }
                                }
                            }
                            states = states.push(*vcs);
                            assert(spec_fetch_step(prev, *vcs, *gh, *config, *opts, items0[done]))
                                by {
                                reveal(spec_fetch_step);
                                assert(items0[done] == (idx, Some(pr)));
                            }
                        }
                    },
                    Err(e) => {
                        proof {
                            assert forall|i: int|
                                0 <= i < done implies #[trigger] spec_fetch_step_at(
                                states,
                                *gh,
                                *config,
                                *opts,
                                items0.take(done),
                                i,
                            ) by {
                                assert(spec_fetch_step_at(states, *gh, *config, *opts, items0, i));
                                assert(items0.take(done)[i] == items0[i]);
                            }
                            assert(spec_fetch_chain(states, *gh, *config, *opts, items0.take(done)));
                            assert(spec_fetch_batch(
                                *old(vcs),
                                *vcs,
                                *gh,
                                *config,
                                *opts,
                                items0.take(done),
                            ));
                            assert(items0[done].1 is Some);
                        }
                        return Err(e);
                    },
                }
            },
            None => {
                proof {
                    states = states.push(*vcs);
                    assert(spec_fetch_step(prev, *vcs, *gh, *config, *opts, items0[done])) by {
                        reveal(spec_fetch_step);
                        assert(items0[done] == (idx, Option::<PullRequest>::None));
                    }
                }
            },
        }
        proof {
            assert forall|i: int|
                0 <= i < done + 1 implies #[trigger] spec_fetch_step_at(
                states,
                *gh,
                *config,
                *opts,
                items0,
                i,
            ) by {
                if i < done {
                    assert(spec_fetch_step_at(states_pre, *gh, *config, *opts, items0, i));
                    assert(states[i] == states_pre[i]);
                    assert(states[i + 1] == states_pre[i + 1]);
                } else {
                    assert(states[done] == prev);
                    assert(states[done + 1] == *vcs);
                }
            }
            done = done + 1;
        }
    }
    proof {
        assert(items0.take(items0.len() as int) =~= items0);
        assert(spec_fetch_chain(states, *gh, *config, *opts, items0));
        assert(spec_fetch_batch(*old(vcs), *vcs, *gh, *config, *opts, items0));
    }
    if failure {
        Err(Error::empty())
    } else {
        Ok(())
    }
}

/// The fetch command over a resolved scope of revision positions: each
/// revision's request is read, and `do_fetch` runs the pull loop.
pub fn fetch(opts: FetchOptions, vcs: &mut VersionControlBackend, gh: &ReviewBackend,
    config: &Config, scope: Vec<usize>) -> (r: Result<(), Error>)
    requires
        old(vcs).wf(),
        forall|i: int|
            0 <= i < scope@.len() ==> #[trigger] scope@[i] < old(vcs).spec_revisions().len(),
        forall|i: int, j: int|
            0 <= i < j < scope@.len() ==> #[trigger] scope@[i] != #[trigger] scope@[j],
    ensures
        final(vcs).wf(),
        final(vcs).spec_branches() == old(vcs).spec_branches(),
        final(vcs).spec_revisions().len() == old(vcs).spec_revisions().len(),
        forall|c: int|
            0 <= c < old(vcs).spec_commits().len() ==> #[trigger] final(vcs).spec_commits()[c]
                == old(vcs).spec_commits()[c],
        match r {
            Ok(()) => exists|items: Seq<FetchItem>|
                {
                    &&& #[trigger] spec_fetch_batch(
                        *old(vcs),
                        *final(vcs),
                        *gh,
                        *config,
                        opts,
                        items,
                    )
                    &&& items.len() == scope@.len()
                    &&& (forall|i: int| 0 <= i < items.len() ==> (#[trigger] items[i]).0 == scope@[i])
                    &&& (forall|i: int|
                        0 <= i < items.len() ==> ((#[trigger] items[i]).1 matches Some(pr) ==> (
                        old(vcs).spec_revisions()[scope@[i] as int].pull_request_number matches Some(
                            n,
                        ) && gh.spec_find(n) matches Some(ri) && crate::github::pr_like(
                            pr,
                            gh.spec_records()[ri].pr,
                        ))))
                    &&& (forall|i: int|
                        0 <= i < items.len() ==> ((#[trigger] items[i]).1 is None ==> old(
                            vcs,
                        ).spec_revisions()[scope@[i] as int].pull_request_number is None))
                },
            Err(e) => e.spec_kind() == ErrorKind::ValidationFailure || e.spec_kind()
                == ErrorKind::BackendError || e.spec_kind() == ErrorKind::AmbiguousOrEmptySelector,
        },
{
    let ghost scope0 = scope@;
    let mut items: Vec<FetchItem> = Vec::new();
    let mut rest = scope;
    while rest.len() > 0
        invariant
            *vcs == *old(vcs),
            old(vcs).wf(),
            scope0 == scope@,
            items@.len() + rest@.len() == scope0.len(),
            rest@ == scope0.skip(items@.len() as int),
            forall|i: int, j: int|
                0 <= i < j < scope0.len() ==> #[trigger] scope0[i] != #[trigger] scope0[j],
            forall|i: int|
                0 <= i < scope0.len() ==> #[trigger] scope0[i] < vcs.spec_revisions().len(),
            forall|i: int| 0 <= i < items@.len() ==> (#[trigger] items@[i]).0 == scope0[i],
            forall|i: int|
                0 <= i < items@.len() ==> ((#[trigger] items@[i]).1 matches Some(pr) ==> (
                vcs.spec_revisions()[scope0[i] as int].pull_request_number matches Some(n)
                    && gh.spec_find(n) matches Some(ri) && crate::github::pr_like(
                    pr,
                    gh.spec_records()[ri].pr,
                ))),
            forall|i: int|
                0 <= i < items@.len() ==> ((#[trigger] items@[i]).1 is None ==> vcs.spec_revisions()[scope0[i] as int].pull_request_number is None),
        decreases rest@.len(),
    {
        let ghost k = items@.len();
        proof {
            assert(scope0.skip(k as int)[0] == scope0[k as int]);
            assert(scope0.skip(k as int).drop_first() =~= scope0.skip(k as int + 1));
        }
        let idx = rest.remove(0);
        let number = vcs.revision_at(idx).pull_request_number;
        let pr: Option<PullRequest> = match number {
            Some(n) => {
                let got = gh.pull_request(n);
                match got {
                    Ok(p) => Some(p),
                    Err(e) => {
                        return Err(e).context("fetching the scope's review requests".to_owned());
                    },
                }
            },
            None => None,
        };
        items.push((idx, pr));
    }
    proof {
        assert forall|i: int, j: int|
            0 <= i < j < items@.len() implies (#[trigger] items@[i]).0 != (
        #[trigger] items@[j]).0 by {
            assert(items@[i].0 == scope0[i] && items@[j].0 == scope0[j]);
        }
    }
    do_fetch(vcs, gh, config, &opts, items)
}

/// Where the pull loop re-parents one revision, decided on the untouched
/// state, before anything moves.
///
/// For a trunk-based request this is the fork-point triangulation: a base that
/// moved forward upstream yields the head's fork point with trunk; with no
/// motion, a requested rebase yields the revision's own fork point (its
/// base, so the topology is kept); otherwise nothing.  For a request
/// stacked on another's branch, a requested rebase yields the base
/// request's own local revision's commit; otherwise nothing.
pub open spec fn spec_pull_rebase_choice(vcs: VersionControlBackend, gh: ReviewBackend,
    config: Config, rebase: bool, local: usize, pr: PullRequest, choice: Option<usize>) -> bool {
    if pr.base@ == config.master_ref.spec_branch_name() {
        vcs.spec_branch_target(config.master_ref.spec_branch_name()) matches Some(trunk) ==> (
        vcs.spec_branch_target(pr.head@) matches Some(h) ==> (vcs.spec_merge_base(
            h as int,
            trunk as int,
        ) matches Some(m1) ==> (vcs.spec_merge_base(local as int, trunk as int) matches Some(m2)
            ==> {
            let moved = vcs.spec_merge_base(m1, m2) == Some(m2) && m1 != m2;
            if moved {
                choice matches Some(u) && u as int == m1
            } else if rebase {
                choice matches Some(u) && u as int == m2
            } else {
                choice is None
            }
        })))
    } else {
        if rebase {
            choice matches Some(u) && (exists|ri: int, j: int|
                {
                    &&& 0 <= ri < gh.spec_records().len()
                    &&& (#[trigger] gh.spec_records()[ri]).pr.head@ == pr.base@
                    &&& 0 <= j < vcs.spec_revisions().len()
                    &&& crate::adopt::spec_names_pr(
                        #[trigger] vcs.spec_revisions()[j],
                        crate::config::spec_pull_request_url(
                            config.owner@,
                            config.repo@,
                            gh.spec_records()[ri].pr.number,
                        ),
                    )
                    &&& u == vcs.spec_revisions()[j].commit
                })
        } else {
            choice is None
        }
    }
}

/// See `spec_pull_rebase_choice`.  Reads only; the caller applies the
/// choice.
#[verifier::rlimit(100)]
fn resolve_pull_rebase(vcs: &VersionControlBackend, gh: &ReviewBackend, config: &Config,
    rebase: bool, local: usize, pr: &PullRequest) -> (r: Result<Option<usize>, Error>)
    requires
        vcs.wf(),
        local < vcs.spec_commits().len(),
    ensures
        match r {
            Ok(choice) => spec_pull_rebase_choice(*vcs, *gh, *config, rebase, local, *pr, choice)
                && (choice matches Some(u) ==> u < vcs.spec_commits().len()),
            Err(e) => e.spec_kind() == ErrorKind::BackendError || e.spec_kind()
                == ErrorKind::AmbiguousOrEmptySelector,
        },
{
    let is_master = str_eq(pr.base.as_str(), config.master_ref.branch_name());
    if is_master {
        let trunk = match vcs.branch_target(config.master_ref.branch_name()) {
            Some(c) => {
                proof {
                    let bi = choose|bi: int|
                        0 <= bi < vcs.spec_branches().len()
                            && #[trigger] vcs.spec_branches()[bi].0@
                            == config.master_ref.spec_branch_name();
                    assert(vcs.spec_branches()[bi].1 < vcs.spec_commits().len());
                }
                c
            },
            None => {
                return Err(Error::new("The trunk branch does not exist on the remote"));
            },
        };
        let head = match vcs.branch_target(pr.head.as_str()) {
            Some(c) => {
                proof {
                    let bi = choose|bi: int|
                        0 <= bi < vcs.spec_branches().len()
                            && #[trigger] vcs.spec_branches()[bi].0@ == pr.head@;
                    assert(vcs.spec_branches()[bi].1 < vcs.spec_commits().len());
                }
                c
            },
            None => {
                return Err(Error::new("The request's head branch is not on the remote"));
            },
        };
        let motion = match detect_base_motion(vcs, head, local, trunk) {
            Ok(m) => m,
            Err(e) => {
                return Err(e).context("triangulating the fork points".to_owned());
            },
        };
        match motion {
            Some(m1) => Ok(Some(m1)),
            None => {
                if rebase {
                    let fp = match vcs.merge_base(local, trunk) {
                        Some(m) => {
                            proof {
                                vcs.lemma_ancestor_le(m as int, trunk as int);
                            }
                            m
                        },
                        None => {
                            return Err(
                                Error::new(
                                    "The revision shares no history with the trunk branch",
                                ),
                            );
                        },
                    };
                    Ok(Some(fp))
                } else {
                    Ok(None)
                }
            },
        }
    } else {
        if rebase {
            let base_pr = match gh.pull_request_by_head(pr.base.as_str()) {
                Ok(p) => p,
                Err(e) => {
                    return Err(e).context("finding the request this one is based on".to_owned());
                },
            };
            let j = match crate::adopt::find_commit_for_pr(vcs, config, base_pr.number) {
                Ok(j) => j,
                Err(e) => {
                    return Err(e).context(
                        "finding the local revision of the base request".to_owned(),
                    );
                },
            };
            let onto = vcs.revision_at(j).commit;
            Ok(Some(onto))
        } else {
            Ok(None)
        }
    }
}

/// One revision of the pull loop; gives back whether its trailers
/// validate.  On success: the request's title and body are taken over as
/// the revision's title and summary; when code was pulled and an upstream
/// state was recorded, the revision's new commit carries the remote head's
/// tree, its parent is whatever `spec_pull_rebase_choice` picks on the
/// untouched state (the moved base's fork point, the kept base, or the
/// base request's revision), and the trailer records that head; otherwise
/// the revision's commit is untouched.  No branch moves, and no other
/// revision changes.
#[verifier::rlimit(100)]
pub fn fetch_one(vcs: &mut VersionControlBackend, gh: &ReviewBackend, config: &Config,
    opts: &FetchOptions, idx: usize, pr: &PullRequest) -> (r: Result<bool, Error>)
    requires
        old(vcs).wf(),
        idx < old(vcs).spec_revisions().len(),
    ensures
        final(vcs).wf(),
        final(vcs).spec_revisions().len() == old(vcs).spec_revisions().len(),
        final(vcs).spec_branches() == old(vcs).spec_branches(),
        old(vcs).spec_commits().len() <= final(vcs).spec_commits().len(),
        forall|c: int|
            0 <= c < old(vcs).spec_commits().len() ==> #[trigger] final(vcs).spec_commits()[c]
                == old(vcs).spec_commits()[c],
        match r {
            Ok(valid) => {
                let before = old(vcs).spec_revisions()[idx as int];
                let after = final(vcs).spec_revisions()[idx as int];
                &&& (forall|j: int|
                    0 <= j < old(vcs).spec_revisions().len() && j != idx ==> #[trigger] final(vcs).spec_revisions()[j] == old(vcs).spec_revisions()[j])
                &&& after.id == before.id
                &&& after.message.spec_get(MessageSection::Title) matches Some(t) && t@
                    == pr.title@
                &&& after.message.spec_get(MessageSection::Summary) matches Some(b) && b@ == (
                match pr.body {
                    Some(x) => x@,
                    None => Seq::<char>::empty(),
                })
                &&& valid == (pr.title@.len() > 0)
                &&& (if opts.spec_pull_code() && before.message.spec_get(
                    MessageSection::LastCommit,
                ) is Some {
                    old(vcs).spec_branch_target(pr.head@) matches Some(h) && {
                        &&& final(vcs).spec_tree_of(after.commit as int) == old(vcs).spec_tree_of(
                            h as int,
                        )
                        &&& after.message.spec_get(MessageSection::LastCommit) matches Some(lc)
                            && lc@ == crate::utils::decimal_digits(h as nat)
                        &&& (exists|choice: Option<usize>|
                            {
                                &&& #[trigger] spec_pull_rebase_choice(
                                    *old(vcs),
                                    *gh,
                                    *config,
                                    opts.spec_rebase(),
                                    before.commit,
                                    *pr,
                                    choice,
                                )
                                &&& match choice {
                                    Some(onto) => final(vcs).spec_commits()[after.commit as int].parents@
                                        =~= seq![onto],
                                    None => final(vcs).spec_commits()[after.commit as int].parents@
                                        == old(vcs).spec_commits()[before.commit as int].parents@,
                                }
                            })
                    }
                } else {
                    after.commit == before.commit && after.message.spec_get(
                        MessageSection::LastCommit,
                    ) == before.message.spec_get(MessageSection::LastCommit)
                })
            },
            Err(e) => *final(vcs) == *old(vcs) && (e.spec_kind() == ErrorKind::BackendError
                || e.spec_kind() == ErrorKind::AmbiguousOrEmptySelector),
        },
{
    let pull = opts.pull_code_changes;
    let has_last = {
        let rev = vcs.revision_at(idx);
        let t = rev.message.get(MessageSection::LastCommit);
        t.is_some()
    };
    if pull && has_last {
        let head_commit = match vcs.branch_target(pr.head.as_str()) {
            Some(c) => {
                proof {
                    let bi = choose|bi: int|
                        0 <= bi < vcs.spec_branches().len()
                            && #[trigger] vcs.spec_branches()[bi].0@ == pr.head@;
                    assert(vcs.spec_branches()[bi].1 < vcs.spec_commits().len());
                }
                c
            },
            None => {
                return Err(Error::new("The request's head branch is not on the remote"));
            },
        };
        let local0 = vcs.revision_at(idx).commit;
        let choice = match resolve_pull_rebase(vcs, gh, config, opts.rebase, local0, pr) {
            Ok(c) => c,
            Err(e) => {
                return Err(e);
            },
        };
        let ghost pristine = *vcs;
        match choice {
            Some(onto) => {
                let _ = vcs.rebase_revision(idx, onto);
            },
            None => {},
        }
        proof {
            assert(idx < vcs.spec_revisions().len());
            assert(head_commit < vcs.spec_commits().len());
        }
        let ghost staged = *vcs;
        let _ = vcs.squash_copy_head(idx, head_commit);
        proof {
            let after_c = vcs.spec_revisions()[idx as int].commit as int;
            assert(local0 == old(vcs).spec_revisions()[idx as int].commit);
            assert(spec_pull_rebase_choice(
                *old(vcs),
                *gh,
                *config,
                opts.spec_rebase(),
                old(vcs).spec_revisions()[idx as int].commit,
                *pr,
                choice,
            ));
            match choice {
                Some(onto) => {
                    assert(staged.spec_revisions()[idx as int].commit as int
                        == staged.spec_commits().len() - 1);
                    assert(vcs.spec_commits()[after_c].parents@ =~= seq![onto]);
                },
                None => {
                    assert(staged == pristine);
                    assert(vcs.spec_commits()[after_c].parents@
                        == pristine.spec_commits()[local0 as int].parents@);
                },
            }
        }
        let digits = format_u64(head_commit as u64);
        vcs.set_trailer(idx, MessageSection::LastCommit, digits);
    }
    vcs.set_trailer(idx, MessageSection::Title, pr.title.clone());
    let body: String = match &pr.body {
        Some(b) => b.clone(),
        None => String::new(),
    };
    vcs.set_trailer(idx, MessageSection::Summary, body);
    let valid = {
        let rev = vcs.revision_at(idx);
        validate_commit_message(&rev.message)
    };
    Ok(valid.is_ok())
}

} // verus!
