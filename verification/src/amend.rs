//! Updating local descriptions (and optionally contents) from the review
//! requests: the pull direction without following revsets or moved bases.

use vstd::prelude::*;

use crate::backend::VersionControlBackend;
use crate::config::Config;
use crate::error::{Error, ErrorKind, ResultExt};
use crate::fetch::{FetchItem, FetchOptions, do_fetch};
use crate::github::ReviewBackend;

verus! {

/// What the caller asked of `amend`.
#[derive(Debug)]
pub struct AmendOptions {
    pub all: bool,
    pub base: Option<String>,
    pub revision: Option<String>,
    pub pull_code_changes: bool,
}

/// The per-revision amend loop: the pull loop without base-following; see
/// `do_fetch` for what each item is guaranteed.
pub fn do_amend(vcs: &mut VersionControlBackend, gh: &ReviewBackend, config: &Config,
    opts: &AmendOptions, items: Vec<FetchItem>) -> (r: Result<(), Error>)
    requires
        old(vcs).wf(),
        forall|i: int|
            0 <= i < items@.len() ==> #[trigger] items@[i].0 < old(vcs).spec_revisions().len(),
        forall|i: int, j: int|
            0 <= i < j < items@.len() ==> (#[trigger] items@[i]).0 != (#[trigger] items@[j]).0,
    ensures
        final(vcs).wf(),
        final(vcs).spec_branches() == old(vcs).spec_branches(),
        final(vcs).spec_revisions().len() == old(vcs).spec_revisions().len(),
        forall|c: int|
            0 <= c < old(vcs).spec_commits().len() ==> #[trigger] final(vcs).spec_commits()[c]
                == old(vcs).spec_commits()[c],
        match r {
            Ok(()) => (forall|i: int|
                0 <= i < items@.len() ==> ((#[trigger] items@[i]).1 matches Some(pr)
                    ==> crate::fetch::spec_fetched_item(
                    *old(vcs),
                    *final(vcs),
                    opts.pull_code_changes,
                    items@[i].0,
                    pr,
                ) && pr.title@.len() > 0)) && (exists|fopts: FetchOptions|
                {
                    &&& #[trigger] crate::fetch::spec_fetch_batch(
                        *old(vcs),
                        *final(vcs),
                        *gh,
                        *config,
                        fopts,
                        items@,
                    )
                    &&& fopts.spec_pull_code() == opts.pull_code_changes
                    &&& !fopts.spec_rebase()
                }),
            Err(e) => (e.spec_kind() == ErrorKind::ValidationFailure || e.spec_kind()
                == ErrorKind::BackendError || e.spec_kind() == ErrorKind::AmbiguousOrEmptySelector)
                && (e.spec_kind() != ErrorKind::ValidationFailure ==> (exists|
                fopts: FetchOptions,
                k: int,
            |
                {
                    &&& 0 <= k < items@.len()
                    &&& items@[k].1 is Some
                    &&& #[trigger] crate::fetch::spec_fetch_batch(
                        *old(vcs),
                        *final(vcs),
                        *gh,
                        *config,
                        fopts,
                        items@.take(k),
                    )
                    &&& fopts.spec_pull_code() == opts.pull_code_changes
                    &&& !fopts.spec_rebase()
                })),
        },
{
    let fetch_opts = if opts.pull_code_changes {
        FetchOptions::default().with_pull_code()
    } else {
        FetchOptions::default()
    };
    proof {
        assert(fetch_opts.spec_pull_code() == opts.pull_code_changes);
    }
    do_fetch(vcs, gh, config, &fetch_opts, items)
}

/// The amend command over a resolved scope of revision positions.
pub fn amend(opts: &AmendOptions, vcs: &mut VersionControlBackend, gh: &ReviewBackend,
    config: &Config, scope: Vec<usize>) -> (r: Result<(), Error>)
    requires
        old(vcs).wf(),
        forall|i: int|
            0 <= i < scope@.len() ==> #[trigger] scope@[i] < old(vcs).spec_revisions().len(),
        forall|i: int, j: int|
            0 <= i < j < scope@.len() ==> #[trigger] scope@[i] != #[trigger] scope@[j],
    ensures
        final(vcs).wf(),
        final(vcs).spec_branches() == old(vcs).spec_branches(),
        final(vcs).spec_revisions().len() == old(vcs).spec_revisions().len(),
        forall|c: int|
            0 <= c < old(vcs).spec_commits().len() ==> #[trigger] final(vcs).spec_commits()[c]
                == old(vcs).spec_commits()[c],
        match r {
            Ok(()) => exists|items: Seq<FetchItem>, fopts: FetchOptions|
                {
                    &&& #[trigger] crate::fetch::spec_fetch_batch(
                        *old(vcs),
                        *final(vcs),
                        *gh,
                        *config,
                        fopts,
                        items,
                    )
                    &&& fopts.spec_pull_code() == opts.pull_code_changes
                    &&& !fopts.spec_rebase()
                    &&& items.len() == scope@.len()
                    &&& (forall|i: int| 0 <= i < items.len() ==> (#[trigger] items[i]).0 == scope@[i])
                    &&& (forall|i: int|
                        0 <= i < items.len() ==> ((#[trigger] items[i]).1 matches Some(pr) ==> (
                        old(vcs).spec_revisions()[scope@[i] as int].pull_request_number matches Some(
                            n,
                        ) && gh.spec_find(n) matches Some(ri) && crate::github::pr_like(
                            pr,
                            gh.spec_records()[ri].pr,
                        ))))
                    &&& (forall|i: int|
                        0 <= i < items.len() ==> ((#[trigger] items[i]).1 is None ==> old(
                            vcs,
                        ).spec_revisions()[scope@[i] as int].pull_request_number is None))
                },
            Err(e) => e.spec_kind() == ErrorKind::ValidationFailure || e.spec_kind()
                == ErrorKind::BackendError || e.spec_kind() == ErrorKind::AmbiguousOrEmptySelector,
        },
{
    let ghost scope0 = scope@;
    let mut items: Vec<FetchItem> = Vec::new();
    let mut rest = scope;
    while rest.len() > 0
        invariant
            *vcs == *old(vcs),
            old(vcs).wf(),
            scope0 == scope@,
            items@.len() + rest@.len() == scope0.len(),
            rest@ == scope0.skip(items@.len() as int),
            forall|i: int, j: int|
                0 <= i < j < scope0.len() ==> #[trigger] scope0[i] != #[trigger] scope0[j],
            forall|i: int|
                0 <= i < scope0.len() ==> #[trigger] scope0[i] < vcs.spec_revisions().len(),
            forall|i: int| 0 <= i < items@.len() ==> (#[trigger] items@[i]).0 == scope0[i],
            forall|i: int|
                0 <= i < items@.len() ==> ((#[trigger] items@[i]).1 matches Some(pr) ==> (
                vcs.spec_revisions()[scope0[i] as int].pull_request_number matches Some(n)
                    && gh.spec_find(n) matches Some(ri) && crate::github::pr_like(
                    pr,
                    gh.spec_records()[ri].pr,
                ))),
            forall|i: int|
                0 <= i < items@.len() ==> ((#[trigger] items@[i]).1 is None ==> vcs.spec_revisions()[scope0[i] as int].pull_request_number is None),
        decreases rest@.len(),
    {
        let ghost k = items@.len();
        proof {
            assert(scope0.skip(k as int)[0] == scope0[k as int]);
            assert(scope0.skip(k as int).drop_first() =~= scope0.skip(k as int + 1));
        }
        let idx = rest.remove(0);
        let number = vcs.revision_at(idx).pull_request_number;
        let pr = match number {
            Some(n) => {
                let got = gh.pull_request(n);
                match got {
                    Ok(p) => Some(p),
                    Err(e) => {
                        return Err(e).context("fetching the scope's review requests".to_owned());
                    },
                }
            },
            None => None,
        };
        items.push((idx, pr));
    }
    proof {
        assert forall|i: int, j: int|
            0 <= i < j < items@.len() implies (#[trigger] items@[i]).0 != (
        #[trigger] items@[j]).0 by {
            assert(items@[i].0 == scope0[i] && items@[j].0 == scope0[j]);
        }
    }
    do_amend(vcs, gh, config, opts, items)
}

} // verus!
