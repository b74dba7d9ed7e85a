//! Checking out the contents of an existing pull request as a new local
//! revision, without adopting its whole chain.

use vstd::prelude::*;

use crate::adopt::do_adopt;
use crate::backend::VersionControlBackend;
use crate::config::Config;
use crate::error::{Error, ErrorKind, ResultExt};
use crate::github::ReviewBackend;
use crate::utils::str_eq;

verus! {

/// What the caller asked of `patch`.
#[derive(Debug)]
pub struct PatchOptions {
    pub pull_request: u64,
    pub branch_name: Option<String>,
    pub no_checkout: bool,
}

/// The patch command: the named request must be based on the trunk branch;
/// its contents become a new local revision.  It succeeds exactly when the
/// request exists, is trunk-based, and its head branch is on the remote;
/// nothing changes on failure.
pub fn patch(opts: &PatchOptions, vcs: &mut VersionControlBackend, gh: &ReviewBackend,
    config: &Config) -> (r: Result<(), Error>)
    requires
        old(vcs).wf(),
    ensures
        final(vcs).wf(),
        match r {
            Ok(()) => {
                &&& gh.spec_find(opts.pull_request) matches Some(ri) && {
                    let pr = gh.spec_records()[ri].pr;
                    &&& pr.base@ == config.master_ref.spec_branch_name()
                    &&& final(vcs).spec_revisions().last().pull_request_number == Some(pr.number)
                    &&& crate::adopt::spec_names_pr(
                        final(vcs).spec_revisions().last(),
                        crate::config::spec_pull_request_url(
                            config.owner@,
                            config.repo@,
                            pr.number,
                        ),
                    )
                    &&& old(vcs).spec_branch_target(pr.head@) matches Some(h) && final(vcs).spec_revisions().last().commit == h
                }
                &&& final(vcs).spec_revisions().len() == old(vcs).spec_revisions().len() + 1
                &&& (forall|j: int|
                    0 <= j < old(vcs).spec_revisions().len()
                        ==> #[trigger] final(vcs).spec_revisions()[j] == old(vcs).spec_revisions()[j])
                &&& final(vcs).spec_revisions().last().parent_ids@.len() == 1
                &&& final(vcs).spec_revisions().last().parent_ids@[0].0@
                    == config.master_ref.spec_branch_name()
            },
            Err(e) => {
                &&& *final(vcs) == *old(vcs)
                &&& (e.spec_kind() == ErrorKind::BackendError || e.spec_kind()
                    == ErrorKind::AmbiguousOrEmptySelector)
                &&& (gh.spec_find(opts.pull_request) is None || (gh.spec_find(opts.pull_request)
                    matches Some(ri) && (gh.spec_records()[ri].pr.base@
                    != config.master_ref.spec_branch_name() || old(vcs).spec_branch_target(
                    gh.spec_records()[ri].pr.head@,
                ) is None)))
            },
        },
{
    let pr = match gh.pull_request(opts.pull_request) {
        Ok(p) => p,
        Err(e) => {
            return Err(e).context("reading the request to patch in".to_owned());
        },
    };
    if !str_eq(pr.base.as_str(), config.master_ref.branch_name()) {
        return Err(
            Error::new(
                "The request is not based on the target branch; adopting stacked requests needs adopt",
            ),
        );
    }
    let made = do_adopt(vcs, config, &pr, None);
    match made {
        Ok(_) => Ok(()),
        Err(e) => Err(e),
    }
}

} // verus!
