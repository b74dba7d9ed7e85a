//! Adopting an existing pull request (and the chain of requests it is
//! stacked on) as local revisions.

use vstd::prelude::*;

use crate::backend::{ChangeId, Revision, VersionControlBackend};
use crate::config::{Config, spec_pull_request_url};
use crate::error::{Error, ErrorKind, ResultExt};
use crate::github::{PullRequest, ReviewBackend};
use crate::message::{Message, MessageSection};
use crate::utils::{format_u64, str_eq};

verus! {

/// What the caller asked of `adopt`.
#[derive(Debug)]
pub struct AdoptOptions {
    pub pull_request: u64,
    pub branch_name: Option<String>,
    pub no_checkout: bool,
}

/// The position of the one local revision whose description names the given
/// pull request; an error when none or several do.
pub fn find_commit_for_pr(vcs: &VersionControlBackend, config: &Config, nr: u64) -> (r: Result<
    usize,
    Error,
>)
    ensures
        ({
            let url = spec_pull_request_url(config.owner@, config.repo@, nr);
            match r {
                Ok(i) => i < vcs.spec_revisions().len() && spec_names_pr(
                    vcs.spec_revisions()[i as int],
                    url,
                ) && (forall|j: int|
                    0 <= j < vcs.spec_revisions().len() && j != i ==> !spec_names_pr(
                        #[trigger] vcs.spec_revisions()[j],
                        url,
                    )),
                Err(e) => e.spec_kind() == ErrorKind::AmbiguousOrEmptySelector && !(exists|i: int|
                    0 <= i < vcs.spec_revisions().len() && spec_names_pr(
                        #[trigger] vcs.spec_revisions()[i],
                        url,
                    ) && forall|j: int|
                        0 <= j < vcs.spec_revisions().len() && j != i ==> !spec_names_pr(
                            #[trigger] vcs.spec_revisions()[j],
                            url,
                        )),
            }
        }),
{
    let ghost url = spec_pull_request_url(config.owner@, config.repo@, nr);
    let url_str = config.pull_request_url(nr);
    let n = vcs.revision_count();
    let mut found: Option<usize> = None;
    let mut i: usize = 0;
    while i < n
        invariant
            n == vcs.spec_revisions().len(),
            i <= n,
            url == spec_pull_request_url(config.owner@, config.repo@, nr),
            url_str@ == url,
            match found {
                Some(k) => k < i && spec_names_pr(vcs.spec_revisions()[k as int], url) && forall|
                    j: int,
                |
                    0 <= j < i && j != k ==> !spec_names_pr(
                        #[trigger] vcs.spec_revisions()[j],
                        url,
                    ),
                None => forall|j: int|
                    0 <= j < i ==> !spec_names_pr(#[trigger] vcs.spec_revisions()[j], url),
            },
        decreases n - i,
    {
        let names_it = {
            let rev = vcs.revision_at(i);
            let t = rev.message.get(MessageSection::PullRequest);
            match t {
                Some(t) => str_eq(t.as_str(), url_str.as_str()),
                None => false,
            }
        };
        if names_it {
            match found {
                Some(_) => {
                    return Err(
                        Error::with_kind(
                            ErrorKind::AmbiguousOrEmptySelector,
                            "Several local revisions name this pull request",
                        ),
                    );
                },
                None => {
                    found = Some(i);
                },
            }
        }
        i = i + 1;
    }
    match found {
        Some(k) => Ok(k),
        None => Err(
            Error::with_kind(
                ErrorKind::AmbiguousOrEmptySelector,
                "No local revision names this pull request",
            ),
        ),
    }
}

/// Does this revision's description name the pull request at `url`?
pub open spec fn spec_names_pr(rev: Revision, url: Seq<char>) -> bool {
    rev.message.spec_get(MessageSection::PullRequest) matches Some(t) && t@ == url
}

/// Does exactly one stored revision name the request `n`?
pub open spec fn spec_names_pr_somewhere(vcs0: VersionControlBackend, owner: Seq<char>,
    repo: Seq<char>, n: u64) -> bool {
    exists|i: int|
        0 <= i < vcs0.spec_revisions().len() && spec_names_pr(
            #[trigger] vcs0.spec_revisions()[i],
            spec_pull_request_url(owner, repo, n),
        ) && forall|j: int|
            0 <= j < vcs0.spec_revisions().len() && j != i ==> !spec_names_pr(
                #[trigger] vcs0.spec_revisions()[j],
                spec_pull_request_url(owner, repo, n),
            )
}

/// Creates the local revision for one adopted request: a new revision at
/// the request's remote head, described by the request, recording the
/// adopted head as the last synchronized state, and parented on the base
/// request's own local revision, so the adopted stack can be pushed again.
///
/// A request based on the trunk has no base revision to point at; its one
/// parent entry then carries the trunk branch's name in place of a change
/// identity.  That stand-in is what marks the revision as trunk-based: the
/// push reconciler reads a first parent that matches no stored revision as
/// "based on the trunk", and the landing rebase treats it the same way,
/// so the stand-in never has to resolve to a commit.
pub fn do_adopt(vcs: &mut VersionControlBackend, config: &Config, pr: &PullRequest,
    parent: Option<u64>) -> (r: Result<usize, Error>)
    requires
        old(vcs).wf(),
    ensures
        final(vcs).wf(),
        match r {
            Ok(i) => {
                &&& i == old(vcs).spec_revisions().len()
                &&& final(vcs).spec_revisions().len() == old(vcs).spec_revisions().len() + 1
                &&& (forall|j: int|
                    0 <= j < old(vcs).spec_revisions().len() ==> #[trigger] final(vcs).spec_revisions()[j] == old(vcs).spec_revisions()[j])
                &&& final(vcs).spec_revisions().last().pull_request_number == Some(pr.number)
                &&& spec_names_pr(
                    final(vcs).spec_revisions().last(),
                    spec_pull_request_url(config.owner@, config.repo@, pr.number),
                )
                &&& old(vcs).spec_branch_target(pr.head@) matches Some(h) && final(vcs).spec_revisions().last().commit == h
                &&& final(vcs).spec_revisions().last().parent_ids@.len() == 1
                &&& (match parent {
                    Some(n) => spec_names_pr_somewhere(*old(vcs), config.owner@, config.repo@, n)
                        ==> (exists|j: int|
                        {
                            &&& 0 <= j < old(vcs).spec_revisions().len()
                            &&& spec_names_pr(
                                #[trigger] old(vcs).spec_revisions()[j],
                                spec_pull_request_url(config.owner@, config.repo@, n),
                            )
                            &&& final(vcs).spec_revisions().last().parent_ids@[0].0@ == old(vcs).spec_revisions()[j].id.0@
                        }),
                    None => final(vcs).spec_revisions().last().parent_ids@[0].0@
                        == config.master_ref.spec_branch_name(),
                })
                &&& final(vcs).spec_revisions().last().message.spec_get(MessageSection::LastCommit)
                    matches Some(lc) && old(vcs).spec_branch_target(pr.head@) matches Some(h2)
                    && lc@ == crate::utils::decimal_digits(h2 as nat)
            },
            Err(e) => *final(vcs) == *old(vcs) && (e.spec_kind() == ErrorKind::BackendError
                || e.spec_kind() == ErrorKind::AmbiguousOrEmptySelector) && (old(vcs).spec_branch_target(pr.head@) is None || (parent matches Some(n)
                && !spec_names_pr_somewhere(*old(vcs), config.owner@, config.repo@, n))),
        },
{
    let head_commit = match vcs.branch_target(pr.head.as_str()) {
        Some(c) => {
            proof {
                let bi = choose|bi: int|
                    0 <= bi < vcs.spec_branches().len() && #[trigger] vcs.spec_branches()[bi].0@
                        == pr.head@;
                assert(vcs.spec_branches()[bi].1 < vcs.spec_commits().len());
            }
            c
        },
        None => {
            return Err(Error::new("The request's head branch is not on the remote"));
        },
    };
    let mut message = Message::new();
    message.insert(MessageSection::Title, pr.title.clone());
    let body: String = match &pr.body {
        Some(b) => b.clone(),
        None => String::new(),
    };
    message.insert(MessageSection::Summary, body);
    let digits = format_u64(head_commit as u64);
    message.insert(MessageSection::LastCommit, digits);
    let url = config.pull_request_url(pr.number);
    message.insert(MessageSection::PullRequest, url);
    let parent_change: ChangeId = match parent {
        Some(n) => {
            let found = find_commit_for_pr(vcs, config, n);
            match found {
                Ok(j) => ChangeId(vcs.revision_at(j).id.0.clone()),
                Err(e) => {
                    return Err(e).context(
                        "finding the local revision of the base request".to_owned(),
                    );
                },
            }
        },
        None => ChangeId::from(config.master_ref.branch_name()),
    };
    let mut parent_ids: Vec<ChangeId> = Vec::new();
    parent_ids.push(parent_change);
    let mut id = String::from_str("adopted-");
    let nr_digits = format_u64(pr.number);
    id.append(nr_digits.as_str());
    let i = vcs.revision_count();
    let rev = Revision {
        id: ChangeId(id),
        commit: head_commit,
        parent_ids,
        pull_request_number: Some(pr.number),
        title: pr.title.clone(),
        message,
        bookmarks: Vec::new(),
        conflicted: false,
        divergent: false,
    };
    vcs.add_revision(rev);
    Ok(i)
}

/// The adopt command: walks from the named request down the chain of base
/// requests until one is already adopted locally or trunk is reached, then
/// adopts the chain bottom-up.  Each request is carried together with the
/// number of its own base request, which becomes its revision's parent; a
/// base that is already adopted locally stops the walk and is not adopted
/// again.  A base chain longer than the number of open requests is refused
/// rather than walked forever.
pub fn adopt(opts: &AdoptOptions, vcs: &mut VersionControlBackend, gh: &ReviewBackend,
    config: &Config) -> (r: Result<(), Error>)
    requires
        old(vcs).wf(),
    ensures
        final(vcs).wf(),
        old(vcs).spec_revisions().len() <= final(vcs).spec_revisions().len(),
        forall|j: int|
            0 <= j < old(vcs).spec_revisions().len() ==> #[trigger] final(vcs).spec_revisions()[j]
                == old(vcs).spec_revisions()[j],
        match r {
            Ok(()) => gh.spec_find(opts.pull_request) matches Some(ri) && (exists|j: int|
                0 <= j < final(vcs).spec_revisions().len() && spec_names_pr(
                    #[trigger] final(vcs).spec_revisions()[j],
                    spec_pull_request_url(
                        config.owner@,
                        config.repo@,
                        gh.spec_records()[ri].pr.number,
                    ),
                )),
            Err(e) => e.spec_kind() == ErrorKind::BackendError || e.spec_kind()
                == ErrorKind::AmbiguousOrEmptySelector,
        },
{
    let first = match gh.pull_request(opts.pull_request) {
        Ok(p) => p,
        Err(e) => {
            return Err(e).context("reading the request to adopt".to_owned());
        },
    };
    let ghost nr0 = first.number;
    let mut chain: Vec<(PullRequest, Option<u64>)> = Vec::new();
    chain.push((first, None));
    let bound = gh.record_count();
    let mut steps: usize = 0;
    loop
        invariant
            vcs.wf(),
            *vcs == *old(vcs),
            chain@.len() >= 1,
            chain@[0].0.number == nr0,
            steps <= bound,
        decreases bound - steps,
    {
        if steps >= bound {
            return Err(Error::new("The chain of base requests does not reach the trunk branch"));
        }
        let here = chain.len() - 1;
        let last_base: String = chain[here].0.base.clone();
        if str_eq(last_base.as_str(), config.master_ref.branch_name()) {
            break ;
        }
        let next = match gh.pull_request_by_head(last_base.as_str()) {
            Ok(p) => p,
            Err(e) => {
                return Err(e).context("walking the chain of base requests".to_owned());
            },
        };
        chain[here].1 = Some(next.number);
        let already = find_commit_for_pr(vcs, config, next.number);
        if already.is_ok() {
            break ;
        }
        chain.push((next, None));
        steps = steps + 1;
    }
    let mut rest = chain;
    while rest.len() > 0
        invariant
            vcs.wf(),
            old(vcs).spec_revisions().len() <= vcs.spec_revisions().len(),
            forall|j: int|
                0 <= j < old(vcs).spec_revisions().len()
                    ==> #[trigger] vcs.spec_revisions()[j] == old(vcs).spec_revisions()[j],
            (rest@.len() > 0 && rest@[0].0.number == nr0) || (exists|j: int|
                0 <= j < vcs.spec_revisions().len() && spec_names_pr(
                    #[trigger] vcs.spec_revisions()[j],
                    spec_pull_request_url(config.owner@, config.repo@, nr0),
                )),
        decreases rest@.len(),
    {
        let ghost rest_pre = rest@;
        let ghost vcs_pre = *vcs;
        let entry = rest.pop();
        match entry {
            Some((pr, parent)) => {
                let made = do_adopt(vcs, config, &pr, parent);
                match made {
                    Ok(_) => {
                        proof {
                            if rest_pre[0].0.number == nr0 {
                                if rest_pre.len() == 1 {
                                    assert(pr.number == nr0);
                                    let w = vcs.spec_revisions().len() - 1;
                                    assert(spec_names_pr(
                                        vcs.spec_revisions()[w],
                                        spec_pull_request_url(config.owner@, config.repo@, nr0),
                                    ));
                                } else {
                                    assert(rest@[0] == rest_pre[0]);
                                }
                            }
                            if exists|j: int|
                                0 <= j < vcs_pre.spec_revisions().len() && spec_names_pr(
                                    #[trigger] vcs_pre.spec_revisions()[j],
                                    spec_pull_request_url(config.owner@, config.repo@, nr0),
                                ) {
                                let j = choose|j: int|
                                    0 <= j < vcs_pre.spec_revisions().len() && spec_names_pr(
                                        #[trigger] vcs_pre.spec_revisions()[j],
                                        spec_pull_request_url(config.owner@, config.repo@, nr0),
                                    );
                                assert(vcs.spec_revisions()[j] == vcs_pre.spec_revisions()[j]);
                            }
                        }
                    },
                    Err(e) => {
                        return Err(e).context("adopting one request of the chain".to_owned());
                    },
                }
            },
            None => {},
        }
    }
    Ok(())
}

} // verus!
