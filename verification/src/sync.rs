//! Landing: pruning revisions whose review request has been closed, and
//! rebasing what remains onto the latest trunk.

use vstd::prelude::*;

use crate::backend::VersionControlBackend;
use crate::config::Config;
use crate::error::{Error, ErrorKind, ResultExt};
use crate::github::{PullRequestState, ReviewBackend};
use crate::laws::lemma_ancestor_preserved;

verus! {

/// Is this identity one that `sync` must prune: named by the scope, stored,
/// and bound to a closed review request?
pub open spec fn spec_landed_id(gh: ReviewBackend, vcs0: VersionControlBackend,
    scope: Seq<String>, id: Seq<char>) -> bool {
    &&& (exists|i: int| 0 <= i < scope.len() && #[trigger] scope[i]@ == id)
    &&& (exists|j: int|
        {
            &&& 0 <= j < vcs0.spec_revisions().len()
            &&& (#[trigger] vcs0.spec_revisions()[j]).id.0@ == id
            &&& vcs0.spec_revisions()[j].pull_request_number matches Some(n) && gh.spec_find(n)
                matches Some(ri) && gh.spec_records()[ri].pr.state == PullRequestState::Closed
        })
}

/// Does one of these identities read as `id`?
pub open spec fn spec_names_id(ids: Seq<String>, id: Seq<char>) -> bool {
    exists|i: int| 0 <= i < ids.len() && #[trigger] ids[i]@ == id
}

/// What the caller asked of `sync`.
#[derive(Debug)]
pub struct SyncOpts {
    pub revset: Option<String>,
}

/// Is this revision one of the given store's revisions?
pub open spec fn spec_from_store(vcs0: VersionControlBackend, rev: crate::backend::Revision) -> bool {
    exists|oj: int|
        0 <= oj < vcs0.spec_revisions().len() && rev == #[trigger] vcs0.spec_revisions()[oj]
}

/// The sync command over a resolved scope of revision identities, parent
/// first: a revision whose request is closed is abandoned; the remainder is
/// rebased onto the current trunk tip, each revision onto its parent's
/// fresh commit when that parent is also kept, so the scope's shape is
/// preserved.  An empty remainder is a successful no-op.  On success no
/// landed revision is left in the store, and no branch has moved.
#[verifier::rlimit(100)]
pub fn sync(vcs: &mut VersionControlBackend, gh: &ReviewBackend, config: &Config, opts: &SyncOpts,
    scope: Vec<String>) -> (r: Result<(), Error>)
    requires
        old(vcs).wf(),
        forall|i: int, j: int|
            0 <= i < j < old(vcs).spec_revisions().len()
                ==> #[trigger] old(vcs).spec_revisions()[i].id.0@
                != #[trigger] old(vcs).spec_revisions()[j].id.0@,
    ensures
        final(vcs).wf(),
        final(vcs).spec_branches() == old(vcs).spec_branches(),
        match r {
            Ok(()) => {
                &&& (forall|j: int|
                    0 <= j < final(vcs).spec_revisions().len() ==> !spec_landed_id(
                        *gh,
                        *old(vcs),
                        scope@,
                        (#[trigger] final(vcs).spec_revisions()[j]).id.0@,
                    ))
                &&& (forall|oj: int|
                    0 <= oj < old(vcs).spec_revisions().len() && !spec_landed_id(
                        *gh,
                        *old(vcs),
                        scope@,
                        (#[trigger] old(vcs).spec_revisions()[oj]).id.0@,
                    ) ==> (exists|j: int|
                        0 <= j < final(vcs).spec_revisions().len()
                            && (#[trigger] final(vcs).spec_revisions()[j]).id.0@ == old(
                            vcs,
                        ).spec_revisions()[oj].id.0@))
                &&& (old(vcs).spec_branch_target(config.master_ref.spec_branch_name())
                    matches Some(t) ==> (forall|j: int|
                    0 <= j < final(vcs).spec_revisions().len() && spec_names_id(
                        scope@,
                        (#[trigger] final(vcs).spec_revisions()[j]).id.0@,
                    ) ==> final(vcs).is_ancestor_of(
                        t as int,
                        final(vcs).spec_revisions()[j].commit as int,
                    )))
            },
            Err(e) => e.spec_kind() == ErrorKind::BackendError,
        },
{
    let ghost scope0 = scope@;
    proof {
        assert forall|j: int|
            0 <= j < vcs.spec_revisions().len() implies spec_from_store(
            *old(vcs),
            #[trigger] vcs.spec_revisions()[j],
        ) by {
            assert(vcs.spec_revisions()[j] == old(vcs).spec_revisions()[j]);
        }
    }
    let mut kept: Vec<String> = Vec::new();
    let mut rest = scope;
    while rest.len() > 0
        invariant
            vcs.wf(),
            scope0 == scope@,
            forall|i: int, j: int|
                0 <= i < j < old(vcs).spec_revisions().len()
                    ==> #[trigger] old(vcs).spec_revisions()[i].id.0@
                    != #[trigger] old(vcs).spec_revisions()[j].id.0@,
            vcs.spec_branches() == old(vcs).spec_branches(),
            rest@ == scope0.skip(scope0.len() - rest@.len()),
            rest@.len() <= scope0.len(),
            forall|i: int, j: int|
                0 <= i < j < vcs.spec_revisions().len()
                    ==> #[trigger] vcs.spec_revisions()[i].id.0@
                    != #[trigger] vcs.spec_revisions()[j].id.0@,
            forall|j: int|
                0 <= j < vcs.spec_revisions().len() ==> spec_from_store(
                    *old(vcs),
                    #[trigger] vcs.spec_revisions()[j],
                ),
            forall|j: int|
                0 <= j < vcs.spec_revisions().len() ==> !spec_landed_id(
                    *gh,
                    *old(vcs),
                    scope0.take(scope0.len() - rest@.len()),
                    (#[trigger] vcs.spec_revisions()[j]).id.0@,
                ),
            forall|j: int|
                0 <= j < vcs.spec_revisions().len() ==> (spec_names_id(
                    scope0.take(scope0.len() - rest@.len()),
                    (#[trigger] vcs.spec_revisions()[j]).id.0@,
                ) ==> spec_names_id(kept@, vcs.spec_revisions()[j].id.0@)),
            forall|oj: int|
                0 <= oj < old(vcs).spec_revisions().len() && !spec_landed_id(
                    *gh,
                    *old(vcs),
                    scope0,
                    (#[trigger] old(vcs).spec_revisions()[oj]).id.0@,
                ) ==> (exists|j: int|
                    0 <= j < vcs.spec_revisions().len()
                        && (#[trigger] vcs.spec_revisions()[j]).id.0@ == old(
                        vcs,
                    ).spec_revisions()[oj].id.0@),
        decreases rest@.len(),
    {
        let ghost d = scope0.len() - rest@.len();
        let ghost pre_revs = vcs.spec_revisions();
        proof {
            assert(scope0.skip(d as int)[0] == scope0[d as int]);
            assert(scope0.skip(d as int).drop_first() =~= scope0.skip(d as int + 1));
        }
        let id = rest.remove(0);
        let mut idx: Option<usize> = None;
        let n = vcs.revision_count();
        let mut i: usize = 0;
        while i < n
            invariant
                vcs.wf(),
                n == vcs.spec_revisions().len(),
                i <= n,
                id@ == scope0[d as int]@,
                match idx {
                    Some(k) => k < n && vcs.spec_revisions()[k as int].id.0@ == id@,
                    None => forall|j: int|
                        0 <= j < i ==> #[trigger] vcs.spec_revisions()[j].id.0@ != id@,
                },
            decreases n - i,
        {
            if idx.is_none() && crate::utils::str_eq(vcs.revision_at(i).id.0.as_str(), id.as_str())
                {
                idx = Some(i);
            }
            i = i + 1;
        }
        let at = match idx {
            Some(k) => k,
            None => {
                proof {
                    lemma_landed_step(*gh, *old(vcs), scope0, d as int, vcs.spec_revisions());
                    assert forall|j: int|
                        0 <= j < vcs.spec_revisions().len() && spec_names_id(
                        scope0.take(d as int + 1),
                        (#[trigger] vcs.spec_revisions()[j]).id.0@,
                    ) implies spec_names_id(kept@, vcs.spec_revisions()[j].id.0@) by {
                        let w = choose|w: int|
                            0 <= w < scope0.take(d as int + 1).len() && #[trigger] scope0.take(
                                d as int + 1,
                            )[w]@ == vcs.spec_revisions()[j].id.0@;
                        assert(scope0.take(d as int + 1)[w] == scope0[w]);
                        if w == d {
                            assert(vcs.spec_revisions()[j].id.0@ == id@);
                            assert(false);
                        } else {
                            assert(scope0.take(d as int)[w] == scope0[w]);
                            assert(spec_names_id(
                                scope0.take(d as int),
                                vcs.spec_revisions()[j].id.0@,
                            ));
                        }
                    }
                }
                continue ;
            },
        };
        let number = vcs.revision_at(at).pull_request_number;
        let closed = match number {
            Some(nr) => {
                let got = gh.pull_request(nr);
                match got {
                    Ok(pr) => pr.state == PullRequestState::Closed,
                    Err(_) => false,
                }
            },
            None => false,
        };
        if closed {
            let gone = vcs.abandon_revision(id.as_str());
            match gone {
                Ok(()) => {
                    proof {
                        let ri = choose|ri: int|
                            0 <= ri < pre_revs.len() && #[trigger] pre_revs[ri].id.0@ == id@
                                && vcs.spec_revisions() == pre_revs.remove(ri);
                        assert forall|x: int, y: int|
                            0 <= x < y < vcs.spec_revisions().len()
                                implies #[trigger] vcs.spec_revisions()[x].id.0@
                            != #[trigger] vcs.spec_revisions()[y].id.0@ by {
                            let px: int = if x < ri {
                                x
                            } else {
                                x + 1
                            };
                            let py: int = if y < ri {
                                y
                            } else {
                                y + 1
                            };
                            assert(vcs.spec_revisions()[x] == pre_revs[px]);
                            assert(vcs.spec_revisions()[y] == pre_revs[py]);
                        }
                        assert forall|j: int|
                            0 <= j < vcs.spec_revisions().len() implies spec_from_store(
                            *old(vcs),
                            #[trigger] vcs.spec_revisions()[j],
                        ) by {
                            let pj: int = if j < ri {
                                j
                            } else {
                                j + 1
                            };
                            assert(vcs.spec_revisions()[j] == pre_revs[pj]);
                            assert(spec_from_store(*old(vcs), pre_revs[pj]));
                        }
                        assert forall|j: int|
                            0 <= j < vcs.spec_revisions().len() implies !spec_landed_id(
                            *gh,
                            *old(vcs),
                            scope0.take(d as int + 1),
                            (#[trigger] vcs.spec_revisions()[j]).id.0@,
                        ) by {
                            let pj: int = if j < ri {
                                j
                            } else {
                                j + 1
                            };
                            assert(vcs.spec_revisions()[j] == pre_revs[pj]);
                            assert(pre_revs[pj].id.0@ != id@);
                            lemma_landed_take_step(
                                *gh,
                                *old(vcs),
                                scope0,
                                d as int,
                                pre_revs[pj].id.0@,
                            );
                        }
                        assert(spec_landed_id(*gh, *old(vcs), scope0, id@)) by {
                            assert(scope0[d as int]@ == id@);
                            assert(spec_from_store(*old(vcs), pre_revs[at as int]));
                            let oj = choose|oj: int|
                                0 <= oj < old(vcs).spec_revisions().len() && pre_revs[at as int]
                                    == #[trigger] old(vcs).spec_revisions()[oj];
                            assert(old(vcs).spec_revisions()[oj].id.0@ == id@);
                        }
                        assert forall|j: int|
                            0 <= j < vcs.spec_revisions().len() && spec_names_id(
                            scope0.take(d as int + 1),
                            (#[trigger] vcs.spec_revisions()[j]).id.0@,
                        ) implies spec_names_id(kept@, vcs.spec_revisions()[j].id.0@) by {
                            let pj: int = if j < ri {
                                j
                            } else {
                                j + 1
                            };
                            assert(vcs.spec_revisions()[j] == pre_revs[pj]);
                            assert(pre_revs[pj].id.0@ != id@);
                            let w = choose|w: int|
                                0 <= w < scope0.take(d as int + 1).len() && #[trigger] scope0.take(
                                    d as int + 1,
                                )[w]@ == vcs.spec_revisions()[j].id.0@;
                            assert(scope0.take(d as int + 1)[w] == scope0[w]);
                            assert(w != d);
                            assert(scope0.take(d as int)[w] == scope0[w]);
                            assert(spec_names_id(scope0.take(d as int), pre_revs[pj].id.0@));
                        }
                        assert forall|oj: int|
                            0 <= oj < old(vcs).spec_revisions().len() && !spec_landed_id(
                            *gh,
                            *old(vcs),
                            scope0,
                            (#[trigger] old(vcs).spec_revisions()[oj]).id.0@,
                        ) implies (exists|j: int|
                            0 <= j < vcs.spec_revisions().len()
                                && (#[trigger] vcs.spec_revisions()[j]).id.0@ == old(
                                vcs,
                            ).spec_revisions()[oj].id.0@) by {
                            assert(old(vcs).spec_revisions()[oj].id.0@ != id@);
                            let jp = choose|jp: int|
                                0 <= jp < pre_revs.len() && (#[trigger] pre_revs[jp]).id.0@ == old(
                                    vcs,
                                ).spec_revisions()[oj].id.0@;
                            assert(pre_revs[jp].id.0@ != id@);
                            assert(jp != ri);
                            let jn: int = if jp < ri {
                                jp
                            } else {
                                jp - 1
                            };
                            assert(vcs.spec_revisions()[jn] == pre_revs[jp]);
                        }
                    }
                },
                Err(e) => {
                    return Err(e).context("abandoning a landed revision".to_owned());
                },
            }
        } else {
            let ghost kept_pre = kept@;
            kept.push(id);
            proof {
                assert forall|j: int|
                    0 <= j < vcs.spec_revisions().len() && spec_names_id(
                    scope0.take(d as int + 1),
                    (#[trigger] vcs.spec_revisions()[j]).id.0@,
                ) implies spec_names_id(kept@, vcs.spec_revisions()[j].id.0@) by {
                    if vcs.spec_revisions()[j].id.0@ == id@ {
                        assert(kept@[kept@.len() - 1]@ == vcs.spec_revisions()[j].id.0@);
                    } else {
                        let w = choose|w: int|
                            0 <= w < scope0.take(d as int + 1).len() && #[trigger] scope0.take(
                                d as int + 1,
                            )[w]@ == vcs.spec_revisions()[j].id.0@;
                        assert(scope0.take(d as int + 1)[w] == scope0[w]);
                        assert(w != d);
                        assert(scope0.take(d as int)[w] == scope0[w]);
                        assert(spec_names_id(scope0.take(d as int), vcs.spec_revisions()[j].id.0@));
                        let q = choose|q: int|
                            0 <= q < kept_pre.len() && #[trigger] kept_pre[q]@
                                == vcs.spec_revisions()[j].id.0@;
                        assert(kept@[q]@ == vcs.spec_revisions()[j].id.0@);
                    }
                }
                assert forall|j: int|
                    0 <= j < vcs.spec_revisions().len() implies !spec_landed_id(
                    *gh,
                    *old(vcs),
                    scope0.take(d as int + 1),
                    (#[trigger] vcs.spec_revisions()[j]).id.0@,
                ) by {
                    lemma_landed_take_step(*gh, *old(vcs), scope0, d as int, vcs.spec_revisions()[j].id.0@);
                    if vcs.spec_revisions()[j].id.0@ == id@ {
                        assert(j == at as int);
                        if spec_landed_id(*gh, *old(vcs), scope0.take(d as int + 1), id@) {
                            let oj = choose|oj: int|
                                {
                                    &&& 0 <= oj < old(vcs).spec_revisions().len()
                                    &&& (#[trigger] old(vcs).spec_revisions()[oj]).id.0@ == id@
                                    &&& old(vcs).spec_revisions()[oj].pull_request_number
                                        matches Some(nn) && gh.spec_find(nn) matches Some(ri)
                                        && gh.spec_records()[ri].pr.state
                                        == PullRequestState::Closed
                                };
                            assert(spec_from_store(*old(vcs), vcs.spec_revisions()[j]));
                            let cj = choose|cj: int|
                                0 <= cj < old(vcs).spec_revisions().len()
                                    && vcs.spec_revisions()[j] == #[trigger] old(
                                    vcs,
                                ).spec_revisions()[cj];
                            assert(old(vcs).spec_revisions()[cj].id.0@ == id@);
                            assert(cj == oj);
                            assert(false);
                        }
                    }
                }
            }
        }
    }
    proof {
        assert(scope0.take(scope0.len() as int) =~= scope0);
    }
    let trunk = match vcs.branch_target(config.master_ref.branch_name()) {
        Some(c) => {
            proof {
                let bi = choose|bi: int|
                    0 <= bi < vcs.spec_branches().len() && #[trigger] vcs.spec_branches()[bi].0@
                        == config.master_ref.spec_branch_name();
                assert(vcs.spec_branches()[bi].1 < vcs.spec_commits().len());
            }
            c
        },
        None => {
            return Err(Error::new("The trunk branch does not exist on the remote"));
        },
    };
    proof {
        assert(old(vcs).spec_branch_target(config.master_ref.spec_branch_name()) == Some(trunk));
    }
    let mut placed: Vec<(String, usize)> = Vec::new();
    let mut restk = kept;
    let ghost kept0 = restk@;
    while restk.len() > 0
        invariant
            vcs.wf(),
            scope0 == scope@,
            vcs.spec_branches() == old(vcs).spec_branches(),
            trunk < vcs.spec_commits().len(),
            forall|x: int, y: int|
                0 <= x < y < vcs.spec_revisions().len()
                    ==> #[trigger] vcs.spec_revisions()[x].id.0@
                    != #[trigger] vcs.spec_revisions()[y].id.0@,
            forall|j: int|
                0 <= j < vcs.spec_revisions().len() ==> (spec_names_id(
                    scope0,
                    (#[trigger] vcs.spec_revisions()[j]).id.0@,
                ) ==> spec_names_id(kept0, vcs.spec_revisions()[j].id.0@)),
            forall|oj: int|
                0 <= oj < old(vcs).spec_revisions().len() && !spec_landed_id(
                    *gh,
                    *old(vcs),
                    scope0,
                    (#[trigger] old(vcs).spec_revisions()[oj]).id.0@,
                ) ==> (exists|j: int|
                    0 <= j < vcs.spec_revisions().len()
                        && (#[trigger] vcs.spec_revisions()[j]).id.0@ == old(
                        vcs,
                    ).spec_revisions()[oj].id.0@),
            forall|q: int|
                0 <= q < placed@.len() ==> vcs.is_ancestor_of(
                    trunk as int,
                    (#[trigger] placed@[q]).1 as int,
                ),
            forall|j: int|
                0 <= j < vcs.spec_revisions().len() ==> ((spec_names_id(
                    kept0,
                    (#[trigger] vcs.spec_revisions()[j]).id.0@,
                ) && !spec_names_id(restk@, vcs.spec_revisions()[j].id.0@))
                    ==> vcs.is_ancestor_of(
                    trunk as int,
                    vcs.spec_revisions()[j].commit as int,
                )),
            forall|j: int|
                0 <= j < vcs.spec_revisions().len() ==> !spec_landed_id(
                    *gh,
                    *old(vcs),
                    scope0,
                    (#[trigger] vcs.spec_revisions()[j]).id.0@,
                ),
            forall|p: int| 0 <= p < placed@.len() ==> #[trigger] placed@[p].1 < vcs.spec_commits().len(),
        decreases restk@.len(),
    {
        let ghost restk_pre = restk@;
        let id = restk.remove(0);
        proof {
            assert forall|x: Seq<char>|
                spec_names_id(restk@, x) implies spec_names_id(restk_pre, x) by {
                let w = choose|w: int| 0 <= w < restk@.len() && #[trigger] restk@[w]@ == x;
                assert(restk_pre[w + 1] == restk@[w]);
            }
        }
        let n = vcs.revision_count();
        let mut at: Option<usize> = None;
        let mut i: usize = 0;
        while i < n
            invariant
                vcs.wf(),
                n == vcs.spec_revisions().len(),
                i <= n,
                id@ == restk_pre[0]@,
                match at {
                    Some(k) => k < n && vcs.spec_revisions()[k as int].id.0@ == id@,
                    None => forall|j: int|
                        0 <= j < i ==> #[trigger] vcs.spec_revisions()[j].id.0@ != id@,
                },
            decreases n - i,
        {
            if at.is_none() && crate::utils::str_eq(vcs.revision_at(i).id.0.as_str(), id.as_str())
                {
                at = Some(i);
            }
            i = i + 1;
        }
        let k = match at {
            Some(k) => k,
            None => {
                proof {
                    assert forall|j: int|
                        0 <= j < vcs.spec_revisions().len() && (spec_names_id(
                        kept0,
                        (#[trigger] vcs.spec_revisions()[j]).id.0@,
                    ) && !spec_names_id(restk@, vcs.spec_revisions()[j].id.0@))
                        implies vcs.is_ancestor_of(
                        trunk as int,
                        vcs.spec_revisions()[j].commit as int,
                    ) by {
                        assert(vcs.spec_revisions()[j].id.0@ != id@);
                        if spec_names_id(restk_pre, vcs.spec_revisions()[j].id.0@) {
                            let w = choose|w: int|
                                0 <= w < restk_pre.len() && #[trigger] restk_pre[w]@
                                    == vcs.spec_revisions()[j].id.0@;
                            assert(w != 0);
                            assert(restk@[w - 1] == restk_pre[w]);
                            assert(spec_names_id(restk@, vcs.spec_revisions()[j].id.0@));
                            assert(false);
                        }
                    }
                }
                continue ;
            },
        };
        let parent_id: Option<String> = if vcs.revision_at(k).parent_ids.len() > 0 {
            Some(vcs.revision_at(k).parent_ids[0].0.clone())
        } else {
            None
        };
        let mut onto = trunk;
        match parent_id {
            Some(pid) => {
                let m = placed.len();
                let mut p: usize = 0;
                while p < m
                    invariant
                        vcs.wf(),
                        m == placed@.len(),
                        p <= m,
                        onto < vcs.spec_commits().len(),
                        trunk < vcs.spec_commits().len(),
                        vcs.is_ancestor_of(trunk as int, onto as int),
                        forall|q: int|
                            0 <= q < placed@.len() ==> vcs.is_ancestor_of(
                                trunk as int,
                                (#[trigger] placed@[q]).1 as int,
                            ),
                        forall|q: int|
                            0 <= q < placed@.len() ==> #[trigger] placed@[q].1
                                < vcs.spec_commits().len(),
                    decreases m - p,
                {
                    if crate::utils::str_eq(placed[p].0.as_str(), pid.as_str()) {
                        onto = placed[p].1;
                    }
                    p = p + 1;
                }
            },
            None => {},
        }
        let ghost pre = vcs.spec_revisions();
        let ghost prevcs = *vcs;
        let c = vcs.rebase_revision(k, onto);
        placed.push((id, c));
        proof {
            assert forall|j: int|
                0 <= j < vcs.spec_revisions().len() implies !spec_landed_id(
                *gh,
                *old(vcs),
                scope0,
                (#[trigger] vcs.spec_revisions()[j]).id.0@,
            ) by {
                if j != k {
                    assert(vcs.spec_revisions()[j] == pre[j]);
                } else {
                    assert(vcs.spec_revisions()[j].id == pre[j].id);
                }
            }
            assert forall|q: int|
                0 <= q < placed@.len() implies #[trigger] placed@[q].1
                < vcs.spec_commits().len() by {}
            assert(vcs.is_ancestor_of(trunk as int, c as int)) by {
                lemma_ancestor_preserved(&prevcs, vcs, trunk as int, onto as int);
                vcs.lemma_ancestor_trans(trunk as int, onto as int, c as int);
            }
            assert forall|q: int|
                0 <= q < placed@.len() implies vcs.is_ancestor_of(
                trunk as int,
                (#[trigger] placed@[q]).1 as int,
            ) by {
                if q < placed@.len() - 1 {
                    lemma_ancestor_preserved(&prevcs, vcs, trunk as int, placed@[q].1 as int);
                }
            }
            assert forall|j: int|
                0 <= j < vcs.spec_revisions().len() && (spec_names_id(
                kept0,
                (#[trigger] vcs.spec_revisions()[j]).id.0@,
            ) && !spec_names_id(restk@, vcs.spec_revisions()[j].id.0@))
                implies vcs.is_ancestor_of(
                trunk as int,
                vcs.spec_revisions()[j].commit as int,
            ) by {
                if j == k {
                    assert(vcs.spec_revisions()[j].commit == c);
                } else {
                    assert(vcs.spec_revisions()[j] == pre[j]);
                    if spec_names_id(restk_pre, vcs.spec_revisions()[j].id.0@) {
                        let w = choose|w: int|
                            0 <= w < restk_pre.len() && #[trigger] restk_pre[w]@
                                == vcs.spec_revisions()[j].id.0@;
                        if w == 0 {
                            assert(vcs.spec_revisions()[j].id.0@ == id@);
                            assert(pre[k as int].id.0@ == id@);
                            assert(false);
                        } else {
                            assert(restk@[w - 1] == restk_pre[w]);
                            assert(spec_names_id(restk@, vcs.spec_revisions()[j].id.0@));
                            assert(false);
                        }
                    }
                    assert(prevcs.is_ancestor_of(
                        trunk as int,
                        prevcs.spec_revisions()[j].commit as int,
                    ));
                    lemma_ancestor_preserved(
                        &prevcs,
                        vcs,
                        trunk as int,
                        pre[j].commit as int,
                    );
                }
            }
            assert forall|x: int, y: int|
                0 <= x < y < vcs.spec_revisions().len()
                    implies #[trigger] vcs.spec_revisions()[x].id.0@
                != #[trigger] vcs.spec_revisions()[y].id.0@ by {
                assert(vcs.spec_revisions()[x].id == pre[x].id);
                assert(vcs.spec_revisions()[y].id == pre[y].id);
            }
            assert forall|j: int|
                0 <= j < vcs.spec_revisions().len() && spec_names_id(
                scope0,
                (#[trigger] vcs.spec_revisions()[j]).id.0@,
            ) implies spec_names_id(kept0, vcs.spec_revisions()[j].id.0@) by {
                assert(vcs.spec_revisions()[j].id == pre[j].id);
            }
            assert forall|oj: int|
                0 <= oj < old(vcs).spec_revisions().len() && !spec_landed_id(
                *gh,
                *old(vcs),
                scope0,
                (#[trigger] old(vcs).spec_revisions()[oj]).id.0@,
            ) implies (exists|j: int|
                0 <= j < vcs.spec_revisions().len()
                    && (#[trigger] vcs.spec_revisions()[j]).id.0@ == old(
                    vcs,
                ).spec_revisions()[oj].id.0@) by {
                let jw = choose|jw: int|
                    0 <= jw < pre.len() && (#[trigger] pre[jw]).id.0@ == old(
                        vcs,
                    ).spec_revisions()[oj].id.0@;
                assert(vcs.spec_revisions()[jw].id == pre[jw].id);
            }
        }
    }
    proof {
        assert forall|j: int|
            0 <= j < vcs.spec_revisions().len() && spec_names_id(
            scope0,
            (#[trigger] vcs.spec_revisions()[j]).id.0@,
        ) implies vcs.is_ancestor_of(trunk as int, vcs.spec_revisions()[j].commit as int) by {
            assert(!spec_names_id(restk@, vcs.spec_revisions()[j].id.0@));
        }
    }
    Ok(())
}

/// Landing over one more scope entry reaches at most one more identity.
proof fn lemma_landed_take_step(gh: ReviewBackend, vcs0: VersionControlBackend,
    scope: Seq<String>, d: int, id: Seq<char>)
    requires
        0 <= d < scope.len(),
    ensures
        spec_landed_id(gh, vcs0, scope.take(d + 1), id) ==> spec_landed_id(
            gh,
            vcs0,
            scope.take(d),
            id,
        ) || id == scope[d]@,
{
    if spec_landed_id(gh, vcs0, scope.take(d + 1), id) {
        let i = choose|i: int| 0 <= i < scope.take(d + 1).len() && #[trigger] scope.take(d + 1)[i]@ == id;
        if i < d {
            assert(scope.take(d)[i]@ == id);
        } else {
            assert(scope[d]@ == id);
        }
    }
}

/// A scope entry naming no stored revision prunes nothing.
proof fn lemma_landed_step(gh: ReviewBackend, vcs0: VersionControlBackend, scope: Seq<String>,
    d: int, revs: Seq<crate::backend::Revision>)
    requires
        0 <= d < scope.len(),
    ensures
        forall|j: int|
            0 <= j < revs.len() && !spec_landed_id(gh, vcs0, scope.take(d), (#[trigger] revs[j]).id.0@)
                && revs[j].id.0@ != scope[d]@ ==> !spec_landed_id(
                gh,
                vcs0,
                scope.take(d + 1),
                revs[j].id.0@,
            ),
{
    assert forall|j: int|
        0 <= j < revs.len() && !spec_landed_id(gh, vcs0, scope.take(d), (#[trigger] revs[j]).id.0@)
            && revs[j].id.0@ != scope[d]@ implies !spec_landed_id(
        gh,
        vcs0,
        scope.take(d + 1),
        revs[j].id.0@,
    ) by {
        lemma_landed_take_step(gh, vcs0, scope, d, revs[j].id.0@);
    }
}

} // verus!
