//! What the reconciliation guarantees, stated once and proved here: pushing
//! writes nothing the second time, pushing preserves trees, a stacked child
//! sits on its parent's remote commit, the overview comment settles after
//! one write, fork points of siblings are their parent, and the base-motion
//! triangulation fires exactly on a forward-moved base.

use vstd::prelude::*;

use crate::backend::{Revision, VersionControlBackend};
use crate::github::{PullRequestComment, spec_find_marked, spec_is_marked};
use crate::reconcile::{spec_last_commit_trailer, spec_pushed_state, spec_resolved_head,
    spec_trailer_recorded, spec_trailer_unreadable, spec_upstream_unexpected};
use crate::utils::lemma_decimal_digits_val;

verus! {

/// Adding commits on top never unmakes an ancestor.
pub proof fn lemma_ancestor_preserved(before: &VersionControlBackend,
    after: &VersionControlBackend, a: int, b: int)
    requires
        before.wf(),
        after.wf(),
        0 <= b < before.spec_commits().len(),
        after.spec_commits().len() >= before.spec_commits().len(),
        forall|j: int|
            0 <= j < before.spec_commits().len() ==> #[trigger] after.spec_commits()[j]
                == before.spec_commits()[j],
        before.is_ancestor_of(a, b),
    ensures
        after.is_ancestor_of(a, b),
    decreases b,
{
    if a != b {
        let k = choose|k: int|
            0 <= k < before.spec_commits()[b].parents@.len() && before.is_ancestor_of(
                a,
                #[trigger] before.spec_commits()[b].parents@[k] as int,
            );
        lemma_ancestor_preserved(before, after, a, before.spec_commits()[b].parents@[k] as int);
        assert(after.spec_commits()[b].parents@[k] == before.spec_commits()[b].parents@[k]);
    }
}

/// Idempotence: after one successful push of a revision, running the same
/// step again — same base, same head branch, no force — meets exactly the
/// conditions under which the step reports "no update necessary" and writes
/// nothing; that is what its contract then guarantees.
pub proof fn lemma_push_idempotent(before: VersionControlBackend, after: VersionControlBackend,
    rev_before: Revision, rev_after: Revision, base: usize, head_branch: Seq<char>, c: usize,
    message: Seq<char>)
    requires
        before.wf(),
        after.wf(),
        base < before.spec_commits().len(),
        rev_before.commit < before.spec_commits().len(),
        c == before.spec_commits().len(),
        usize::MAX <= u64::MAX,
        spec_pushed_state(
            before,
            after,
            seq![spec_resolved_head(before, head_branch, base) as usize],
            rev_before.commit as int,
            head_branch,
            c,
            message,
        ),
        spec_trailer_recorded(rev_before, rev_after, c),
        before.is_ancestor_of(base as int, spec_resolved_head(before, head_branch, base)),
    ensures
        spec_resolved_head(after, head_branch, base) == c as int,
        after.spec_tree_of(rev_after.commit as int) == after.spec_tree_of(
            spec_resolved_head(after, head_branch, base),
        ),
        after.is_ancestor_of(base as int, spec_resolved_head(after, head_branch, base)),
        !spec_upstream_unexpected(rev_after, spec_resolved_head(after, head_branch, base), false),
        !spec_trailer_unreadable(rev_after, false),
{
    let head0 = spec_resolved_head(before, head_branch, base);
    assert(after.spec_branch_target(head_branch) == Some(c));
    assert(rev_after.commit == rev_before.commit);
    assert(after.spec_tree_of(rev_after.commit as int) == before.spec_tree_of(
        rev_before.commit as int,
    ));
    lemma_ancestor_preserved(&before, &after, base as int, head0);
    assert(after.spec_commits()[c as int].parents@ == seq![head0 as usize]);
    assert(after.spec_commits()[c as int].parents@[0] == head0 as usize);
    assert(after.is_ancestor_of(base as int, c as int));
    lemma_decimal_digits_val(c as nat);
    assert(spec_last_commit_trailer(rev_after) == Some(Some(c as nat)));
}

/// Tree preservation: after any successful push, the remote head branch
/// points at a commit whose tree is exactly the revision's tree.
pub proof fn lemma_tree_preserved(before: VersionControlBackend, after: VersionControlBackend,
    parents: Seq<usize>, target: int, head_branch: Seq<char>, c: usize, message: Seq<char>)
    requires
        spec_pushed_state(before, after, parents, target, head_branch, c, message),
    ensures
        after.spec_branch_target(head_branch) matches Some(h) && after.spec_tree_of(h as int)
            == before.spec_tree_of(target),
{
}

/// Stack ordering: a commit pushed over a base has that base as an
/// ancestor, and the base is then the merge base of the two — so a child
/// pushed over its parent's fresh remote commit sits exactly on it.
pub proof fn lemma_stack_ordering(before: VersionControlBackend, after: VersionControlBackend,
    parents: Seq<usize>, target: int, head_branch: Seq<char>, c: usize, k: int, message: Seq<
    char,
>)
    requires
        before.wf(),
        after.wf(),
        spec_pushed_state(before, after, parents, target, head_branch, c, message),
        0 <= k < parents.len(),
        parents[k] < before.spec_commits().len(),
        c == before.spec_commits().len(),
    ensures
        after.is_ancestor_of(parents[k] as int, c as int),
        after.spec_merge_base(c as int, parents[k] as int) == Some(parents[k] as int),
{
    let p = parents[k] as int;
    assert(after.spec_commits()[c as int].parents@[k] == parents[k]);
    assert(after.is_ancestor_of(p, p));
    assert(after.is_ancestor_of(p, c as int));
    after.lemma_merge_base_of_ancestor(p, c as int);
    let m = choose|m: int|
        after.is_ancestor_of(m, c as int) && after.is_ancestor_of(m, p) && forall|x: int|
            after.is_ancestor_of(x, c as int) && after.is_ancestor_of(x, p) ==> x <= m;
    assert(after.is_ancestor_of(p, c as int) && after.is_ancestor_of(p, p) && forall|x: int|
        after.is_ancestor_of(x, c as int) && after.is_ancestor_of(x, p) ==> x <= p);
    assert(m == p);
}

/// Fork-point correctness: two different commits that each have the same
/// single parent have that parent as their nearest common ancestor.
pub proof fn lemma_fork_point_of_siblings(vcs: &VersionControlBackend, x: usize, y: usize,
    p: usize)
    requires
        vcs.wf(),
        x < vcs.spec_commits().len(),
        y < vcs.spec_commits().len(),
        x != y,
        vcs.spec_commits()[x as int].parents@ == seq![p],
        vcs.spec_commits()[y as int].parents@ == seq![p],
    ensures
        vcs.spec_merge_base(x as int, y as int) == Some(p as int),
{
    let xi = x as int;
    let yi = y as int;
    let pi = p as int;
    assert(vcs.spec_commits()[xi].parents@[0] == p);
    assert(vcs.spec_commits()[yi].parents@[0] == p);
    assert(vcs.is_ancestor_of(pi, pi));
    assert(vcs.is_ancestor_of(pi, xi));
    assert(vcs.is_ancestor_of(pi, yi));
    assert(p < x && p < y);
    assert forall|c: int|
        vcs.is_ancestor_of(c, xi) && vcs.is_ancestor_of(c, yi) implies c <= pi by {
        if c == xi {
            if vcs.is_ancestor_of(c, yi) {
                vcs.lemma_ancestor_le(c, yi);
                let k = choose|k: int|
                    0 <= k < vcs.spec_commits()[yi].parents@.len() && vcs.is_ancestor_of(
                        c,
                        #[trigger] vcs.spec_commits()[yi].parents@[k] as int,
                    );
                vcs.lemma_ancestor_le(c, vcs.spec_commits()[yi].parents@[k] as int);
            }
        } else {
            let k = choose|k: int|
                0 <= k < vcs.spec_commits()[xi].parents@.len() && vcs.is_ancestor_of(
                    c,
                    #[trigger] vcs.spec_commits()[xi].parents@[k] as int,
                );
            vcs.lemma_ancestor_le(c, vcs.spec_commits()[xi].parents@[k] as int);
        }
    }
    let m = choose|m: int|
        vcs.is_ancestor_of(m, xi) && vcs.is_ancestor_of(m, yi) && forall|c: int|
            vcs.is_ancestor_of(c, xi) && vcs.is_ancestor_of(c, yi) ==> c <= m;
    assert(vcs.is_ancestor_of(pi, xi) && vcs.is_ancestor_of(pi, yi) && forall|c: int|
        vcs.is_ancestor_of(c, xi) && vcs.is_ancestor_of(c, yi) ==> c <= pi);
    assert(m == pi);
}

/// Base-motion detection fires exactly forward: when the head's fork point
/// strictly descends from the revision's own fork point, their common
/// ancestor is the revision's fork point, so the triangulation reports the
/// head's; equal fork points report nothing, by the detector's contract.
pub proof fn lemma_base_motion_forward(vcs: &VersionControlBackend, m1: usize, m2: usize)
    requires
        vcs.wf(),
        m1 < vcs.spec_commits().len(),
        m2 < vcs.spec_commits().len(),
        vcs.is_ancestor_of(m2 as int, m1 as int),
    ensures
        vcs.spec_merge_base(m1 as int, m2 as int) == Some(m2 as int),
{
    vcs.lemma_merge_base_of_ancestor(m2 as int, m1 as int);
    let a = m1 as int;
    let b = m2 as int;
    assert forall|c: int| vcs.is_ancestor_of(c, a) && vcs.is_ancestor_of(c, b) implies c <= b by {
        vcs.lemma_ancestor_le(c, b);
    }
    let m = choose|m: int|
        vcs.is_ancestor_of(m, a) && vcs.is_ancestor_of(m, b) && forall|c: int|
            vcs.is_ancestor_of(c, a) && vcs.is_ancestor_of(c, b) ==> c <= m;
    assert(vcs.is_ancestor_of(b, a) && vcs.is_ancestor_of(b, b) && forall|c: int|
        vcs.is_ancestor_of(c, a) && vcs.is_ancestor_of(c, b) ==> c <= b);
    assert(m == b);
}

/// Up to the first marked comment, nothing is marked.
proof fn lemma_find_marked_prefix(comments: Seq<PullRequestComment>, i: int, k: int)
    requires
        0 <= i,
        spec_find_marked(comments, i) == Some(k),
    ensures
        i <= k < comments.len(),
        comments[k].editable && spec_is_marked(comments[k].body@),
        forall|j: int|
            i <= j < k ==> !(#[trigger] comments[j].editable && spec_is_marked(comments[j].body@)),
    decreases comments.len() - i,
{
    if i < comments.len() {
        if comments[i].editable && spec_is_marked(comments[i].body@) {
        } else {
            lemma_find_marked_prefix(comments, i + 1, k);
        }
    }
}

/// When nothing was found, nothing is marked.
proof fn lemma_find_marked_none(comments: Seq<PullRequestComment>, i: int)
    requires
        0 <= i,
        spec_find_marked(comments, i) is None,
    ensures
        forall|j: int|
            i <= j < comments.len() ==> !(#[trigger] comments[j].editable && spec_is_marked(
                comments[j].body@,
            )),
    decreases comments.len() - i,
{
    if i < comments.len() {
        lemma_find_marked_none(comments, i + 1);
    }
}

/// The first marked comment is found.
proof fn lemma_find_marked_at(comments: Seq<PullRequestComment>, i: int, k: int)
    requires
        0 <= i <= k < comments.len(),
        comments[k].editable && spec_is_marked(comments[k].body@),
        forall|j: int|
            i <= j < k ==> !(#[trigger] comments[j].editable && spec_is_marked(comments[j].body@)),
    ensures
        spec_find_marked(comments, i) == Some(k),
    decreases k - i,
{
    if i < k {
        lemma_find_marked_at(comments, i + 1, k);
    }
}

/// Comment idempotence: after the overview comment is written — updated in
/// place or freshly created — the next scan finds exactly that comment,
/// already holding the wanted content, so the next run writes nothing and
/// leaves every other comment alone.
pub proof fn lemma_comment_update_settles(before: Seq<PullRequestComment>,
    after: Seq<PullRequestComment>, wanted: Seq<char>)
    requires
        spec_is_marked(wanted),
        match spec_find_marked(before, 0) {
            Some(k) => {
                &&& after.len() == before.len()
                &&& after[k].body@ == wanted
                &&& after[k].editable == before[k].editable
                &&& (forall|l: int| 0 <= l < before.len() && l != k ==> after[l] == before[l])
            },
            None => {
                &&& after.len() == before.len() + 1
                &&& (forall|l: int| 0 <= l < before.len() ==> #[trigger] after[l] == before[l])
                &&& after.last().body@ == wanted
                &&& after.last().editable
            },
        },
    ensures
        spec_find_marked(after, 0) matches Some(j) && after[j].body@ == wanted,
{
    match spec_find_marked(before, 0) {
        Some(k) => {
            lemma_find_marked_prefix(before, 0, k);
            assert forall|j: int|
                0 <= j < k implies !(#[trigger] after[j].editable && spec_is_marked(
                after[j].body@,
            )) by {
                assert(after[j] == before[j]);
            }
            lemma_find_marked_at(after, 0, k);
        },
        None => {
            lemma_find_marked_none(before, 0);
            let k = before.len() as int;
            assert(after[k] == after.last());
            assert forall|j: int|
                0 <= j < k implies !(#[trigger] after[j].editable && spec_is_marked(
                after[j].body@,
            )) by {
                assert(after[j] == before[j]);
            }
            lemma_find_marked_at(after, 0, k);
        },
    }
}

} // verus!
