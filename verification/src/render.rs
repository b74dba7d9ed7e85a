//! Renders a tree of published revisions into the stack-overview comment.
//!
//! Each node contributes one line.  A chain keeps a flat look: an only
//! child's lines follow its parent's directly.  Where a node forks, the
//! lines gathered so far are prefixed with a fork glyph (first line) or a
//! continuation glyph (later lines) and an indent wide enough for the forks
//! nested below, and the next child's lines follow unprefixed.

use vstd::prelude::*;

use crate::backend::Revision;
use crate::config::{Config, spec_pull_request_url};
use crate::tree::{SpecTree, Tree, lemma_seq_size_index, lemma_trees_view_index,
    lemma_trees_view_len, lemma_width_le_size, tree_view, trees_view};
use crate::utils::{decimal_digits, format_u64, str_eq};

verus! {

pub open spec fn spec_fork_glyph() -> Seq<char> {
    "┣"@
}

pub open spec fn spec_cont_glyph() -> Seq<char> {
    "┃"@
}

/// `n` drawing spaces.
pub open spec fn spec_spaces(n: nat) -> Seq<char> {
    Seq::new(n, |i: int| ' ')
}

/// Where a revision's line points: its pull request, or a placeholder text
/// when it has none yet.
pub open spec fn spec_comment_link(rev: Revision, owner: Seq<char>, repo: Seq<char>) -> Seq<
    char,
> {
    match rev.pull_request_number {
        Some(n) => spec_pull_request_url(owner, repo, n),
        None => "Revision "@ + rev.id.0@ + " doesn't have a pull request yet. This is a bug."@,
    }
}

/// The one line a revision contributes: a bullet with a link on its title.
pub open spec fn spec_comment_line(rev: Revision, owner: Seq<char>, repo: Seq<char>) -> Seq<
    char,
> {
    "• ["@ + rev.title@ + "]("@ + spec_comment_link(rev, owner, repo) + seq![')']
}

/// The lines of the whole subtree rooted at `t`.
pub open spec fn spec_comment_lines(t: SpecTree<Revision>, owner: Seq<char>, repo: Seq<char>) -> Seq<
    Seq<char>,
>
    decreases t, 0int,
{
    let first = seq![spec_comment_line(t.value, owner, repo)];
    if t.children.len() == 0 {
        first
    } else if t.children.len() == 1 {
        first + spec_comment_lines(t.children[0], owner, repo)
    } else {
        first + spec_fork_lines(t.children, 0, Seq::empty(), owner, repo)
    }
}

/// The accumulated fork block: handling child `i` prefixes everything
/// gathered so far and appends the child's own lines unprefixed.
pub open spec fn spec_fork_lines(children: Seq<SpecTree<Revision>>, i: int, acc: Seq<Seq<char>>,
    owner: Seq<char>, repo: Seq<char>) -> Seq<Seq<char>>
    decreases children, children.len() - i,
{
    if i < 0 || i >= children.len() {
        acc
    } else {
        let indent = spec_spaces((2 * children[i].spec_width() - 1) as nat);
        let prefixed = Seq::new(
            acc.len(),
            |j: int|
                (if j == 0 {
                    spec_fork_glyph()
                } else {
                    spec_cont_glyph()
                }) + indent + acc[j],
        );
        spec_fork_lines(
            children,
            i + 1,
            prefixed + spec_comment_lines(children[i], owner, repo),
            owner,
            repo,
        )
    }
}

/// A string of `n` spaces.
fn spaces(n: usize) -> (r: String)
    ensures
        r@ == spec_spaces(n as nat),
{
    let mut s = String::new();
    let mut i: usize = 0;
    proof {
        assert(s@ =~= spec_spaces(0));
    }
    while i < n
        invariant
            i <= n,
            s@ == spec_spaces(i as nat),
        decreases n - i,
    {
        proof {
            reveal_strlit(" ");
        }
        s.append(" ");
        proof {
            assert(s@ =~= spec_spaces(i as nat + 1));
        }
        i = i + 1;
    }
    s
}

/// See `spec_comment_line`.
fn comment_line(rev: &Revision, config: &Config) -> (r: String)
    ensures
        r@ == spec_comment_line(*rev, config.owner@, config.repo@),
{
    proof {
        reveal_strlit("• [");
        reveal_strlit("](");
        reveal_strlit(")");
        assert(")"@ =~= seq![')']);
    }
    let mut s = String::from_str("• [");
    s.append(rev.title.as_str());
    s.append("](");
    match rev.pull_request_number {
        Some(n) => {
            let url = config.pull_request_url(n);
            s.append(url.as_str());
        },
        None => {
            proof {
                reveal_strlit("Revision ");
                reveal_strlit(" doesn't have a pull request yet. This is a bug.");
            }
            s.append("Revision ");
            s.append(rev.id.0.as_str());
            s.append(" doesn't have a pull request yet. This is a bug.");
        },
    }
    s.append(")");
    s
}

/// One line per node of the tree, exactly as the overview comment shows it.
pub fn prepare_revision_comment(tree: &Tree<Revision>, config: &Config) -> (r: Vec<String>)
    requires
        2 * tree@.size() <= usize::MAX,
    ensures
        r@.len() == spec_comment_lines(tree@, config.owner@, config.repo@).len(),
        forall|i: int|
            0 <= i < r@.len() ==> #[trigger] r@[i]@ == spec_comment_lines(
                tree@,
                config.owner@,
                config.repo@,
            )[i],
    decreases tree@.size(),
{
    let ghost owner = config.owner@;
    let ghost repo = config.repo@;
    let mut lines: Vec<String> = Vec::new();
    lines.push(comment_line(tree.get(), config));
    let children = tree.get_children();
    let ghost cs = tree@.children;
    proof {
        lemma_trees_view_len(children@);
    }
    let n = children.len();
    if n == 0 {
        proof {
            assert(spec_comment_lines(tree@, owner, repo) =~= seq![
                spec_comment_line(tree@.value, owner, repo),
            ]);
        }
        return lines;
    }
    if n == 1 {
        proof {
            lemma_trees_view_index(children@, 0);
            lemma_seq_size_index(cs, 0);
        }
        let sub = prepare_revision_comment(&children[0], config);
        let m = sub.len();
        let mut j: usize = 0;
        while j < m
            invariant
                j <= m,
                cs.len() == 1,
                cs == tree@.children,
                owner == config.owner@,
                repo == config.repo@,
                m == sub@.len(),
                m == spec_comment_lines(cs[0], owner, repo).len(),
                forall|l: int|
                    0 <= l < m ==> #[trigger] sub@[l]@ == spec_comment_lines(cs[0], owner, repo)[l],
                lines@.len() == j + 1,
                lines@[0]@ == spec_comment_line(tree@.value, owner, repo),
                forall|l: int|
                    1 <= l < j + 1 ==> #[trigger] lines@[l]@ == spec_comment_lines(
                        cs[0],
                        owner,
                        repo,
                    )[l - 1],
            decreases m - j,
        {
            lines.push(sub[j].clone());
            j = j + 1;
        }
        proof {
            let want = spec_comment_lines(tree@, owner, repo);
            assert(want == seq![spec_comment_line(tree@.value, owner, repo)] + spec_comment_lines(
                cs[0],
                owner,
                repo,
            ));
            assert forall|i: int| 0 <= i < lines@.len() implies #[trigger] lines@[i]@ == want[i] by {
                if i > 0 {
                    assert(lines@[i]@ == spec_comment_lines(cs[0], owner, repo)[i - 1]);
                }
            }
        }
        return lines;
    }
    let mut child_lines: Vec<String> = Vec::new();
    let mut i: usize = 0;
    proof {
        assert(child_lines@ =~= Seq::<String>::empty());
    }
    while i < n
        invariant
            i <= n,
            n >= 2,
            n == cs.len(),
            cs == tree@.children,
            owner == config.owner@,
            repo == config.repo@,
            trees_view(children@) == cs,
            children@.len() == n,
            2 * tree@.size() <= usize::MAX,
            tree@.children.len() == n,
            child_lines@.len() == spec_fork_lines(cs, 0, Seq::empty(), owner, repo).len()
                - spec_fork_lines(cs, i as int, lines_views(child_lines@), owner, repo).len()
                + lines_views(child_lines@).len(),
            spec_fork_lines(cs, 0, Seq::empty(), owner, repo) == spec_fork_lines(
                cs,
                i as int,
                lines_views(child_lines@),
                owner,
                repo,
            ),
        decreases n - i,
    {
        proof {
            lemma_trees_view_index(children@, i as int);
            lemma_seq_size_index(cs, i as int);
            lemma_width_le_size(cs[i as int]);
        }
        let w = children[i].width();
        let indent = spaces(2 * w - 1);
        let new_lines = prepare_revision_comment(&children[i], config);
        let fork = fork_glyph();
        let cont = cont_glyph();
        let mut prefixed: Vec<String> = Vec::new();
        let m = child_lines.len();
        let mut j: usize = 0;
        while j < m
            invariant
                j <= m,
                m == child_lines@.len(),
                indent@ == spec_spaces((2 * cs[i as int].spec_width() - 1) as nat),
                i < cs.len(),
                fork@ == spec_fork_glyph(),
                cont@ == spec_cont_glyph(),
                prefixed@.len() == j,
                forall|l: int|
                    0 <= l < j ==> #[trigger] prefixed@[l]@ == (if l == 0 {
                        spec_fork_glyph()
                    } else {
                        spec_cont_glyph()
                    }) + spec_spaces((2 * cs[i as int].spec_width() - 1) as nat)
                        + child_lines@[l]@,
            decreases m - j,
        {
            let mut line = if j == 0 {
                fork.to_owned()
            } else {
                cont.to_owned()
            };
            line.append(indent.as_str());
            line.append(child_lines[j].as_str());
            prefixed.push(line);
            j = j + 1;
        }
        let k = new_lines.len();
        let mut l: usize = 0;
        while l < k
            invariant
                l <= k,
                k == new_lines@.len(),
                owner == config.owner@,
                repo == config.repo@,
                k == spec_comment_lines(cs[i as int], owner, repo).len(),
                forall|x: int|
                    0 <= x < k ==> #[trigger] new_lines@[x]@ == spec_comment_lines(
                        cs[i as int],
                        owner,
                        repo,
                    )[x],
                prefixed@.len() == m + l,
                m == child_lines@.len(),
                forall|x: int|
                    m <= x < m + l ==> #[trigger] prefixed@[x]@ == new_lines@[x - m]@,
                forall|x: int|
                    0 <= x < m ==> #[trigger] prefixed@[x]@ == (if x == 0 {
                        spec_fork_glyph()
                    } else {
                        spec_cont_glyph()
                    }) + spec_spaces((2 * cs[i as int].spec_width() - 1) as nat)
                        + child_lines@[x]@,
                i < cs.len(),
            decreases k - l,
        {
            prefixed.push(new_lines[l].clone());
            l = l + 1;
        }
        proof {
            let accv = lines_views(child_lines@);
            let newacc = Seq::new(
                accv.len(),
                |j: int|
                    (if j == 0 {
                        spec_fork_glyph()
                    } else {
                        spec_cont_glyph()
                    }) + spec_spaces((2 * cs[i as int].spec_width() - 1) as nat) + accv[j],
            ) + spec_comment_lines(cs[i as int], owner, repo);
            assert(lines_views(prefixed@) =~= newacc);
            assert(spec_fork_lines(cs, i as int, accv, owner, repo) == spec_fork_lines(
                cs,
                i as int + 1,
                newacc,
                owner,
                repo,
            ));
        }
        child_lines = prefixed;
        i = i + 1;
    }
    proof {
        assert(spec_fork_lines(cs, n as int, lines_views(child_lines@), owner, repo)
            == lines_views(child_lines@));
    }
    let m = child_lines.len();
    let mut j: usize = 0;
    while j < m
        invariant
            j <= m,
            m == child_lines@.len(),
            owner == config.owner@,
            repo == config.repo@,
            cs == tree@.children,
            n == cs.len(),
            n >= 2,
            lines_views(child_lines@) == spec_fork_lines(cs, 0, Seq::empty(), owner, repo),
            lines@.len() == j + 1,
            lines@[0]@ == spec_comment_line(tree@.value, owner, repo),
            forall|l: int|
                1 <= l < j + 1 ==> #[trigger] lines@[l]@ == lines_views(child_lines@)[l - 1],
        decreases m - j,
    {
        lines.push(child_lines[j].clone());
        j = j + 1;
    }
    proof {
        let want = spec_comment_lines(tree@, owner, repo);
        assert(want == seq![spec_comment_line(tree@.value, owner, repo)] + spec_fork_lines(
            cs,
            0,
            Seq::empty(),
            owner,
            repo,
        ));
        assert forall|i2: int| 0 <= i2 < lines@.len() implies #[trigger] lines@[i2]@ == want[i2] by {
            if i2 > 0 {
                assert(lines@[i2]@ == lines_views(child_lines@)[i2 - 1]);
            }
        }
    }
    lines
}

/// The views of a list of strings.
pub open spec fn lines_views(lines: Seq<String>) -> Seq<Seq<char>> {
    Seq::new(lines.len(), |i: int| lines[i]@)
}

/// `s` with every occurrence of `pat` replaced by `rep`, scanning left to
/// right without rescanning replacements.
pub open spec fn spec_replace(s: Seq<char>, pat: Seq<char>, rep: Seq<char>) -> Seq<char>
    recommends
        pat.len() > 0,
    decreases s.len(),
{
    if pat.len() == 0 || s.len() == 0 {
        s
    } else if s.len() >= pat.len() && s.take(pat.len() as int) == pat {
        rep + spec_replace(s.skip(pat.len() as int), pat, rep)
    } else {
        seq![s[0]] + spec_replace(s.drop_first(), pat, rep)
    }
}

/// See `spec_replace`.
pub fn replace_all(s: &str, pat: &str, rep: &str) -> (r: String)
    requires
        pat@.len() > 0,
    ensures
        r@ == spec_replace(s@, pat@, rep@),
{
    let n = s.unicode_len();
    let p = pat.unicode_len();
    let mut out = String::new();
    let mut i: usize = 0;
    proof {
        assert(out@ =~= Seq::<char>::empty());
        assert(s@.skip(0) =~= s@);
    }
    while i < n
        invariant
            n == s@.len(),
            p == pat@.len(),
            p > 0,
            i <= n,
            spec_replace(s@, pat@, rep@) == out@ + spec_replace(s@.skip(i as int), pat@, rep@),
        decreases n - i,
    {
        let ghost rest = s@.skip(i as int);
        if p <= n && i <= n - p {
            let piece = s.substring_char(i, i + p);
            proof {
                assert(s@.subrange(i as int, i as int + p) =~= rest.take(p as int));
            }
            if str_eq(piece, pat) {
                out.append(rep);
                proof {
                    assert(rest.skip(p as int) =~= s@.skip(i as int + p));
                }
                i = i + p;
                continue ;
            }
        }
        let one = s.substring_char(i, i + 1);
        proof {
            assert(s@.subrange(i as int, i as int + 1) =~= seq![rest[0]]);
            assert(rest.drop_first() =~= s@.skip(i as int + 1));
            if p <= n && i <= n - p {
                assert(rest.take(p as int) != pat@);
            } else {
                assert(rest.len() < pat@.len());
            }
        }
        out.append(one);
        i = i + 1;
    }
    proof {
        assert(s@.skip(n as int) =~= Seq::<char>::empty());
    }
    out
}

/// Lines joined with single newlines.
pub open spec fn spec_join_lines(lines: Seq<Seq<char>>) -> Seq<char>
    decreases lines.len(),
{
    if lines.len() == 0 {
        Seq::empty()
    } else if lines.len() == 1 {
        lines[0]
    } else {
        lines[0] + seq!['\n'] + spec_join_lines(lines.drop_first())
    }
}

/// The text a line of the overview contributes after the self-link of
/// `revision` is flattened: the link pattern is replaced by the bare title.
pub open spec fn spec_self_flattened(line: Seq<char>, rev: Revision, owner: Seq<char>, repo: Seq<
    char,
>) -> Seq<char> {
    match rev.pull_request_number {
        Some(n) => spec_replace(
            line,
            seq!['['] + rev.title@ + "]("@ + spec_pull_request_url(owner, repo, n) + seq![')'],
            rev.title@,
        ),
        None => line,
    }
}

/// The finished overview comment for `revision`: a one-line summary of the
/// stack size, then the prepared lines, with the revision's own
/// self-referential link flattened to plain text.
pub open spec fn spec_finalized_comment(rev: Revision, owner: Seq<char>, repo: Seq<char>,
    prepared: Seq<Seq<char>>) -> Seq<char> {
    let header = "This PR is part of a "@ + decimal_digits(prepared.len()) + " changes series"@;
    let all = seq![header] + prepared;
    spec_join_lines(Seq::new(all.len(), |i: int| spec_self_flattened(all[i], rev, owner, repo)))
}

/// See `spec_finalized_comment`.
pub fn finalize_revision_comment(revision: &Revision, config: &Config, prepared: &Vec<String>) -> (r:
    String)
    requires
        prepared@.len() <= u64::MAX,
    ensures
        r@ == spec_finalized_comment(
            *revision,
            config.owner@,
            config.repo@,
            lines_views(prepared@),
        ),
{
    let ghost owner = config.owner@;
    let ghost repo = config.repo@;
    let ghost pv = lines_views(prepared@);
    proof {
        reveal_strlit("This PR is part of a ");
        reveal_strlit(" changes series");
    }
    let mut header = String::from_str("This PR is part of a ");
    let count = format_u64(prepared.len() as u64);
    header.append(count.as_str());
    header.append(" changes series");
    let ghost all = seq![header@] + pv;
    let ghost flat = Seq::new(all.len(), |i: int| spec_self_flattened(all[i], *revision, owner, repo));
    let mut out = flatten_line(&header, revision, config);
    let n = prepared.len();
    let mut i: usize = 0;
    proof {
        assert(all[0] == header@);
        assert(out@ == flat[0]);
        assert(spec_join_lines(flat.skip(n as int)) =~= flat[n as int]
            || n == 0) by {
            if n > 0 {
                assert(flat.skip(n as int).len() == 1);
                assert(flat.skip(n as int)[0] == flat[n as int]);
            }
        }
    }
    while i < n
        invariant
            n == prepared@.len(),
            pv == lines_views(prepared@),
            owner == config.owner@,
            repo == config.repo@,
            i <= n,
            all == seq![header@] + pv,
            flat == Seq::new(
                all.len(),
                |j: int| spec_self_flattened(all[j], *revision, owner, repo),
            ),
            flat.len() == n + 1,
            spec_join_lines(flat) == out@ + spec_join_tail(flat, i as int + 1),
        decreases n - i,
    {
        proof {
            reveal_strlit("\n");
            assert("\n"@ =~= seq!['\n']);
            assert(all[i as int + 1] == pv[i as int]);
        }
        out.append("\n");
        let piece = flatten_line(&prepared[i], revision, config);
        out.append(piece.as_str());
        proof {
            lemma_join_tail_step(flat, i as int + 1);
        }
        i = i + 1;
    }
    proof {
        lemma_join_tail_end(flat, n as int + 1);
    }
    out
}

/// What is still to be joined after the first `i` lines: a newline and the
/// rest, or nothing.
pub open spec fn spec_join_tail(lines: Seq<Seq<char>>, i: int) -> Seq<char> {
    if i >= lines.len() {
        Seq::empty()
    } else {
        seq!['\n'] + spec_join_lines(lines.skip(i))
    }
}

/// Peeling one line off the tail.
proof fn lemma_join_tail_step(lines: Seq<Seq<char>>, i: int)
    requires
        0 < i < lines.len(),
    ensures
        spec_join_tail(lines, i) == seq!['\n'] + lines[i] + spec_join_tail(lines, i + 1),
{
    assert(lines.skip(i)[0] == lines[i]);
    assert(lines.skip(i).drop_first() =~= lines.skip(i + 1));
    if i + 1 < lines.len() {
        assert(lines.skip(i).len() > 1);
        assert(spec_join_lines(lines.skip(i)) == lines[i] + seq!['\n'] + spec_join_lines(
            lines.skip(i + 1),
        ));
        assert(spec_join_tail(lines, i) =~= seq!['\n'] + lines[i] + spec_join_tail(lines, i + 1));
    } else {
        assert(lines.skip(i).len() == 1);
        assert(spec_join_lines(lines.skip(i)) == lines[i]);
        assert(spec_join_tail(lines, i) =~= seq!['\n'] + lines[i] + spec_join_tail(lines, i + 1));
    }
}

/// Nothing is left once every line is joined.
proof fn lemma_join_tail_end(lines: Seq<Seq<char>>, i: int)
    requires
        i >= lines.len(),
    ensures
        spec_join_tail(lines, i) == Seq::<char>::empty(),
{
}

/// One line with the revision's self-link flattened.
fn flatten_line(line: &String, revision: &Revision, config: &Config) -> (r: String)
    ensures
        r@ == spec_self_flattened(line@, *revision, config.owner@, config.repo@),
{
    match revision.pull_request_number {
        Some(n) => {
            proof {
                reveal_strlit("[");
                reveal_strlit("](");
                reveal_strlit(")");
                assert("["@ =~= seq!['[']);
                assert(")"@ =~= seq![')']);
            }
            let mut pattern = String::from_str("[");
            pattern.append(revision.title.as_str());
            pattern.append("](");
            let url = config.pull_request_url(n);
            pattern.append(url.as_str());
            pattern.append(")");
            replace_all(line.as_str(), pattern.as_str(), revision.title.as_str())
        },
        None => line.clone(),
    }
}

fn fork_glyph() -> (r: &'static str)
    ensures
        r@ == spec_fork_glyph(),
{
    proof {
        reveal_strlit("┣");
    }
    "┣"
}

fn cont_glyph() -> (r: &'static str)
    ensures
        r@ == spec_cont_glyph(),
{
    proof {
        reveal_strlit("┃");
    }
    "┃"
}

} // verus!
