//! The per-repository configuration: the GitHub repository coordinates, the
//! remote, the trunk branch, and the prefix used when naming pull-request
//! branches.

use vstd::prelude::*;

use crate::error::{Error, ErrorKind};
use crate::utils::{all_digits, decimal_digits, digits_only, digits_val, format_u64, is_digit,
    parse_u64, slug_of, slugify, spec_leading_digits, spec_trim, spec_trim_back, spec_trim_front,
    str_eq, trim_front_str, trim_str};

verus! {

/// A branch on the GitHub remote, together with whether it is the trunk.
#[derive(Debug, Clone)]
pub struct GitHubBranch {
    branch_name: String,
    remote_name: String,
    is_master: bool,
}

impl GitHubBranch {
    pub closed spec fn spec_branch_name(&self) -> Seq<char> {
        self.branch_name@
    }

    pub closed spec fn spec_remote_name(&self) -> Seq<char> {
        self.remote_name@
    }

    pub closed spec fn spec_is_master(&self) -> bool {
        self.is_master
    }

    pub fn new_from_branch_name(branch_name: &str, remote_name: &str, master_branch: &str) -> (r:
        Self)
        ensures
            r.spec_branch_name() == branch_name@,
            r.spec_remote_name() == remote_name@,
            r.spec_is_master() == (branch_name@ == master_branch@),
    {
        let is_master = str_eq(branch_name, master_branch);
        GitHubBranch {
            branch_name: branch_name.to_owned(),
            remote_name: remote_name.to_owned(),
            is_master,
        }
    }

    /// Reads a branch out of a fully qualified ref such as
    /// `refs/heads/<name>`.
    pub fn new_from_ref(ghref: &str, remote_name: &str, master_branch: &str) -> (r: Result<
        Self,
        Error,
    >)
        ensures
            match r {
                Ok(b) => ghref@.len() > spec_heads_prefix().len() && ghref@.take(
                    spec_heads_prefix().len() as int,
                ) == spec_heads_prefix() && b.spec_branch_name() == ghref@.skip(
                    spec_heads_prefix().len() as int,
                ) && b.spec_remote_name() == remote_name@ && b.spec_is_master() == (ghref@.skip(
                    spec_heads_prefix().len() as int,
                ) == master_branch@),
                Err(e) => (ghref@.len() <= spec_heads_prefix().len() || ghref@.take(
                    spec_heads_prefix().len() as int,
                ) != spec_heads_prefix()) && e.spec_kind() == ErrorKind::BackendError,
            },
    {
        let prefix = heads_prefix();
        let n = ghref.unicode_len();
        let p = prefix.unicode_len();
        if n <= p {
            return Err(Error::new("ref is not a branch ref"));
        }
        let head = ghref.substring_char(0, p);
        if !str_eq(head, prefix) {
            return Err(Error::new("ref is not a branch ref"));
        }
        let name = ghref.substring_char(p, n);
        proof {
            assert(ghref@.subrange(0, p as int) =~= ghref@.take(p as int));
            assert(ghref@.subrange(p as int, n as int) =~= ghref@.skip(p as int));
        }
        Ok(Self::new_from_branch_name(name, remote_name, master_branch))
    }

    pub fn branch_name(&self) -> (r: &str)
        ensures
            r@ == self.spec_branch_name(),
    {
        self.branch_name.as_str()
    }

    pub fn is_master_branch(&self) -> (r: bool)
        ensures
            r == self.spec_is_master(),
    {
        self.is_master
    }

    /// The remote-tracking name of this branch: `<remote>/<branch>`.
    pub fn local(&self) -> (r: String)
        ensures
            r@ == self.spec_remote_name() + seq!['/'] + self.spec_branch_name(),
    {
        let mut s = self.remote_name.clone();
        proof {
            reveal_strlit("/");
            assert("/"@ =~= seq!['/']);
        }
        s.append("/");
        s.append(self.branch_name.as_str());
        s
    }
}

/// The `refs/heads/` prefix of a local branch ref.
fn heads_prefix() -> (r: &'static str)
    ensures
        r@ == spec_heads_prefix(),
        r@.len() == 11,
{
    proof {
        reveal_strlit("refs/heads/");
    }
    "refs/heads/"
}

pub open spec fn spec_heads_prefix() -> Seq<char> {
    "refs/heads/"@
}

/// What `spr` needs to know about the repository it synchronizes.
#[derive(Debug, Clone)]
pub struct Config {
    pub owner: String,
    pub repo: String,
    pub remote_name: String,
    pub master_ref: GitHubBranch,
    pub branch_prefix: String,
}

/// The web address of a pull request.
pub open spec fn spec_pull_request_url(owner: Seq<char>, repo: Seq<char>, number: u64) -> Seq<
    char,
> {
    "https://github.com/"@ + owner + seq!['/'] + repo + "/pull/"@ + decimal_digits(number as nat)
}

impl Config {
    pub fn new(owner: String, repo: String, remote_name: String, master_branch: String,
        branch_prefix: String) -> (r: Self)
        ensures
            r.owner == owner,
            r.repo == repo,
            r.remote_name == remote_name,
            r.branch_prefix == branch_prefix,
            r.master_ref.spec_branch_name() == master_branch@,
            r.master_ref.spec_remote_name() == remote_name@,
            r.master_ref.spec_is_master(),
    {
        let master_ref = GitHubBranch::new_from_branch_name(
            master_branch.as_str(),
            remote_name.as_str(),
            master_branch.as_str(),
        );
        Config { owner, repo, remote_name, master_ref, branch_prefix }
    }

    /// See `spec_pull_request_url`.
    pub fn pull_request_url(&self, number: u64) -> (r: String)
        ensures
            r@ == spec_pull_request_url(self.owner@, self.repo@, number),
    {
        proof {
            reveal_strlit("https://github.com/");
            reveal_strlit("/");
            reveal_strlit("/pull/");
            assert("/"@ =~= seq!['/']);
        }
        let mut s = String::from_str("https://github.com/");
        s.append(self.owner.as_str());
        s.append("/");
        s.append(self.repo.as_str());
        s.append("/pull/");
        let digits = format_u64(number);
        s.append(digits.as_str());
        s
    }

    /// See `GitHubBranch::new_from_ref`, against this configuration.
    pub fn new_github_branch_from_ref(&self, ghref: &str) -> (r: Result<GitHubBranch, Error>)
        ensures
            match r {
                Ok(b) => ghref@.len() > spec_heads_prefix().len() && ghref@.take(
                    spec_heads_prefix().len() as int,
                ) == spec_heads_prefix() && b.spec_branch_name() == ghref@.skip(
                    spec_heads_prefix().len() as int,
                ) && b.spec_remote_name() == self.remote_name@ && b.spec_is_master() == (
                ghref@.skip(spec_heads_prefix().len() as int)
                    == self.master_ref.spec_branch_name()),
                Err(e) => (ghref@.len() <= spec_heads_prefix().len() || ghref@.take(
                    spec_heads_prefix().len() as int,
                ) != spec_heads_prefix()) && e.spec_kind() == ErrorKind::BackendError,
            },
    {
        GitHubBranch::new_from_ref(
            ghref,
            self.remote_name.as_str(),
            self.master_ref.branch_name(),
        )
    }

    /// See `GitHubBranch::new_from_branch_name`, against this configuration.
    pub fn new_github_branch(&self, branch_name: &str) -> (r: GitHubBranch)
        ensures
            r.spec_branch_name() == branch_name@,
            r.spec_remote_name() == self.remote_name@,
            r.spec_is_master() == (branch_name@ == self.master_ref.spec_branch_name()),
    {
        GitHubBranch::new_from_branch_name(
            branch_name,
            self.remote_name.as_str(),
            self.master_ref.branch_name(),
        )
    }

    /// Reads a pull-request number out of the free-form trailer text: a
    /// plain number with an optional leading `#`, or this repository's own
    /// request address; see `spec_pr_field`.
    pub fn parse_pull_request_field(&self, text: &str) -> (r: Option<u64>)
        ensures
            match r {
                Some(v) => spec_pr_field(self.owner@, self.repo@, text@) == Some(v as nat),
                None => spec_pr_field(self.owner@, self.repo@, text@) is None || spec_pr_field(
                    self.owner@,
                    self.repo@,
                    text@,
                )->Some_0 > u64::MAX,
            },
    {
        let t = trim_str(text);
        let n = t.as_str().unicode_len();
        if n == 0 {
            return None;
        }
        let t2: String = if t.as_str().get_char(0) == '#' {
            let rest = t.as_str().substring_char(1, n);
            proof {
                assert(rest@ =~= t@.drop_first());
            }
            trim_front_str(rest)
        } else {
            proof {
                assert(spec_trim_back(t@) == t@) by {
                    lemma_trim_of_trim(text@);
                }
            }
            t.clone()
        };
        if digits_only(t2.as_str()) {
            let parsed = parse_u64(t2.as_str());
            return parsed;
        }
        let off: usize = if starts_with_sub(t.as_str(), "https://") {
            proof {
                reveal_strlit("https://");
            }
            8
        } else if starts_with_sub(t.as_str(), "http://") {
            proof {
                reveal_strlit("http://");
            }
            7
        } else {
            proof {
                reveal_strlit("https://");
                reveal_strlit("http://");
            }
            return None;
        };
        proof {
            reveal_strlit("https://");
            reveal_strlit("http://");
        }
        let rest = t.as_str().substring_char(off, n);
        proof {
            assert(rest@ =~= t@.skip(off as int));
        }
        proof {
            reveal_strlit("github.com/");
            reveal_strlit("/");
            reveal_strlit("/pull/");
            assert("/"@ =~= seq!['/']);
        }
        let mut prefix = String::from_str("github.com/");
        prefix.append(self.owner.as_str());
        prefix.append("/");
        prefix.append(self.repo.as_str());
        prefix.append("/pull/");
        if !starts_with_sub(rest, prefix.as_str()) {
            return None;
        }
        let p = prefix.as_str().unicode_len();
        let m = rest.unicode_len();
        let digits_part = rest.substring_char(p, m);
        proof {
            assert(digits_part@ =~= rest@.skip(p as int));
        }
        let dm = digits_part.unicode_len();
        let mut j: usize = 0;
        proof {
            assert(digits_part@.skip(0) =~= digits_part@);
        }
        while j < dm && digits_part.get_char(j) >= '0' && digits_part.get_char(j) <= '9'
            invariant
                dm == digits_part@.len(),
                j <= dm,
                spec_leading_digits(digits_part@) == j + spec_leading_digits(
                    digits_part@.skip(j as int),
                ),
                forall|l: int| 0 <= l < j ==> is_digit(#[trigger] digits_part@[l]),
            decreases dm - j,
        {
            proof {
                assert(digits_part@.skip(j as int)[0] == digits_part@[j as int]);
                assert(digits_part@.skip(j as int).drop_first() =~= digits_part@.skip(
                    j as int + 1,
                ));
            }
            j = j + 1;
        }
        proof {
            if j < dm {
                assert(digits_part@.skip(j as int)[0] == digits_part@[j as int]);
            } else {
                assert(digits_part@.skip(j as int) =~= Seq::<char>::empty());
            }
            assert(spec_leading_digits(digits_part@) == j as int);
        }
        if j == 0 {
            return None;
        }
        let boundary_ok = if j == dm {
            true
        } else {
            let c = digits_part.get_char(j);
            c == '/' || c == '?' || c == '#'
        };
        if !boundary_ok {
            return None;
        }
        let digits = digits_part.substring_char(0, j);
        proof {
            assert(digits@ =~= digits_part@.take(j as int));
        }
        parse_u64(digits)
    }

    /// A fresh branch name for a new pull request: the branch prefix, the
    /// slug of the title, and a numeric suffix when the plain name is taken.
    pub fn get_new_branch_name(&self, existing_ref_names: &Vec<String>, title: &str) -> (r: String)
        ensures
            spec_is_unused_candidate(
                r@,
                self.branch_prefix@ + slug_of(title@),
                self.remote_name@,
                existing_ref_names@,
            ),
    {
        let slug = slugify(title);
        let mut base = self.branch_prefix.clone();
        base.append(slug.as_str());
        self.find_unused_branch_name(existing_ref_names, base)
    }

    /// A fresh base-branch name derived from the trunk branch and a title.
    pub fn get_base_branch_name(&self, existing_ref_names: &Vec<String>, title: &str) -> (r:
        String)
        ensures
            spec_is_unused_candidate(
                r@,
                self.branch_prefix@ + self.master_ref.spec_branch_name() + seq!['.'] + slug_of(
                    title@,
                ),
                self.remote_name@,
                existing_ref_names@,
            ),
    {
        let slug = slugify(title);
        let mut base = self.branch_prefix.clone();
        base.append(self.master_ref.branch_name());
        proof {
            reveal_strlit(".");
            assert("."@ =~= seq!['.']);
        }
        base.append(".");
        base.append(slug.as_str());
        self.find_unused_branch_name(existing_ref_names, base)
    }

    /// The first of `base`, `base-1`, `base-2`, ... whose remote-tracking
    /// ref is not among `existing_ref_names`.
    fn find_unused_branch_name(&self, existing_ref_names: &Vec<String>, base: String) -> (r:
        String)
        ensures
            spec_is_unused_candidate(r@, base@, self.remote_name@, existing_ref_names@),
    {
        let mut pool: Vec<String> = Vec::new();
        let n = existing_ref_names.len();
        let mut i: usize = 0;
        while i < n
            invariant
                n == existing_ref_names@.len(),
                i <= n,
                pool@.len() == i,
                forall|j: int| 0 <= j < i ==> #[trigger] pool@[j]@ == existing_ref_names@[j]@,
            decreases n - i,
        {
            pool.push(existing_ref_names[i].clone());
            i = i + 1;
        }
        let ghost existing0 = existing_ref_names@;
        proof {
            assert forall|x: Seq<char>| spec_name_listed(pool@, x) == spec_name_listed(
                existing0,
                x,
            ) by {
                if spec_name_listed(pool@, x) {
                    let j = choose|j: int| 0 <= j < pool@.len() && #[trigger] pool@[j]@ == x;
                    assert(existing0[j]@ == x);
                }
                if spec_name_listed(existing0, x) {
                    let j = choose|j: int|
                        0 <= j < existing0.len() && #[trigger] existing0[j]@ == x;
                    assert(pool@[j]@ == x);
                }
            }
        }
        let mut k: u64 = 0;
        loop
            invariant
                existing0 == existing_ref_names@,
                n == existing0.len(),
                pool@.len() <= n,
                k as int <= n - pool@.len(),
                forall|j: nat|
                    j < k as nat ==> spec_name_listed(
                        existing0,
                        spec_remote_ref(self.remote_name@, spec_candidate(base@, j)),
                    ),
                forall|x: Seq<char>|
                    (forall|j: nat|
                        j < k as nat ==> x != spec_remote_ref(
                            self.remote_name@,
                            spec_candidate(base@, j),
                        )) ==> #[trigger] spec_name_listed(pool@, x) == spec_name_listed(
                        existing0,
                        x,
                    ),
            decreases pool@.len(),
        {
            let name = candidate_name(&base, k);
            let refname = remote_ref_name(&self.remote_name, &name);
            let found = index_of_name(&pool, &refname);
            match found {
                None => {
                    proof {
                        assert forall|j: nat| j < k as nat implies refname@ != spec_remote_ref(
                            self.remote_name@,
                            spec_candidate(base@, j),
                        ) by {
                            lemma_candidate_injective(base@, k as nat, j);
                            lemma_remote_ref_injective(
                                self.remote_name@,
                                spec_candidate(base@, k as nat),
                                spec_candidate(base@, j),
                            );
                        }
                        assert(spec_name_listed(pool@, refname@) == spec_name_listed(
                            existing0,
                            refname@,
                        ));
                        assert(spec_is_unused_candidate(
                            name@,
                            base@,
                            self.remote_name@,
                            existing0,
                        ));
                    }
                    return name;
                },
                Some(idx) => {
                    let ghost prevpool = pool@;
                    pool.remove(idx);
                    proof {
                        assert forall|j: nat| j < k as nat implies refname@ != spec_remote_ref(
                            self.remote_name@,
                            spec_candidate(base@, j),
                        ) by {
                            lemma_candidate_injective(base@, k as nat, j);
                            lemma_remote_ref_injective(
                                self.remote_name@,
                                spec_candidate(base@, k as nat),
                                spec_candidate(base@, j),
                            );
                        }
                        assert(spec_name_listed(prevpool, refname@));
                        assert(spec_name_listed(existing0, refname@));
                        assert forall|x: Seq<char>|
                            (forall|j: nat|
                                j < (k + 1) as nat ==> x != spec_remote_ref(
                                    self.remote_name@,
                                    spec_candidate(base@, j),
                                )) implies #[trigger] spec_name_listed(pool@, x)
                            == spec_name_listed(existing0, x) by {
                            assert(x != refname@);
                            lemma_listed_after_remove(prevpool, idx as int, x);
                            assert(spec_name_listed(prevpool, x) == spec_name_listed(
                                existing0,
                                x,
                            ));
                        }
                    }
                    k = k + 1;
                },
            }
        }
    }
}

/// The k-th candidate, as a string.
fn candidate_name(base: &String, k: u64) -> (r: String)
    ensures
        r@ == spec_candidate(base@, k as nat),
{
    if k == 0 {
        base.clone()
    } else {
        let mut s = base.clone();
        proof {
            reveal_strlit("-");
            assert("-"@ =~= seq!['-']);
        }
        s.append("-");
        let digits = format_u64(k);
        s.append(digits.as_str());
        proof {
            assert(s@ =~= spec_candidate(base@, k as nat));
        }
        s
    }
}

/// The remote-tracking ref of a branch name, as a string.
fn remote_ref_name(remote: &String, name: &String) -> (r: String)
    ensures
        r@ == spec_remote_ref(remote@, name@),
{
    proof {
        reveal_strlit("refs/remotes/");
        reveal_strlit("/");
        assert("/"@ =~= seq!['/']);
    }
    let mut s = String::from_str("refs/remotes/");
    s.append(remote.as_str());
    s.append("/");
    s.append(name.as_str());
    proof {
        assert(s@ =~= spec_remote_ref(remote@, name@));
    }
    s
}

/// The position of `name` among `names`, if it occurs.
fn index_of_name(names: &Vec<String>, name: &String) -> (r: Option<usize>)
    ensures
        match r {
            Some(i) => i < names@.len() && names@[i as int]@ == name@,
            None => !spec_name_listed(names@, name@),
        },
{
    let n = names.len();
    let mut i: usize = 0;
    while i < n
        invariant
            n == names@.len(),
            i <= n,
            forall|j: int| 0 <= j < i ==> #[trigger] names@[j]@ != name@,
        decreases n - i,
    {
        if str_eq(names[i].as_str(), name.as_str()) {
            return Some(i);
        }
        i = i + 1;
    }
    None
}

/// Different candidate indices give different names.
proof fn lemma_candidate_injective(base: Seq<char>, i: nat, j: nat)
    requires
        i != j,
    ensures
        spec_candidate(base, i) != spec_candidate(base, j),
{
    crate::utils::lemma_decimal_digits_val(i);
    crate::utils::lemma_decimal_digits_val(j);
    if i == 0 || j == 0 {
        assert(spec_candidate(base, i).len() != spec_candidate(base, j).len());
    } else {
        if spec_candidate(base, i) == spec_candidate(base, j) {
            assert(spec_candidate(base, i).skip(base.len() as int + 1) =~= decimal_digits(i));
            assert(spec_candidate(base, j).skip(base.len() as int + 1) =~= decimal_digits(j));
            crate::utils::lemma_decimal_digits_injective(i, j);
        }
    }
}

/// Different branch names give different remote-tracking refs.
proof fn lemma_remote_ref_injective(remote: Seq<char>, a: Seq<char>, b: Seq<char>)
    requires
        a != b,
    ensures
        spec_remote_ref(remote, a) != spec_remote_ref(remote, b),
{
    let p = "refs/remotes/"@.len() as int + remote.len() as int + 1;
    if spec_remote_ref(remote, a) == spec_remote_ref(remote, b) {
        assert(spec_remote_ref(remote, a).skip(p) =~= a);
        assert(spec_remote_ref(remote, b).skip(p) =~= b);
    }
}

/// Removing an entry that is not `x` does not change whether `x` is listed.
proof fn lemma_listed_after_remove(names: Seq<String>, idx: int, x: Seq<char>)
    requires
        0 <= idx < names.len(),
        names[idx]@ != x,
    ensures
        spec_name_listed(names.remove(idx), x) == spec_name_listed(names, x),
{
    let removed = names.remove(idx);
    if spec_name_listed(removed, x) {
        let i = choose|i: int| 0 <= i < removed.len() && #[trigger] removed[i]@ == x;
        if i < idx {
            assert(names[i]@ == x);
        } else {
            assert(names[i + 1]@ == x);
        }
    }
    if spec_name_listed(names, x) {
        let i = choose|i: int| 0 <= i < names.len() && #[trigger] names[i]@ == x;
        if i < idx {
            assert(removed[i]@ == x);
        } else {
            assert(i > idx);
            assert(removed[i - 1]@ == x);
        }
    }
}

/// The remote-tracking ref of a branch name.
pub open spec fn spec_remote_ref(remote: Seq<char>, branch: Seq<char>) -> Seq<char> {
    "refs/remotes/"@ + remote + seq!['/'] + branch
}

/// The k-th candidate branch name over `base`.
pub open spec fn spec_candidate(base: Seq<char>, k: nat) -> Seq<char> {
    if k == 0 {
        base
    } else {
        base + seq!['-'] + decimal_digits(k)
    }
}

/// `name` is a candidate over `base` whose remote ref is unused, and every
/// earlier candidate's remote ref is in use.
pub open spec fn spec_is_unused_candidate(name: Seq<char>, base: Seq<char>, remote: Seq<char>,
    existing: Seq<String>) -> bool {
    exists|k: nat|
        name == spec_candidate(base, k) && !spec_name_listed(
            existing,
            spec_remote_ref(remote, spec_candidate(base, k)),
        ) && forall|j: nat|
            j < k ==> spec_name_listed(existing, spec_remote_ref(remote, spec_candidate(base, j)))
}

/// Is the given name one of the listed names?
pub open spec fn spec_name_listed(names: Seq<String>, name: Seq<char>) -> bool {
    exists|i: int| 0 <= i < names.len() && #[trigger] names[i]@ == name
}

/// The plain-number form of the request trailer: the number, optionally
/// preceded by `#`, wrapped in whitespace.
pub open spec fn spec_number_field(s: Seq<char>) -> Option<nat> {
    let t = spec_trim(s);
    let t2 = if t.len() > 0 && t[0] == '#' {
        spec_trim_front(t.drop_first())
    } else {
        t
    };
    if t2.len() > 0 && all_digits(t2) {
        Some(digits_val(t2))
    } else {
        None
    }
}

/// The address form of the request trailer: this repository's request
/// address, optionally continued by a path, query or fragment, wrapped in
/// whitespace.
pub open spec fn spec_url_field(owner: Seq<char>, repo: Seq<char>, s: Seq<char>) -> Option<nat> {
    let t = spec_trim(s);
    let u = if t.len() >= "https://"@.len() && t.take("https://"@.len() as int) == "https://"@ {
        t.skip("https://"@.len() as int)
    } else if t.len() >= "http://"@.len() && t.take("http://"@.len() as int) == "http://"@ {
        t.skip("http://"@.len() as int)
    } else {
        Seq::empty()
    };
    if u.len() == 0 && !(t.len() >= "https://"@.len() && t.take("https://"@.len() as int)
        == "https://"@) && !(t.len() >= "http://"@.len() && t.take("http://"@.len() as int)
        == "http://"@) {
        None
    } else {
        let prefix = "github.com/"@ + owner + seq!['/'] + repo + "/pull/"@;
        if u.len() >= prefix.len() && u.take(prefix.len() as int) == prefix {
            let rest = u.skip(prefix.len() as int);
            let k = spec_leading_digits(rest);
            if k > 0 && (rest.len() == k || rest[k] == '/' || rest[k] == '?' || rest[k] == '#') {
                Some(digits_val(rest.take(k)))
            } else {
                None
            }
        } else {
            None
        }
    }
}

/// What the free-form request trailer names: the plain-number form first,
/// the address form otherwise.
pub open spec fn spec_pr_field(owner: Seq<char>, repo: Seq<char>, s: Seq<char>) -> Option<nat> {
    match spec_number_field(s) {
        Some(v) => Some(v),
        None => spec_url_field(owner, repo, s),
    }
}

/// Trimming is idempotent at the back of an already-trimmed text.
proof fn lemma_trim_of_trim(s: Seq<char>)
    ensures
        spec_trim_back(spec_trim(s)) == spec_trim(s),
        spec_trim_front(spec_trim(s)) == spec_trim(s),
{
    lemma_trim_back_fixed(spec_trim_front(s));
    lemma_trim_front_after_back(s);
    assert(spec_trim(s) == spec_trim_back(spec_trim_front(s)));
}

/// Trimming the back twice is the same as once.
proof fn lemma_trim_back_fixed(s: Seq<char>)
    ensures
        spec_trim_back(spec_trim_back(s)) == spec_trim_back(s),
    decreases s.len(),
{
    if s.len() > 0 && crate::utils::spec_is_space(s.last()) {
        lemma_trim_back_fixed(s.drop_last());
    }
}

/// A text with no space in front keeps its front when the back is trimmed.
proof fn lemma_trim_front_after_back(s: Seq<char>)
    ensures
        spec_trim_front(spec_trim_back(spec_trim_front(s))) == spec_trim_back(
            spec_trim_front(s),
        ),
{
    lemma_trim_front_no_space(s);
    lemma_trim_front_of_unspaced(spec_trim_back(spec_trim_front(s)), spec_trim_front(s));
}

/// The front-trimmed text starts with no space.
proof fn lemma_trim_front_no_space(s: Seq<char>)
    ensures
        spec_trim_front(s).len() > 0 ==> !crate::utils::spec_is_space(spec_trim_front(s)[0]),
    decreases s.len(),
{
    if s.len() > 0 && crate::utils::spec_is_space(s[0]) {
        lemma_trim_front_no_space(s.drop_first());
    }
}

/// Back-trimming keeps a spaceless front, so front-trimming does nothing.
proof fn lemma_trim_front_of_unspaced(t: Seq<char>, orig: Seq<char>)
    requires
        orig.len() > 0 ==> !crate::utils::spec_is_space(orig[0]),
        t == spec_trim_back(orig) || t == orig,
    ensures
        spec_trim_front(t) == t,
    decreases orig.len(),
{
    if t.len() > 0 {
        lemma_trim_back_prefix(orig);
        if crate::utils::spec_is_space(t[0]) {
            assert(t[0] == orig[0]);
        }
    }
}

/// The back-trimmed text is a prefix of the original.
proof fn lemma_trim_back_prefix(s: Seq<char>)
    ensures
        spec_trim_back(s).len() <= s.len(),
        forall|i: int| 0 <= i < spec_trim_back(s).len() ==> #[trigger] spec_trim_back(s)[i] == s[i],
    decreases s.len(),
{
    if s.len() > 0 && crate::utils::spec_is_space(s.last()) {
        lemma_trim_back_prefix(s.drop_last());
    }
}

/// Where an authentication token was found.
#[derive(Debug, Clone)]
pub enum AuthTokenSource {
    /// Set in the configuration.
    Config(String),
    /// Handed out by the review host's own command-line client.
    GitHubCLI(String),
}

impl AuthTokenSource {
    pub fn token(&self) -> (r: &String)
        ensures
            (match self {
                AuthTokenSource::Config(t) => r == t,
                AuthTokenSource::GitHubCLI(t) => r == t,
            }),
    {
        match self {
            AuthTokenSource::Config(token) => token,
            AuthTokenSource::GitHubCLI(token) => token,
        }
    }
}

/// The position of the first `c` at or after `i`.
pub open spec fn spec_index_of(s: Seq<char>, c: char, i: int) -> Option<int>
    decreases s.len() - i,
{
    if i < 0 || i >= s.len() {
        None
    } else if s[i] == c {
        Some(i)
    } else {
        spec_index_of(s, c, i + 1)
    }
}

/// See `spec_index_of`, from the start.
fn index_of_char(s: &str, c: char) -> (r: Option<usize>)
    ensures
        match r {
            Some(i) => i < s@.len() && s@[i as int] == c && spec_index_of(s@, c, 0) == Some(
                i as int,
            ),
            None => spec_index_of(s@, c, 0) is None,
        },
{
    let n = s.unicode_len();
    let mut i: usize = 0;
    while i < n
        invariant
            n == s@.len(),
            i <= n,
            spec_index_of(s@, c, 0) == spec_index_of(s@, c, i as int),
        decreases n - i,
    {
        if s.get_char(i) == c {
            return Some(i);
        }
        i = i + 1;
    }
    None
}

/// The configured value for a key: the jj setting wins; the git setting
/// stands in where jj has none.
pub fn value_from_jj(jj_value: Option<String>, git_value: Option<String>) -> (r: Result<
    String,
    Error,
>)
    ensures
        match r {
            Ok(v) => {
                ||| jj_value matches Some(x) && v == x
                ||| {
                    &&& jj_value is None
                    &&& git_value matches Some(x) && v == x
                }
            },
            Err(e) => jj_value is None && git_value is None && e.spec_kind()
                == ErrorKind::BackendError,
        },
{
    match jj_value {
        Some(v) => Ok(v),
        None => match git_value {
            Some(v) => Ok(v),
            None => Err(Error::new("The setting is neither in the jj nor the git config")),
        },
    }
}

/// Which remote serves the review host: the configured name; else, with
/// several remotes, the remote the trunk alias names; with exactly one,
/// that one's name (the first word of its listing line).
pub fn remote_from_jj(trunk_alias: &str, configured: Option<String>, remotes: &Vec<String>) -> (r:
    Result<String, Error>)
    ensures
        match r {
            Ok(v) => {
                ||| configured matches Some(x) && v == x
                ||| {
                    &&& configured is None
                    &&& remotes@.len() > 1
                    &&& spec_index_of(trunk_alias@, '@', 0) matches Some(i) && spec_index_of(
                        trunk_alias@,
                        '@',
                        i + 1,
                    ) is None && v@ == trunk_alias@.skip(i + 1)
                }
                ||| {
                    &&& configured is None
                    &&& remotes@.len() == 1
                    &&& v@ == (match spec_index_of(remotes@[0]@, ' ', 0) {
                        Some(j) => remotes@[0]@.take(j),
                        None => remotes@[0]@,
                    })
                }
            },
            Err(e) => {
                &&& configured is None
                &&& e.spec_kind() == ErrorKind::BackendError
                &&& {
                    ||| remotes@.len() == 0
                    ||| {
                        &&& remotes@.len() > 1
                        &&& {
                            ||| spec_index_of(trunk_alias@, '@', 0) is None
                            ||| spec_index_of(trunk_alias@, '@', 0) matches Some(i)
                                && spec_index_of(trunk_alias@, '@', i + 1) is Some
                        }
                    }
                }
            },
        },
{
    match configured {
        Some(v) => Ok(v),
        None => {
            if remotes.len() > 1 {
                let first_at = index_of_char(trunk_alias, '@');
                match first_at {
                    Some(i) => {
                        let n = trunk_alias.unicode_len();
                        let tail = trunk_alias.substring_char(i + 1, n);
                        proof {
                            assert(tail@ =~= trunk_alias@.skip(i as int + 1));
                        }
                        let second_at = index_of_char(tail, '@');
                        match second_at {
                            Some(_) => {
                                proof {
                                    lemma_index_of_skip(trunk_alias@, '@', i as int + 1);
                                }
                                Err(
                                    Error::new(
                                        "Unexpected trunk alias; cannot guess which remote is upstream",
                                    ),
                                )
                            },
                            None => {
                                proof {
                                    lemma_index_of_skip(trunk_alias@, '@', i as int + 1);
                                }
                                Ok(tail.to_owned())
                            },
                        }
                    },
                    None => Err(
                        Error::new(
                            "Unexpected trunk alias; cannot guess which remote is upstream",
                        ),
                    ),
                }
            } else if remotes.len() == 1 {
                let line = &remotes[0];
                let space = index_of_char(line.as_str(), ' ');
                match space {
                    Some(j) => {
                        let name = line.as_str().substring_char(0, j);
                        proof {
                            lemma_index_of_bound(line@, ' ', 0);
                            assert(name@ =~= line@.take(j as int));
                        }
                        Ok(name.to_owned())
                    },
                    None => Ok(line.clone()),
                }
            } else {
                Err(Error::new("Cannot guess the remote; there is none"))
            }
        },
    }
}

/// The trunk branch name: the configured one; else the branch part of the
/// trunk alias, before its `@` if it has one.
pub fn default_branch_from_jj(trunk_alias: &str, configured: Option<String>) -> (r: Result<
    String,
    Error,
>)
    ensures
        match r {
            Ok(v) => {
                ||| configured matches Some(x) && v == x
                ||| {
                    &&& configured is None
                    &&& v@ == (match spec_index_of(trunk_alias@, '@', 0) {
                        Some(i) => trunk_alias@.take(i),
                        None => trunk_alias@,
                    })
                    &&& spec_index_of(trunk_alias@, '@', 0) matches Some(i) ==> spec_index_of(
                        trunk_alias@,
                        '@',
                        i + 1,
                    ) is None
                }
            },
            Err(e) => {
                &&& configured is None
                &&& e.spec_kind() == ErrorKind::BackendError
                &&& spec_index_of(trunk_alias@, '@', 0) matches Some(i) && spec_index_of(
                    trunk_alias@,
                    '@',
                    i + 1,
                ) is Some
            },
        },
{
    match configured {
        Some(v) => Ok(v),
        None => {
            let first_at = index_of_char(trunk_alias, '@');
            match first_at {
                Some(i) => {
                    let n = trunk_alias.unicode_len();
                    let tail = trunk_alias.substring_char(i + 1, n);
                    proof {
                        assert(tail@ =~= trunk_alias@.skip(i as int + 1));
                        lemma_index_of_bound(trunk_alias@, '@', 0);
                    }
                    let second_at = index_of_char(tail, '@');
                    match second_at {
                        Some(_) => {
                            proof {
                                lemma_index_of_skip(trunk_alias@, '@', i as int + 1);
                            }
                            Err(
                                Error::new(
                                    "Unexpected trunk alias; cannot guess which branch is upstream",
                                ),
                            )
                        },
                        None => {
                            proof {
                                lemma_index_of_skip(trunk_alias@, '@', i as int + 1);
                            }
                            let name = trunk_alias.substring_char(0, i);
                            proof {
                                assert(name@ =~= trunk_alias@.take(i as int));
                            }
                            Ok(name.to_owned())
                        },
                    }
                },
                None => Ok(trunk_alias.to_owned()),
            }
        },
    }
}

/// `spec_index_of` on a suffix mirrors the search after that point.
proof fn lemma_index_of_skip(s: Seq<char>, c: char, a: int)
    requires
        0 <= a <= s.len(),
    ensures
        match spec_index_of(s.skip(a), c, 0) {
            Some(j) => spec_index_of(s, c, a) == Some(a + j),
            None => spec_index_of(s, c, a) is None,
        },
    decreases s.len() - a,
{
    if a < s.len() {
        assert(s.skip(a)[0] == s[a]);
        if s[a] == c {
        } else {
            assert(s.skip(a).drop_first() =~= s.skip(a + 1));
            lemma_index_of_skip(s, c, a + 1);
            lemma_index_of_step(s.skip(a), c);
        }
    } else {
        assert(s.skip(a) =~= Seq::<char>::empty());
    }
}

/// One unfolding step of the search on a non-matching head.
proof fn lemma_index_of_step(s: Seq<char>, c: char)
    requires
        s.len() > 0,
        s[0] != c,
    ensures
        match spec_index_of(s.drop_first(), c, 0) {
            Some(j) => spec_index_of(s, c, 0) == Some(1 + j),
            None => spec_index_of(s, c, 0) is None,
        },
{
    lemma_index_of_shift(s, c, 1);
}

/// Searching `s` from `a` is searching its suffix from the start, shifted.
proof fn lemma_index_of_shift(s: Seq<char>, c: char, a: int)
    requires
        0 <= a <= s.len(),
    ensures
        match spec_index_of(s.skip(a), c, 0) {
            Some(j) => spec_index_of(s, c, a) == Some(a + j),
            None => spec_index_of(s, c, a) is None,
        },
    decreases s.len() - a,
{
    if a < s.len() {
        assert(s.skip(a)[0] == s[a]);
        if s[a] != c {
            assert(s.skip(a).drop_first() =~= s.skip(a + 1));
            lemma_index_of_shift(s, c, a + 1);
            lemma_index_of_suffix_unfold(s.skip(a), c);
        }
    } else {
        assert(s.skip(a) =~= Seq::<char>::empty());
    }
}

/// Unfolds the search on a suffix whose head does not match.
proof fn lemma_index_of_suffix_unfold(t: Seq<char>, c: char)
    requires
        t.len() > 0,
        t[0] != c,
    ensures
        match spec_index_of(t.drop_first(), c, 0) {
            Some(j) => spec_index_of(t, c, 0) == Some(1 + j),
            None => spec_index_of(t, c, 0) is None,
        },
    decreases t.len(),
{
    lemma_index_of_rebase(t, c, 1);
}

/// Searching from position 1 of `t` is searching `t.drop_first()` from 0.
proof fn lemma_index_of_rebase(t: Seq<char>, c: char, a: int)
    requires
        1 <= a <= t.len(),
    ensures
        match spec_index_of(t.drop_first(), c, a - 1) {
            Some(j) => spec_index_of(t, c, a) == Some(1 + j),
            None => spec_index_of(t, c, a) is None,
        },
    decreases t.len() - a,
{
    if a < t.len() {
        assert(t.drop_first()[a - 1] == t[a]);
        if t[a] != c {
            lemma_index_of_rebase(t, c, a + 1);
        }
    }
}

/// A found position lies within the text.
proof fn lemma_index_of_bound(s: Seq<char>, c: char, i: int)
    requires
        0 <= i,
    ensures
        spec_index_of(s, c, i) matches Some(j) ==> i <= j < s.len() && s[j] == c,
    decreases s.len() - i,
{
    if i < s.len() && s[i] != c {
        lemma_index_of_bound(s, c, i + 1);
    }
}

/// The first position at or after `i` where `pat` occurs.
pub open spec fn spec_find_sub(s: Seq<char>, pat: Seq<char>, i: int) -> Option<int>
    recommends
        pat.len() > 0,
    decreases s.len() - i,
{
    if i < 0 || pat.len() == 0 || i + pat.len() > s.len() {
        None
    } else if s.subrange(i, i + pat.len()) == pat {
        Some(i)
    } else {
        spec_find_sub(s, pat, i + 1)
    }
}

/// See `spec_find_sub`, from the start.
fn find_sub(s: &str, pat: &str) -> (r: Option<usize>)
    ensures
        match r {
            Some(i) => i + pat@.len() <= s@.len() && spec_find_sub(s@, pat@, 0) == Some(i as int),
            None => spec_find_sub(s@, pat@, 0) is None,
        },
{
    let n = s.unicode_len();
    let p = pat.unicode_len();
    if p > n || p == 0 {
        return None;
    }
    let mut i: usize = 0;
    while i <= n - p
        invariant
            n == s@.len(),
            p == pat@.len(),
            0 < p <= n,
            i <= n - p + 1,
            spec_find_sub(s@, pat@, 0) == spec_find_sub(s@, pat@, i as int),
        decreases n - p + 1 - i,
    {
        let piece = s.substring_char(i, i + p);
        if str_eq(piece, pat) {
            return Some(i);
        }
        i = i + 1;
    }
    None
}

/// The `owner/repo` path inside a remote's address: what follows
/// `github.com` and its separator, with a trailing `.git` taken off first.
pub open spec fn spec_repo_with_owner(remote_info: Seq<char>) -> Option<Seq<char>> {
    let base = if remote_info.len() >= 4 && remote_info.skip(remote_info.len() - 4) == ".git"@ {
        remote_info.take(remote_info.len() - 4)
    } else {
        remote_info
    };
    match spec_find_sub(base, "github.com"@, 0) {
        Some(i) => if i + 11 <= base.len() {
            Some(base.skip(i + 11))
        } else {
            None
        },
        None => None,
    }
}

/// The first two `/`-separated pieces of a path, when both are non-empty.
pub open spec fn spec_owner_repo_split(path: Seq<char>) -> Option<(Seq<char>, Seq<char>)> {
    let owner = match spec_index_of(path, '/', 0) {
        Some(j) => path.take(j),
        None => path,
    };
    let rest = match spec_index_of(path, '/', 0) {
        Some(j) => path.skip(j + 1),
        None => Seq::empty(),
    };
    let repo = match spec_index_of(rest, '/', 0) {
        Some(j) => rest.take(j),
        None => rest,
    };
    if owner.len() > 0 && repo.len() > 0 {
        Some((owner, repo))
    } else {
        None
    }
}

/// The repository and its owner, as `(repo, owner)`: from the configured
/// `owner/repo` setting, or read out of the remote's address.
pub fn repo_and_owner_from_jj(remote_info: &str, configured: Option<String>) -> (r: Result<
    (String, String),
    Error,
>)
    ensures
        ({
            let path = match configured {
                Some(x) => Some(x@),
                None => spec_repo_with_owner(remote_info@),
            };
            match r {
                Ok((repo, owner)) => path matches Some(p) && spec_owner_repo_split(p) matches Some(
                    pair,
                ) && owner@ == pair.0 && repo@ == pair.1,
                Err(e) => e.spec_kind() == ErrorKind::BackendError && (path is None || (path
                    matches Some(p) && spec_owner_repo_split(p) is None)),
            }
        }),
{
    let path: String = match configured {
        Some(x) => x,
        None => {
            let n = remote_info.unicode_len();
            proof {
                reveal_strlit(".git");
                reveal_strlit("github.com");
            }
            let base: &str = if n >= 4 && {
                let tail = remote_info.substring_char(n - 4, n);
                str_eq(tail, ".git")
            } {
                let b = remote_info.substring_char(0, n - 4);
                proof {
                    assert(remote_info@.subrange(n as int - 4, n as int) =~= remote_info@.skip(
                        remote_info@.len() - 4,
                    ));
                    assert(b@ =~= remote_info@.take(remote_info@.len() - 4));
                }
                b
            } else {
                proof {
                    assert(remote_info@.len() >= 4 ==> remote_info@.subrange(
                        n as int - 4,
                        n as int,
                    ) =~= remote_info@.skip(remote_info@.len() - 4));
                }
                remote_info
            };
            let found = find_sub(base, "github.com");
            match found {
                Some(i) => {
                    let m = base.unicode_len();
                    if m - i >= 11 {
                        let p = base.substring_char(i + 11, m);
                        proof {
                            assert(p@ =~= base@.skip(i as int + 11));
                        }
                        p.to_owned()
                    } else {
                        return Err(
                            Error::new("The remote's address ends right at its host name"),
                        );
                    }
                },
                None => {
                    return Err(Error::new("The remote's address does not name github.com"));
                },
            }
        },
    };
    let ps = path.as_str();
    let first = index_of_char(ps, '/');
    let n = ps.unicode_len();
    let (owner, rest): (String, String) = match first {
        Some(j) => {
            let o = ps.substring_char(0, j);
            let rtail = ps.substring_char(j + 1, n);
            proof {
                assert(o@ =~= path@.take(j as int));
                assert(rtail@ =~= path@.skip(j as int + 1));
            }
            (o.to_owned(), rtail.to_owned())
        },
        None => {
            let r0 = String::new();
            proof {
                assert(r0@ =~= Seq::<char>::empty());
            }
            (path.clone(), r0)
        },
    };
    let second = index_of_char(rest.as_str(), '/');
    let repo: String = match second {
        Some(j) => {
            let piece = rest.as_str().substring_char(0, j);
            proof {
                assert(piece@ =~= rest@.take(j as int));
            }
            piece.to_owned()
        },
        None => rest.clone(),
    };
    if owner.as_str().unicode_len() > 0 && repo.as_str().unicode_len() > 0 {
        Ok((repo, owner))
    } else {
        Err(Error::new("Unexpected text where owner and repository were expected"))
    }
}

/// Does `pat` occur in `s` starting at `i`?
pub open spec fn spec_contains_at(s: Seq<char>, pat: Seq<char>, i: int) -> bool {
    0 <= i && i + pat.len() <= s.len() && s.subrange(i, i + pat.len()) == pat
}

/// Does `pat` occur anywhere in `s`?
pub open spec fn spec_contains(s: Seq<char>, pat: Seq<char>) -> bool {
    exists|i: int| spec_contains_at(s, pat, i)
}

/// See `spec_contains`.
fn contains_sub(s: &str, pat: &str) -> (r: bool)
    ensures
        r == spec_contains(s@, pat@),
{
    let n = s.unicode_len();
    let p = pat.unicode_len();
    if p > n {
        proof {
            assert forall|i: int| !spec_contains_at(s@, pat@, i) by {}
        }
        return false;
    }
    if p == 0 {
        proof {
            assert(s@.subrange(0, 0) =~= pat@);
            assert(spec_contains_at(s@, pat@, 0));
        }
        return true;
    }
    let mut i: usize = 0;
    while i <= n - p
        invariant
            n == s@.len(),
            p == pat@.len(),
            0 < p <= n,
            i <= n - p + 1,
            forall|j: int| 0 <= j < i ==> !spec_contains_at(s@, pat@, j),
        decreases n - p + 1 - i,
    {
        let piece = s.substring_char(i, i + p);
        if str_eq(piece, pat) {
            proof {
                assert(spec_contains_at(s@, pat@, i as int));
            }
            return true;
        }
        i = i + 1;
    }
    proof {
        assert forall|j: int| !spec_contains_at(s@, pat@, j) by {
            if 0 <= j && j + pat@.len() <= s@.len() {
                assert(j < i);
            }
        }
    }
    false
}

/// Does `s` start with `pat`?
fn starts_with_sub(s: &str, pat: &str) -> (r: bool)
    ensures
        r == (s@.len() >= pat@.len() && s@.take(pat@.len() as int) == pat@),
{
    let n = s.unicode_len();
    let p = pat.unicode_len();
    if p > n {
        return false;
    }
    let piece = s.substring_char(0, p);
    proof {
        assert(s@.subrange(0, p as int) =~= s@.take(p as int));
    }
    str_eq(piece, pat)
}

/// Does `s` end with `pat`?
fn ends_with_sub(s: &str, pat: &str) -> (r: bool)
    ensures
        r == (s@.len() >= pat@.len() && s@.skip(s@.len() - pat@.len()) == pat@),
{
    let n = s.unicode_len();
    let p = pat.unicode_len();
    if p > n {
        return false;
    }
    let piece = s.substring_char(n - p, n);
    proof {
        assert(s@.subrange(n as int - p as int, n as int) =~= s@.skip(s@.len() - pat@.len()));
    }
    str_eq(piece, pat)
}

/// A character git forbids in a ref name.
pub open spec fn spec_forbidden_ref_char(c: char) -> bool {
    c == ' ' || c == '~' || c == '^' || c == ':' || c == '?' || c == '*' || c == '[' || c == '\\'
}

/// An ASCII control character.
pub open spec fn spec_control_char(c: char) -> bool {
    (c as int) < 32 || (c as int) == 127
}

/// Why a branch prefix cannot be used, if it cannot: the rules a git ref
/// name must obey, applied to a prefix that larger names are built from.
pub open spec fn spec_prefix_rejected(s: Seq<char>) -> bool {
    ||| spec_contains(s, "/."@)
    ||| spec_contains(s, ".lock/"@)
    ||| (s.len() >= ".lock"@.len() && s.skip(s.len() - ".lock"@.len()) == ".lock"@)
    ||| (s.len() >= 1 && s[0] == '.')
    ||| spec_contains(s, ".."@)
    ||| (exists|i: int| 0 <= i < s.len() && spec_control_char(#[trigger] s[i]))
    ||| (exists|i: int| 0 <= i < s.len() && spec_forbidden_ref_char(#[trigger] s[i]))
    ||| spec_contains(s, "//"@)
    ||| (s.len() >= 1 && s[0] == '/')
    ||| spec_contains(s, "@{"@)
}

/// Refuses a branch prefix that would make an illegal git ref name.
pub fn validate_branch_prefix(branch_prefix: &str) -> (r: Result<(), Error>)
    ensures
        match r {
            Ok(()) => !spec_prefix_rejected(branch_prefix@),
            Err(e) => spec_prefix_rejected(branch_prefix@) && e.spec_kind()
                == ErrorKind::ValidationFailure,
        },
{
    proof {
        reveal_strlit("/.");
        reveal_strlit(".lock/");
        reveal_strlit(".lock");
        reveal_strlit(".");
        reveal_strlit("..");
        reveal_strlit("//");
        reveal_strlit("/");
        reveal_strlit("@{");
    }
    let n0 = branch_prefix.unicode_len();
    let starts_dot = n0 >= 1 && branch_prefix.get_char(0) == '.';
    if contains_sub(branch_prefix, "/.") || contains_sub(branch_prefix, ".lock/")
        || ends_with_sub(branch_prefix, ".lock") || starts_dot {
        return Err(
            Error::with_kind(
                ErrorKind::ValidationFailure,
                "Branch prefix cannot have a component beginning with a dot or ending in .lock",
            ),
        );
    }
    if contains_sub(branch_prefix, "..") {
        return Err(
            Error::with_kind(
                ErrorKind::ValidationFailure,
                "Branch prefix cannot contain two consecutive dots anywhere",
            ),
        );
    }
    let n = branch_prefix.unicode_len();
    let mut i: usize = 0;
    while i < n
        invariant
            n == branch_prefix@.len(),
            i <= n,
            forall|j: int|
                0 <= j < i ==> !spec_control_char(#[trigger] branch_prefix@[j])
                    && !spec_forbidden_ref_char(branch_prefix@[j]),
        decreases n - i,
    {
        let c = branch_prefix.get_char(i);
        let u: u32 = c as u32;
        if u < 32 || u == 127 {
            return Err(
                Error::with_kind(
                    ErrorKind::ValidationFailure,
                    "Branch prefix cannot contain an ASCII control character",
                ),
            );
        }
        if c == ' ' || c == '~' || c == '^' || c == ':' || c == '?' || c == '*' || c == '['
            || c == '\\' {
            return Err(
                Error::with_kind(
                    ErrorKind::ValidationFailure,
                    "Branch prefix contains one or more forbidden characters",
                ),
            );
        }
        i = i + 1;
    }
    let starts_slash = n0 >= 1 && branch_prefix.get_char(0) == '/';
    if contains_sub(branch_prefix, "//") || starts_slash {
        return Err(
            Error::with_kind(
                ErrorKind::ValidationFailure,
                "Branch prefix contains consecutive slashes or starts with a slash",
            ),
        );
    }
    if contains_sub(branch_prefix, "@{") {
        return Err(
            Error::with_kind(
                ErrorKind::ValidationFailure,
                "Branch prefix cannot contain the ref-log selector",
            ),
        );
    }
    Ok(())
}

} // verus!
