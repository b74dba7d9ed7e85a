//! Small text helpers: decimal rendering and parsing of numbers, and the
//! slug that turns a commit title into a branch-name component.

use vstd::prelude::*;

verus! {

/// The character for one decimal digit.
pub open spec fn digit_char(d: nat) -> char
    recommends
        d < 10,
{
    if d == 0 {
        '0'
    } else if d == 1 {
        '1'
    } else if d == 2 {
        '2'
    } else if d == 3 {
        '3'
    } else if d == 4 {
        '4'
    } else if d == 5 {
        '5'
    } else if d == 6 {
        '6'
    } else if d == 7 {
        '7'
    } else if d == 8 {
        '8'
    } else {
        '9'
    }
}

/// The decimal rendering of a number, most significant digit first, without
/// leading zeroes (`0` renders as "0").
pub open spec fn decimal_digits(n: nat) -> Seq<char>
    decreases n,
{
    if n < 10 {
        seq![digit_char(n)]
    } else {
        decimal_digits(n / 10).push(digit_char(n % 10))
    }
}

pub open spec fn is_digit(c: char) -> bool {
    '0' <= c <= '9'
}

/// The numeric value of a digit character.
pub open spec fn digit_val(c: char) -> nat
    recommends
        is_digit(c),
{
    if is_digit(c) {
        ((c as int) - ('0' as int)) as nat
    } else {
        0
    }
}

/// The value of a digit string, read left to right.
pub open spec fn digits_val(s: Seq<char>) -> nat
    decreases s.len(),
{
    if s.len() == 0 {
        0
    } else {
        digits_val(s.drop_last()) * 10 + digit_val(s.last())
    }
}

pub open spec fn all_digits(s: Seq<char>) -> bool {
    forall|i: int| 0 <= i < s.len() ==> is_digit(#[trigger] s[i])
}

/// Reading back the decimal rendering gives the number again.
pub proof fn lemma_decimal_digits_val(n: nat)
    ensures
        digits_val(decimal_digits(n)) == n,
        decimal_digits(n).len() >= 1,
        all_digits(decimal_digits(n)),
    decreases n,
{
    if n < 10 {
        lemma_digit_char_val(n);
        assert(decimal_digits(n) =~= seq![digit_char(n)]);
        assert(decimal_digits(n).drop_last() =~= Seq::<char>::empty());
        assert(digits_val(Seq::<char>::empty()) == 0);
    } else {
        lemma_decimal_digits_val(n / 10);
        lemma_digit_char_val(n % 10);
        let s = decimal_digits(n);
        assert(s.drop_last() =~= decimal_digits(n / 10));
        assert forall|i: int| 0 <= i < s.len() implies is_digit(#[trigger] s[i]) by {
            if i < s.len() - 1 {
                assert(s[i] == decimal_digits(n / 10)[i]);
            }
        }
    }
}

/// A digit character reads back as its digit.
pub proof fn lemma_digit_char_val(d: nat)
    requires
        d < 10,
    ensures
        is_digit(digit_char(d)),
        digit_val(digit_char(d)) == d,
{
}

/// Two numbers with the same decimal rendering are the same number.
pub proof fn lemma_decimal_digits_injective(a: nat, b: nat)
    requires
        decimal_digits(a) == decimal_digits(b),
    ensures
        a == b,
{
    lemma_decimal_digits_val(a);
    lemma_decimal_digits_val(b);
}

/// See `decimal_digits`.
pub fn format_u64(n: u64) -> (s: String)
    ensures
        s@ == decimal_digits(n as nat),
    decreases n,
{
    let d = n % 10;
    let digit: &'static str = digit_str(d);
    if n < 10 {
        let s = String::from_str(digit);
        proof {
            assert(s@ =~= decimal_digits(n as nat));
        }
        s
    } else {
        let mut s = format_u64(n / 10);
        s.append(digit);
        proof {
            assert(s@ =~= decimal_digits(n as nat));
        }
        s
    }
}

/// The one-character string for a decimal digit.
fn digit_str(d: u64) -> (r: &'static str)
    requires
        d < 10,
    ensures
        r@ == seq![digit_char(d as nat)],
{
    if d == 0 {
        proof {
            reveal_strlit("0");
            assert("0"@ =~= seq!['0']);
        }
        "0"
    } else if d == 1 {
        proof {
            reveal_strlit("1");
            assert("1"@ =~= seq!['1']);
        }
        "1"
    } else if d == 2 {
        proof {
            reveal_strlit("2");
            assert("2"@ =~= seq!['2']);
        }
        "2"
    } else if d == 3 {
        proof {
            reveal_strlit("3");
            assert("3"@ =~= seq!['3']);
        }
        "3"
    } else if d == 4 {
        proof {
            reveal_strlit("4");
            assert("4"@ =~= seq!['4']);
        }
        "4"
    } else if d == 5 {
        proof {
            reveal_strlit("5");
            assert("5"@ =~= seq!['5']);
        }
        "5"
    } else if d == 6 {
        proof {
            reveal_strlit("6");
            assert("6"@ =~= seq!['6']);
        }
        "6"
    } else if d == 7 {
        proof {
            reveal_strlit("7");
            assert("7"@ =~= seq!['7']);
        }
        "7"
    } else if d == 8 {
        proof {
            reveal_strlit("8");
            assert("8"@ =~= seq!['8']);
        }
        "8"
    } else {
        proof {
            reveal_strlit("9");
            assert("9"@ =~= seq!['9']);
        }
        "9"
    }
}

/// The value of a prefix never exceeds the value of the whole digit string.
pub proof fn lemma_digits_val_take_le(s: Seq<char>, i: int)
    requires
        0 <= i <= s.len(),
    ensures
        digits_val(s.take(i)) <= digits_val(s),
    decreases s.len() - i,
{
    if i < s.len() {
        assert(s.take(i + 1).drop_last() =~= s.take(i));
        assert(digits_val(s.take(i)) <= digits_val(s.take(i + 1)));
        lemma_digits_val_take_le(s, i + 1);
        assert(s.take(s.len() as int) =~= s);
    } else {
        assert(s.take(i) =~= s);
    }
}

/// Parses a run of decimal digits: the number when `s` is non-empty, all
/// digits, and its value fits a `u64`; `None` otherwise.
pub fn parse_u64(s: &str) -> (r: Option<u64>)
    ensures
        match r {
            Some(v) => s@.len() > 0 && all_digits(s@) && digits_val(s@) == v as nat,
            None => s@.len() == 0 || !all_digits(s@) || digits_val(s@) > u64::MAX,
        },
{
    let n = s.unicode_len();
    if n == 0 {
        return None;
    }
    let mut acc: u64 = 0;
    let mut i: usize = 0;
    while i < n
        invariant
            0 < n == s@.len(),
            i <= n,
            all_digits(s@.take(i as int)),
            acc as nat == digits_val(s@.take(i as int)),
        decreases n - i,
    {
        let c = s.get_char(i);
        if c < '0' || c > '9' {
            proof {
                assert(!is_digit(s@[i as int]));
            }
            return None;
        }
        let d: u32 = c as u32;
        let dv: u64 = (d - 48) as u64;
        proof {
            assert(dv < 10);
            assert(dv as nat == digit_val(s@[i as int]));
        }
        if acc > (u64::MAX - dv) / 10 {
            proof {
                assert(acc * 10 + dv > u64::MAX) by (nonlinear_arith)
                    requires
                        acc > (u64::MAX - dv) / 10,
                        dv < 10,
                ;
                assert(s@.take(i as int + 1).drop_last() =~= s@.take(i as int));
                assert(digits_val(s@.take(i as int + 1)) > u64::MAX);
                lemma_digits_val_take_le(s@, i as int + 1);
            }
            return None;
        }
        proof {
            assert(acc * 10 + dv <= u64::MAX) by (nonlinear_arith)
                requires
                    acc <= (u64::MAX - dv) / 10,
                    dv < 10,
            ;
        }
        let next = acc * 10 + dv;
        proof {
            assert(s@.take(i as int + 1).drop_last() =~= s@.take(i as int));
            assert(s@.take(i as int + 1).last() == s@[i as int]);
        }
        acc = next;
        i = i + 1;
    }
    proof {
        assert(s@.take(n as int) =~= s@);
    }
    Some(acc)
}

/// Character-for-character equality of two strings.
pub fn str_eq(a: &str, b: &str) -> (r: bool)
    ensures
        r == (a@ == b@),
{
    let n = a.unicode_len();
    let m = b.unicode_len();
    if n != m {
        return false;
    }
    let mut i: usize = 0;
    while i < n
        invariant
            n == a@.len(),
            n == b@.len(),
            i <= n,
            forall|j: int| 0 <= j < i ==> a@[j] == b@[j],
        decreases n - i,
    {
        let ca = a.get_char(i);
        let cb = b.get_char(i);
        if ca != cb {
            return false;
        }
        i = i + 1;
    }
    proof {
        assert(a@ =~= b@);
    }
    true
}

pub open spec fn spec_is_space(c: char) -> bool {
    c == ' ' || c == '\t' || c == '\n' || c == '\r'
}

/// `s` without leading whitespace.
pub open spec fn spec_trim_front(s: Seq<char>) -> Seq<char>
    decreases s.len(),
{
    if s.len() > 0 && spec_is_space(s[0]) {
        spec_trim_front(s.drop_first())
    } else {
        s
    }
}

/// `s` without trailing whitespace.
pub open spec fn spec_trim_back(s: Seq<char>) -> Seq<char>
    decreases s.len(),
{
    if s.len() > 0 && spec_is_space(s.last()) {
        spec_trim_back(s.drop_last())
    } else {
        s
    }
}

/// `s` without leading or trailing whitespace.
pub open spec fn spec_trim(s: Seq<char>) -> Seq<char> {
    spec_trim_back(spec_trim_front(s))
}

/// Is the character whitespace?
fn is_space(c: char) -> (r: bool)
    ensures
        r == spec_is_space(c),
{
    c == ' ' || c == '\t' || c == '\n' || c == '\r'
}

/// See `spec_trim`.
pub fn trim_str(s: &str) -> (r: String)
    ensures
        r@ == spec_trim(s@),
{
    let n = s.unicode_len();
    let mut i: usize = 0;
    proof {
        assert(s@.skip(0) =~= s@);
    }
    while i < n && is_space(s.get_char(i))
        invariant
            n == s@.len(),
            i <= n,
            spec_trim_front(s@) == spec_trim_front(s@.skip(i as int)),
        decreases n - i,
    {
        proof {
            assert(s@.skip(i as int)[0] == s@[i as int]);
            assert(s@.skip(i as int).drop_first() =~= s@.skip(i as int + 1));
        }
        i = i + 1;
    }
    proof {
        if i < n {
            assert(s@.skip(i as int)[0] == s@[i as int]);
        } else {
            assert(s@.skip(i as int) =~= Seq::<char>::empty());
        }
        assert(spec_trim_front(s@) == s@.skip(i as int));
    }
    let mut j: usize = n;
    proof {
        assert(s@.skip(i as int).take(n - i as int) =~= s@.skip(i as int));
    }
    while j > i && is_space(s.get_char(j - 1))
        invariant
            n == s@.len(),
            i <= j <= n,
            spec_trim_front(s@) == s@.skip(i as int),
            spec_trim_back(s@.skip(i as int)) == spec_trim_back(
                s@.skip(i as int).take(j - i as int),
            ),
        decreases j,
    {
        proof {
            let cur = s@.skip(i as int).take(j - i as int);
            assert(cur.last() == s@[j as int - 1]);
            assert(cur.drop_last() =~= s@.skip(i as int).take(j - 1 - i as int));
        }
        j = j - 1;
    }
    let piece = s.substring_char(i, j);
    proof {
        let cur = s@.skip(i as int).take(j - i as int);
        if j > i {
            assert(cur.last() == s@[j as int - 1]);
        }
        assert(spec_trim_back(cur) == cur);
        assert(piece@ =~= cur);
    }
    piece.to_owned()
}

/// See `spec_trim_front`.
pub fn trim_front_str(s: &str) -> (r: String)
    ensures
        r@ == spec_trim_front(s@),
{
    let n = s.unicode_len();
    let mut i: usize = 0;
    proof {
        assert(s@.skip(0) =~= s@);
    }
    while i < n && is_space(s.get_char(i))
        invariant
            n == s@.len(),
            i <= n,
            spec_trim_front(s@) == spec_trim_front(s@.skip(i as int)),
        decreases n - i,
    {
        proof {
            assert(s@.skip(i as int)[0] == s@[i as int]);
            assert(s@.skip(i as int).drop_first() =~= s@.skip(i as int + 1));
        }
        i = i + 1;
    }
    proof {
        if i < n {
            assert(s@.skip(i as int)[0] == s@[i as int]);
        } else {
            assert(s@.skip(i as int) =~= Seq::<char>::empty());
        }
        assert(spec_trim_front(s@) == s@.skip(i as int));
    }
    let piece = s.substring_char(i, n);
    proof {
        assert(piece@ =~= s@.skip(i as int));
    }
    piece.to_owned()
}

/// Is `s` a non-empty run of decimal digits?
pub fn digits_only(s: &str) -> (r: bool)
    ensures
        r == (s@.len() > 0 && all_digits(s@)),
{
    let n = s.unicode_len();
    if n == 0 {
        return false;
    }
    let mut i: usize = 0;
    while i < n
        invariant
            n == s@.len(),
            i <= n,
            forall|j: int| 0 <= j < i ==> is_digit(#[trigger] s@[j]),
        decreases n - i,
    {
        let c = s.get_char(i);
        if c < '0' || c > '9' {
            return false;
        }
        i = i + 1;
    }
    true
}

/// The count of leading decimal digits.
pub open spec fn spec_leading_digits(s: Seq<char>) -> int
    decreases s.len(),
{
    if s.len() == 0 || !is_digit(s[0]) {
        0
    } else {
        1 + spec_leading_digits(s.drop_first())
    }
}

/// The pieces of `s` between its commas, in order; no commas gives one
/// piece, and empty pieces are kept.
pub open spec fn spec_split_commas(s: Seq<char>) -> Seq<Seq<char>>
    decreases s.len(),
{
    if s.len() == 0 {
        seq![s]
    } else if s[0] == ',' {
        seq![Seq::<char>::empty()].add(spec_split_commas(s.drop_first()))
    } else {
        let rest = spec_split_commas(s.drop_first());
        seq![seq![s[0]].add(rest[0])].add(rest.drop_first())
    }
}

/// `spec_split_commas` always yields at least one piece.
pub proof fn lemma_split_commas_nonempty(s: Seq<char>)
    ensures
        spec_split_commas(s).len() >= 1,
    decreases s.len(),
{
    if s.len() > 0 {
        lemma_split_commas_nonempty(s.drop_first());
    }
}

/// The comma-separated pieces of `s`, each trimmed of whitespace.
pub fn split_commas_trimmed(s: &str) -> (r: Vec<String>)
    ensures
        r@.len() == spec_split_commas(s@).len(),
        forall|i: int|
            0 <= i < r@.len() ==> #[trigger] r@[i]@ == spec_trim(spec_split_commas(s@)[i]),
{
    let n = s.unicode_len();
    let mut done: Vec<String> = Vec::new();
    let mut cur = String::new();
    let mut i: usize = 0;
    proof {
        assert(s@.skip(0) =~= s@);
        assert(cur@ =~= Seq::<char>::empty());
        lemma_split_commas_nonempty(s@);
    }
    while i < n
        invariant
            n == s@.len(),
            i <= n,
            spec_split_commas(s@).len() == done@.len() + spec_split_commas(
                s@.skip(i as int),
            ).len(),
            spec_split_commas(s@)[done@.len() as int] == cur@.add(
                spec_split_commas(s@.skip(i as int))[0],
            ),
            forall|k: int|
                0 <= k < done@.len() ==> #[trigger] done@[k]@ == spec_trim(
                    spec_split_commas(s@)[k],
                ),
            forall|k: int|
                done@.len() < k < spec_split_commas(s@).len() ==> #[trigger] spec_split_commas(
                    s@,
                )[k] == spec_split_commas(s@.skip(i as int))[k - done@.len()],
        decreases n - i,
    {
        let ghost rest = s@.skip(i as int);
        proof {
            assert(rest[0] == s@[i as int]);
            assert(rest.drop_first() =~= s@.skip(i as int + 1));
            lemma_split_commas_nonempty(s@.skip(i as int + 1));
        }
        let c = s.get_char(i);
        if c == ',' {
            let piece = trim_str(cur.as_str());
            done.push(piece);
            cur = String::new();
            proof {
                assert(cur@ =~= Seq::<char>::empty());
                assert(spec_split_commas(rest) == seq![Seq::<char>::empty()].add(
                    spec_split_commas(rest.drop_first()),
                ));
            }
        } else {
            let one = s.substring_char(i, i + 1);
            proof {
                assert(s@.subrange(i as int, i as int + 1) =~= seq![s@[i as int]]);
            }
            cur.append(one);
        }
        i = i + 1;
    }
    proof {
        assert(s@.skip(n as int) =~= Seq::<char>::empty());
        assert(spec_split_commas(s@.skip(n as int)) == seq![Seq::<char>::empty()]);
        assert(cur@.add(Seq::<char>::empty()) =~= cur@);
    }
    let piece = trim_str(cur.as_str());
    done.push(piece);
    done
}

/// May a character stand in a slug?  Only ASCII letters and digits may;
/// letters are lowered.
pub open spec fn slug_keeps(c: char) -> bool {
    ('a' <= c <= 'z') || ('A' <= c <= 'Z') || ('0' <= c <= '9')
}

/// The slug form of a kept character.
pub open spec fn slug_lower(c: char) -> char
    recommends
        slug_keeps(c),
{
    if 'A' <= c <= 'Z' {
        (((c as int) + 32) as char)
    } else {
        c
    }
}

/// One pass of `slug_of`: kept characters are lowered and appended; every
/// run of dropped characters becomes one dash, never at the front.
pub open spec fn slug_core(s: Seq<char>, acc: Seq<char>) -> Seq<char>
    decreases s.len(),
{
    if s.len() == 0 {
        acc
    } else {
        let c = s[0];
        if slug_keeps(c) {
            slug_core(s.drop_first(), acc.push(slug_lower(c)))
        } else if acc.len() > 0 && acc.last() != '-' {
            slug_core(s.drop_first(), acc.push('-'))
        } else {
            slug_core(s.drop_first(), acc)
        }
    }
}

/// The slug of a title: lowered ASCII letters and digits, with each run of
/// other characters collapsed to one dash, and no dash at either end.
pub open spec fn slug_of(s: Seq<char>) -> Seq<char> {
    let r = slug_core(s, Seq::empty());
    if r.len() > 0 && r.last() == '-' {
        r.drop_last()
    } else {
        r
    }
}

/// The slug character kept for `c`, as a one-character string, or `None`
/// for a character a slug drops.
fn slug_char_str(c: char) -> (r: Option<&'static str>)
    ensures
        match r {
            Some(s) => slug_keeps(c) && s@ == seq![slug_lower(c)],
            None => !slug_keeps(c),
        },
{
    let u: u32 = c as u32;
    if (u >= 48 && u <= 57) || (u >= 97 && u <= 122) || (u >= 65 && u <= 90) {
        Some(keep_char_str(c))
    } else {
        None
    }
}

/// See `slug_of`.
pub fn slugify(s: &str) -> (r: String)
    ensures
        r@ == slug_of(s@),
{
    let n = s.unicode_len();
    let mut out = String::new();
    let mut i: usize = 0;
    proof {
        assert(s@.skip(0) =~= s@);
        assert(out@ =~= Seq::<char>::empty());
    }
    while i < n
        invariant
            n == s@.len(),
            i <= n,
            slug_core(s@, Seq::empty()) == slug_core(s@.skip(i as int), out@),
        decreases n - i,
    {
        let ghost prev = out@;
        let c = s.get_char(i);
        proof {
            assert(s@.skip(i as int)[0] == s@[i as int]);
            assert(s@.skip(i as int).drop_first() =~= s@.skip(i as int + 1));
        }
        let piece = slug_char_str(c);
        match piece {
            Some(p) => {
                out.append(p);
                proof {
                    assert(out@ =~= prev.push(slug_lower(s@[i as int])));
                }
            },
            None => {
                let dash = is_last_dash(&out);
                let empty = out.as_str().unicode_len() == 0;
                if !empty && !dash {
                    proof {
                        reveal_strlit("-");
                        assert("-"@ =~= seq!['-']);
                    }
                    out.append("-");
                    proof {
                        assert(out@ =~= prev.push('-'));
                    }
                }
            },
        }
        proof {
            assert(slug_core(s@.skip(i as int), prev) == slug_core(s@.skip(i as int + 1), out@));
        }
        i = i + 1;
    }
    proof {
        assert(s@.skip(n as int) =~= Seq::<char>::empty());
    }
    let dash = is_last_dash(&out);
    if dash {
        let m = out.as_str().unicode_len();
        let trimmed = out.as_str().substring_char(0, m - 1);
        let r = trimmed.to_owned();
        proof {
            assert(r@ =~= slug_of(s@));
        }
        r
    } else {
        out
    }
}

/// Whether the last character of `s` is a dash.
fn is_last_dash(s: &String) -> (r: bool)
    ensures
        r == (s@.len() > 0 && s@.last() == '-'),
{
    let n = s.as_str().unicode_len();
    if n == 0 {
        false
    } else {
        let c = s.as_str().get_char(n - 1);
        c == '-'
    }
}

/// The slug form of a kept character, as a one-character string.
fn keep_char_str(c: char) -> (r: &'static str)
    requires
        slug_keeps(c),
    ensures
        r@ == seq![slug_lower(c)],
{
    let u: u32 = c as u32;
    if u >= 48 && u <= 57 {
        let r = digit_str((u - 48) as u64);
        proof {
            assert(digit_char(((u - 48) as u64) as nat) == c);
        }
        r
    } else {
        letter_lower_str(c)
    }
}

/// The one-character string for an ASCII letter, lowered.
fn letter_lower_str(c: char) -> (r: &'static str)
    requires
        ('a' <= c <= 'z') || ('A' <= c <= 'Z'),
    ensures
        r@ == seq![slug_lower(c)],
{
    if c == 'a' || c == 'A' {
        proof {
            reveal_strlit("a");
            assert("a"@ =~= seq!['a']);
        }
        "a"
    } else if c == 'b' || c == 'B' {
        proof {
            reveal_strlit("b");
            assert("b"@ =~= seq!['b']);
        }
        "b"
    } else if c == 'c' || c == 'C' {
        proof {
            reveal_strlit("c");
            assert("c"@ =~= seq!['c']);
        }
        "c"
    } else if c == 'd' || c == 'D' {
        proof {
            reveal_strlit("d");
            assert("d"@ =~= seq!['d']);
        }
        "d"
    } else if c == 'e' || c == 'E' {
        proof {
            reveal_strlit("e");
            assert("e"@ =~= seq!['e']);
        }
        "e"
    } else if c == 'f' || c == 'F' {
        proof {
            reveal_strlit("f");
            assert("f"@ =~= seq!['f']);
        }
        "f"
    } else if c == 'g' || c == 'G' {
        proof {
            reveal_strlit("g");
            assert("g"@ =~= seq!['g']);
        }
        "g"
    } else if c == 'h' || c == 'H' {
        proof {
            reveal_strlit("h");
            assert("h"@ =~= seq!['h']);
        }
        "h"
    } else if c == 'i' || c == 'I' {
        proof {
            reveal_strlit("i");
            assert("i"@ =~= seq!['i']);
        }
        "i"
    } else if c == 'j' || c == 'J' {
        proof {
            reveal_strlit("j");
            assert("j"@ =~= seq!['j']);
        }
        "j"
    } else if c == 'k' || c == 'K' {
        proof {
            reveal_strlit("k");
            assert("k"@ =~= seq!['k']);
        }
        "k"
    } else if c == 'l' || c == 'L' {
        proof {
            reveal_strlit("l");
            assert("l"@ =~= seq!['l']);
        }
        "l"
    } else if c == 'm' || c == 'M' {
        proof {
            reveal_strlit("m");
            assert("m"@ =~= seq!['m']);
        }
        "m"
    } else if c == 'n' || c == 'N' {
        proof {
            reveal_strlit("n");
            assert("n"@ =~= seq!['n']);
        }
        "n"
    } else if c == 'o' || c == 'O' {
        proof {
            reveal_strlit("o");
            assert("o"@ =~= seq!['o']);
        }
        "o"
    } else if c == 'p' || c == 'P' {
        proof {
            reveal_strlit("p");
            assert("p"@ =~= seq!['p']);
        }
        "p"
    } else if c == 'q' || c == 'Q' {
        proof {
            reveal_strlit("q");
            assert("q"@ =~= seq!['q']);
        }
        "q"
    } else if c == 'r' || c == 'R' {
        proof {
            reveal_strlit("r");
            assert("r"@ =~= seq!['r']);
        }
        "r"
    } else if c == 's' || c == 'S' {
        proof {
            reveal_strlit("s");
            assert("s"@ =~= seq!['s']);
        }
        "s"
    } else if c == 't' || c == 'T' {
        proof {
            reveal_strlit("t");
            assert("t"@ =~= seq!['t']);
        }
        "t"
    } else if c == 'u' || c == 'U' {
        proof {
            reveal_strlit("u");
            assert("u"@ =~= seq!['u']);
        }
        "u"
    } else if c == 'v' || c == 'V' {
        proof {
            reveal_strlit("v");
            assert("v"@ =~= seq!['v']);
        }
        "v"
    } else if c == 'w' || c == 'W' {
        proof {
            reveal_strlit("w");
            assert("w"@ =~= seq!['w']);
        }
        "w"
    } else if c == 'x' || c == 'X' {
        proof {
            reveal_strlit("x");
            assert("x"@ =~= seq!['x']);
        }
        "x"
    } else if c == 'y' || c == 'Y' {
        proof {
            reveal_strlit("y");
            assert("y"@ =~= seq!['y']);
        }
        "y"
    } else {
        proof {
            reveal_strlit("z");
            assert("z"@ =~= seq!['z']);
        }
        "z"
    }
}

} // verus!
