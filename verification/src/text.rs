//! Verified text helpers: equality and search over `&str`, blankness,
//! ASCII-whitespace trimming, and decimal rendering of integers.

use vstd::prelude::*;
use vstd::string::StrSliceExecFns;
use vstd::string::StringExecFns;

verus! {

/// The whitespace characters this library recognises (ASCII only).
pub open spec fn is_space_char(c: char) -> bool {
    c == ' ' || c == '\t' || c == '\n' || c == '\r'
}

/// A sequence is blank when every character is whitespace.
pub open spec fn seq_is_blank(t: Seq<char>) -> bool {
    forall|i: int| 0 <= i < t.len() ==> is_space_char(#[trigger] t[i])
}

/// True exactly when `s` holds no character besides whitespace.
pub fn is_blank(s: &str) -> (r: bool)
    ensures
        r == seq_is_blank(s@),
{
    let len: usize = s.unicode_len();
    let mut i: usize = 0;
    while i < len
        invariant
            i <= len,
            len == s@.len(),
            forall|j: int| 0 <= j < i ==> is_space_char(#[trigger] s@[j]),
        decreases len - i,
    {
        let c = s.get_char(i);
        if !(c == ' ' || c == '\t' || c == '\n' || c == '\r') {
            return false;
        }
        i = i + 1;
    }
    true
}

/// Character-for-character equality of two string slices.
pub fn str_eq(a: &str, b: &str) -> (r: bool)
    ensures
        r == (a@ == b@),
{
    let alen: usize = a.unicode_len();
    let blen: usize = b.unicode_len();
    if alen != blen {
        return false;
    }
    let mut i: usize = 0;
    while i < alen
        invariant
            i <= alen,
            alen == a@.len(),
            alen == b@.len(),
            forall|j: int| 0 <= j < i ==> a@[j] == b@[j],
        decreases alen - i,
    {
        if a.get_char(i) != b.get_char(i) {
            return false;
        }
        i = i + 1;
    }
    proof {
        assert(a@ =~= b@);
    }
    true
}

/// `t` with leading whitespace removed.
pub open spec fn ltrimmed(t: Seq<char>) -> Seq<char>
    decreases t.len(),
{
    if t.len() > 0 && is_space_char(t[0]) {
        ltrimmed(t.drop_first())
    } else {
        t
    }
}

/// `t` with trailing whitespace removed.
pub open spec fn rtrimmed(t: Seq<char>) -> Seq<char>
    decreases t.len(),
{
    if t.len() > 0 && is_space_char(t.last()) {
        rtrimmed(t.drop_last())
    } else {
        t
    }
}

/// `t` with whitespace removed from both ends.
pub open spec fn trimmed(t: Seq<char>) -> Seq<char> {
    rtrimmed(ltrimmed(t))
}

proof fn lemma_ltrimmed_subrange(t: Seq<char>, k: int)
    requires
        0 <= k <= t.len(),
        forall|j: int| 0 <= j < k ==> is_space_char(#[trigger] t[j]),
        k == t.len() || !is_space_char(t[k]),
    ensures
        ltrimmed(t) == t.subrange(k, t.len() as int),
    decreases k,
{
    if k == 0 {
        if t.len() > 0 && is_space_char(t[0]) {
            assert(false);
        }
        assert(t.subrange(0, t.len() as int) =~= t);
    } else {
        assert(is_space_char(t[0]));
        let d = t.drop_first();
        assert(forall|j: int| 0 <= j < k - 1 ==> is_space_char(#[trigger] d[j]));
        lemma_ltrimmed_subrange(d, k - 1);
        assert(d.subrange(k - 1, d.len() as int) =~= t.subrange(k, t.len() as int));
    }
}

proof fn lemma_rtrimmed_subrange(t: Seq<char>, k: int)
    requires
        0 <= k <= t.len(),
        forall|j: int| k <= j < t.len() ==> is_space_char(#[trigger] t[j]),
        k == 0 || !is_space_char(t[k - 1]),
    ensures
        rtrimmed(t) == t.subrange(0, k),
    decreases t.len() - k,
{
    if k == t.len() {
        if t.len() > 0 && is_space_char(t.last()) {
            assert(false);
        }
        assert(t.subrange(0, t.len() as int) =~= t);
    } else {
        assert(is_space_char(t.last()));
        let d = t.drop_last();
        lemma_rtrimmed_subrange(d, k);
        assert(d.subrange(0, k) =~= t.subrange(0, k));
    }
}

fn leading_space_count(s: &str) -> (r: usize)
    ensures
        r <= s@.len(),
        forall|j: int| 0 <= j < r ==> is_space_char(#[trigger] s@[j]),
        r == s@.len() || !is_space_char(s@[r as int]),
{
    let len: usize = s.unicode_len();
    let mut i: usize = 0;
    while i < len
        invariant
            i <= len,
            len == s@.len(),
            forall|j: int| 0 <= j < i ==> is_space_char(#[trigger] s@[j]),
        decreases len - i,
    {
        let c = s.get_char(i);
        if !(c == ' ' || c == '\t' || c == '\n' || c == '\r') {
            return i;
        }
        i = i + 1;
    }
    i
}

fn trailing_space_limit(s: &str, lead: usize) -> (r: usize)
    requires
        lead <= s@.len(),
    ensures
        lead <= r <= s@.len(),
        forall|j: int| r <= j < s@.len() ==> is_space_char(#[trigger] s@[j]),
        r == lead || !is_space_char(s@[r - 1]),
{
    let len: usize = s.unicode_len();
    let mut end: usize = len;
    while end > lead
        invariant
            lead <= end <= len,
            len == s@.len(),
            forall|j: int| end <= j < len ==> is_space_char(#[trigger] s@[j]),
        decreases end,
    {
        let c = s.get_char(end - 1);
        if !(c == ' ' || c == '\t' || c == '\n' || c == '\r') {
            return end;
        }
        end = end - 1;
    }
    end
}

/// The slice of `s` between the first and last non-whitespace characters.
pub fn trim(s: &str) -> (r: &str)
    ensures
        r@ == trimmed(s@),
{
    let len: usize = s.unicode_len();
    let lead = leading_space_count(s);
    proof {
        lemma_ltrimmed_subrange(s@, lead as int);
    }
    let end = trailing_space_limit(s, lead);
    let r = s.substring_char(lead, end);
    proof {
        let lt = s@.subrange(lead as int, len as int);
        assert(forall|j: int| end - lead <= j < lt.len() ==> is_space_char(#[trigger] lt[j]));
        if end > lead {
            assert(!is_space_char(lt[end - lead - 1]));
        }
        lemma_rtrimmed_subrange(lt, end - lead);
        assert(lt.subrange(0, end - lead) =~= s@.subrange(lead as int, end as int));
    }
    r
}

/// `needle` occurs in `hay` starting at some position.
pub open spec fn seq_contains(hay: Seq<char>, needle: Seq<char>) -> bool {
    exists|i: int|
        0 <= i && i + needle.len() <= hay.len() && #[trigger] hay.subrange(i, i + needle.len())
            == needle
}

fn matches_at(hay: &str, needle: &str, i: usize) -> (r: bool)
    requires
        i + needle@.len() <= hay@.len(),
        hay@.len() <= usize::MAX,
    ensures
        r == (hay@.subrange(i as int, i + needle@.len()) == needle@),
{
    let nlen: usize = needle.unicode_len();
    let mut j: usize = 0;
    while j < nlen
        invariant
            j <= nlen,
            nlen == needle@.len(),
            i + nlen <= hay@.len(),
            hay@.len() <= usize::MAX,
            forall|k: int| 0 <= k < j ==> hay@[i + k] == needle@[k],
        decreases nlen - j,
    {
        if hay.get_char(i + j) != needle.get_char(j) {
            proof {
                assert(hay@.subrange(i as int, i + nlen as int)[j as int] == hay@[i + j]);
            }
            return false;
        }
        j = j + 1;
    }
    proof {
        assert(hay@.subrange(i as int, i + nlen as int) =~= needle@);
    }
    true
}

/// Substring search; true exactly when `needle`'s characters occur
/// contiguously in `hay`.
pub fn contains_str(hay: &str, needle: &str) -> (r: bool)
    ensures
        r == seq_contains(hay@, needle@),
{
    let hlen: usize = hay.unicode_len();
    let nlen: usize = needle.unicode_len();
    if nlen > hlen {
        return false;
    }
    if nlen == 0 {
        proof {
            assert(hay@.subrange(0, 0 + needle@.len() as int) =~= needle@);
            assert(seq_contains(hay@, needle@));
        }
        return true;
    }
    let mut i: usize = 0;
    while i <= hlen - nlen
        invariant
            0 < nlen <= hlen,
            hlen == hay@.len(),
            nlen == needle@.len(),
            0 <= i <= hlen - nlen + 1,
            forall|x: int|
                0 <= x < i ==> #[trigger] hay@.subrange(x, x + nlen as int) != needle@,
        decreases hlen - nlen + 1 - i,
    {
        if matches_at(hay, needle, i) {
            return true;
        }
        i = i + 1;
    }
    proof {
        assert forall|x: int| 0 <= x && x + needle@.len() <= hay@.len() implies #[trigger] hay@
            .subrange(x, x + needle@.len()) != needle@ by {
            assert(x < i);
        }
    }
    false
}

/// The character for one decimal digit.
pub open spec fn digit_char(d: int) -> char {
    if d == 0 {
        '0'
    } else if d == 1 {
        '1'
    } else if d == 2 {
        '2'
    } else if d == 3 {
        '3'
    } else if d == 4 {
        '4'
    } else if d == 5 {
        '5'
    } else if d == 6 {
        '6'
    } else if d == 7 {
        '7'
    } else if d == 8 {
        '8'
    } else {
        '9'
    }
}

/// The decimal digit string of `n`, most significant digit first.
pub open spec fn dec_digits(n: nat) -> Seq<char>
    decreases n,
{
    if n < 10 {
        seq![digit_char(n as int)]
    } else {
        dec_digits(n / 10).push(digit_char((n % 10) as int))
    }
}

fn digit_str(d: u64) -> (r: &'static str)
    requires
        d < 10,
    ensures
        r@ =~= seq![digit_char(d as int)],
{
    proof {
        reveal_strlit("0");
        reveal_strlit("1");
        reveal_strlit("2");
        reveal_strlit("3");
        reveal_strlit("4");
        reveal_strlit("5");
        reveal_strlit("6");
        reveal_strlit("7");
        reveal_strlit("8");
        reveal_strlit("9");
    }
    match d {
        0 => "0",
        1 => "1",
        2 => "2",
        3 => "3",
        4 => "4",
        5 => "5",
        6 => "6",
        7 => "7",
        8 => "8",
        _ => "9",
    }
}

/// Renders `n` in decimal.
pub fn u64_decimal(n: u64) -> (r: String)
    ensures
        r@ == dec_digits(n as nat),
    decreases n,
{
    if n < 10 {
        String::from_str(digit_str(n))
    } else {
        let mut s = u64_decimal(n / 10);
        s.append(digit_str(n % 10));
        proof {
            assert(s@ =~= dec_digits((n / 10) as nat).push(digit_char((n % 10) as int)));
        }
        s
    }
}

/// The decimal rendering of a signed value: a minus sign when negative.
pub open spec fn dec_signed(n: int) -> Seq<char> {
    if n < 0 {
        seq!['-'] + dec_digits((-n) as nat)
    } else {
        dec_digits(n as nat)
    }
}

/// Renders `n` in decimal, with a leading minus sign when negative.
pub fn i64_decimal(n: i64) -> (r: String)
    ensures
        r@ == dec_signed(n as int),
{
    if n >= 0 {
        u64_decimal(n as u64)
    } else {
        let mag: u64 = if n == i64::MIN {
            9223372036854775808u64
        } else {
            (-n) as u64
        };
        proof {
            reveal_strlit("-");
        }
        let mut s = String::from_str("-");
        let digits = u64_decimal(mag);
        s.append(digits.as_str());
        proof {
            assert(s@ =~= seq!['-'] + dec_digits(mag as nat));
        }
        s
    }
}

} // verus!
