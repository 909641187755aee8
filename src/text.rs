//! Substring search over the character view of strings.

use vstd::prelude::*;

verus! {

/// `p` stands in `s` at character index `i`.
pub open spec fn occurs_at(s: Seq<char>, p: Seq<char>, i: int) -> bool {
    0 <= i && i + p.len() <= s.len() && s.subrange(i, i + p.len()) == p
}

pub open spec fn contains(s: Seq<char>, p: Seq<char>) -> bool {
    exists|i: int| occurs_at(s, p, i)
}

/// `i` is the leftmost place where `p` stands in `s`.
pub open spec fn first_occurrence(s: Seq<char>, p: Seq<char>, i: int) -> bool {
    occurs_at(s, p, i) && forall|j: int| 0 <= j < i ==> !occurs_at(s, p, j)
}

fn occurs_at_exec(s: &str, slen: usize, p: &str, plen: usize, i: usize) -> (r: bool)
    requires
        slen == s@.len(),
        plen == p@.len(),
    ensures
        r == occurs_at(s@, p@, i as int),
{
    if i > slen || plen > slen - i {
        return false;
    }
    let mut j: usize = 0;
    while j < plen
        invariant
            slen == s@.len(),
            plen == p@.len(),
            i + plen <= slen,
            j <= plen,
            forall|k: int| 0 <= k < j ==> s@[i + k] == p@[k],
        decreases plen - j,
    {
        if s.get_char(i + j) != p.get_char(j) {
            proof {
                assert(s@.subrange(i as int, i + plen)[j as int] != p@[j as int]);
            }
            return false;
        }
        j += 1;
    }
    proof {
        assert(s@.subrange(i as int, i + plen) =~= p@);
    }
    true
}

/// Character index of the leftmost occurrence of `p` in `s`, if any.
pub fn find_text(s: &str, p: &str) -> (r: Option<usize>)
    ensures
        match r {
            Some(i) => first_occurrence(s@, p@, i as int),
            None => !contains(s@, p@),
        },
{
    let slen = s.unicode_len();
    let plen = p.unicode_len();
    if plen > slen {
        return None;
    }
    if plen == 0 {
        proof {
            assert(s@.subrange(0, 0) =~= p@);
        }
        return Some(0);
    }
    let mut i: usize = 0;
    while i <= slen - plen
        invariant
            slen == s@.len(),
            plen == p@.len(),
            0 < plen <= slen,
            i <= slen - plen + 1,
            forall|j: int| 0 <= j < i ==> !occurs_at(s@, p@, j),
        decreases slen - plen + 1 - i,
    {
        if occurs_at_exec(s, slen, p, plen, i) {
            return Some(i);
        }
        i += 1;
    }
    assert forall|j: int| !occurs_at(s@, p@, j) by {
        if 0 <= j < i {
        }
    }
    None
}

/// Whether `p` occurs in `s`.
pub fn contains_text(s: &str, p: &str) -> (r: bool)
    ensures
        r == contains(s@, p@),
{
    match find_text(s, p) {
        Some(_) => true,
        None => false,
    }
}

/// A character with Unicode's `White_Space` property.
pub open spec fn is_white_space(c: char) -> bool {
    let u = c as u32;
    ||| 0x9 <= u <= 0xD
    ||| u == 0x20
    ||| u == 0x85
    ||| u == 0xA0
    ||| u == 0x1680
    ||| 0x2000 <= u <= 0x200A
    ||| u == 0x2028
    ||| u == 0x2029
    ||| u == 0x202F
    ||| u == 0x205F
    ||| u == 0x3000
}

pub open spec fn trim_start(s: Seq<char>) -> Seq<char>
    decreases s.len(),
{
    if s.len() > 0 && is_white_space(s[0]) {
        trim_start(s.drop_first())
    } else {
        s
    }
}

pub open spec fn trim_end(s: Seq<char>) -> Seq<char>
    decreases s.len(),
{
    if s.len() > 0 && is_white_space(s.last()) {
        trim_end(s.drop_last())
    } else {
        s
    }
}

/// `s` without its leading and trailing white space.
pub open spec fn trimmed(s: Seq<char>) -> Seq<char> {
    trim_end(trim_start(s))
}

/// Relies on str::trim: the string without the leading and trailing characters
/// that have Unicode's `White_Space` property.
#[verifier::external_body]
pub(crate) fn trim_text(s: &str) -> (r: &str)
    ensures
        r@ == trimmed(s@),
{
    s.trim()
}

/// Whether `s` ends with `p`.
pub fn ends_with_text(s: &str, p: &str) -> (r: bool)
    ensures
        r == (p@.len() <= s@.len() && occurs_at(s@, p@, s@.len() - p@.len())),
{
    let slen = s.unicode_len();
    let plen = p.unicode_len();
    if plen > slen {
        return false;
    }
    occurs_at_exec(s, slen, p, plen, slen - plen)
}

/// Whether the two strings hold the same characters.
pub fn same_text(a: &str, b: &str) -> (r: bool)
    ensures
        r == (a@ == b@),
{
    let alen = a.unicode_len();
    let blen = b.unicode_len();
    if alen != blen {
        return false;
    }
    let r = occurs_at_exec(a, alen, b, blen, 0);
    proof {
        assert(a@ =~= a@.subrange(0, blen as int));
    }
    r
}

pub open spec fn has_no_newline(p: Seq<char>) -> bool {
    forall|k: int| 0 <= k < p.len() ==> p[k] != '\n'
}

/// An occurrence in a part of a text is one in the text.
pub proof fn lemma_occurs_in_subrange(s: Seq<char>, lo: int, hi: int, p: Seq<char>, j: int)
    requires
        0 <= lo <= hi <= s.len(),
        occurs_at(s.subrange(lo, hi), p, j),
    ensures
        occurs_at(s, p, j + lo),
{
    assert(s.subrange(j + lo, j + lo + p.len()) =~= s.subrange(lo, hi).subrange(j, j + p.len()));
}

/// An occurrence in either part of a text is one in the text.
pub proof fn lemma_occurs_in_concat(a: Seq<char>, b: Seq<char>, p: Seq<char>, j: int)
    ensures
        occurs_at(a, p, j) ==> occurs_at(a + b, p, j),
        occurs_at(b, p, j) ==> occurs_at(a + b, p, j + a.len()),
{
    if occurs_at(a, p, j) {
        assert((a + b).subrange(j, j + p.len()) =~= a.subrange(j, j + p.len()));
    }
    if occurs_at(b, p, j) {
        assert((a + b).subrange(j + a.len(), j + a.len() + p.len()) =~= b.subrange(
            j,
            j + p.len(),
        ));
    }
}

/// Text without a line break that occurs across a line break between two
/// parts does not exist: it occurs in one of them.
pub proof fn lemma_occurs_in_parts(a: Seq<char>, b: Seq<char>, p: Seq<char>, j: int)
    requires
        has_no_newline(p),
        occurs_at(a + b, p, j),
        a.len() == 0 || b.len() == 0 || a.last() == '\n' || b[0] == '\n',
    ensures
        occurs_at(a, p, j) || occurs_at(b, p, j - a.len()),
{
    let s = a + b;
    let n = a.len() as int;
    if j + p.len() <= n {
        assert(a.subrange(j, j + p.len()) =~= s.subrange(j, j + p.len()));
    } else if j >= n {
        assert(b.subrange(j - n, j - n + p.len()) =~= s.subrange(j, j + p.len()));
    } else if a.len() > 0 && a.last() == '\n' {
        assert(s.subrange(j, j + p.len())[n - 1 - j] == s[n - 1]);
    } else if b.len() > 0 && b[0] == '\n' {
        assert(s.subrange(j, j + p.len())[n - j] == s[n]);
    }
}

/// Where the line of `s` that holds index `k` ends: at its line break, or at
/// the end of the text.
pub open spec fn line_end_from(s: Seq<char>, k: int) -> int
    decreases s.len() - k,
{
    if k >= s.len() {
        s.len() as int
    } else if 0 <= k && s[k] == '\n' {
        k
    } else {
        line_end_from(s, k + 1)
    }
}

pub proof fn lemma_line_end_from(s: Seq<char>, k: int)
    requires
        0 <= k <= s.len(),
    ensures
        k <= line_end_from(s, k) <= s.len(),
        line_end_from(s, k) < s.len() ==> s[line_end_from(s, k)] == '\n',
        forall|q: int| k <= q < line_end_from(s, k) ==> s[q] != '\n',
    decreases s.len() - k,
{
    if k < s.len() && s[k] != '\n' {
        lemma_line_end_from(s, k + 1);
    }
}

/// The index of the first line break in `s` at or after `k`, or the length of
/// `s` where there is none.
pub fn line_end(s: &str, k: usize) -> (r: usize)
    ensures
        r == line_end_from(s@, k as int),
{
    let len = s.unicode_len();
    if k >= len {
        return len;
    }
    let mut i: usize = k;
    while i < len && s.get_char(i) != '\n'
        invariant
            len == s@.len(),
            k <= i <= len,
            line_end_from(s@, i as int) == line_end_from(s@, k as int),
        decreases len - i,
    {
        i += 1;
    }
    i
}

/// A first occurrence is unique.
pub proof fn lemma_first_occurrence_unique(s: Seq<char>, p: Seq<char>, i: int, j: int)
    requires
        first_occurrence(s, p, i),
        first_occurrence(s, p, j),
    ensures
        i == j,
{
}

/// Where `p` occurs, a leftmost occurrence exists.
pub proof fn lemma_first_occurrence_exists(s: Seq<char>, p: Seq<char>, k: int)
    requires
        occurs_at(s, p, k),
    ensures
        exists|i: int| first_occurrence(s, p, i),
    decreases k,
{
    if exists|j: int| 0 <= j < k && occurs_at(s, p, j) {
        let j = choose|j: int| 0 <= j < k && occurs_at(s, p, j);
        lemma_first_occurrence_exists(s, p, j);
    } else {
        assert(first_occurrence(s, p, k));
    }
}

} // verus!
