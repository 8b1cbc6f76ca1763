//! Helpers over text and bytes: comparison, searching and trimming.

pub mod words;

pub use self::words::{join_words, unwords};

use vstd::prelude::*;
use vstd::slice::slice_subrange;
use vstd::string::*;
use vstd::utf8::*;

verus! {

/// The character at position `i` of an ASCII string, in constant time.
pub fn char_at(s: &str, i: usize) -> (c: char)
    requires
        s.is_ascii(),
        i < s@.len(),
    ensures
        c == s@[i as int],
{
    let b: u8 = s.get_ascii(i);
    b as char
}

/// Whether two byte strings are the same.
pub fn bytes_eq(a: &[u8], b: &[u8]) -> (same: bool)
    ensures
        same == (a@ == b@),
{
    if a.len() != b.len() {
        return false;
    }
    let mut i: usize = 0;
    while i < a.len()
        invariant
            a@.len() == b@.len(),
            i <= a@.len(),
            forall|j: int| 0 <= j < i ==> a@[j] == b@[j],
        decreases a@.len() - i,
    {
        if a[i] != b[i] {
            return false;
        }
        i += 1;
    }
    assert(a@ =~= b@);
    true
}

/// Two strings with the same encoding are the same string.
pub proof fn lemma_same_bytes_same_text(a: Seq<char>, b: Seq<char>)
    requires
        encode_utf8(a) == encode_utf8(b),
    ensures
        a == b,
{
    encode_utf8_decode_utf8(a);
    encode_utf8_decode_utf8(b);
}

/// Whether two strings are the same.
pub fn str_eq(a: &str, b: &str) -> (same: bool)
    ensures
        same == (a@ == b@),
{
    let same = bytes_eq(a.as_bytes(), b.as_bytes());
    proof {
        if same {
            lemma_same_bytes_same_text(a@, b@);
        }
    }
    same
}

/// `c` with an upper-case ASCII letter replaced by its lower-case form.
pub open spec fn lower(c: u8) -> u8 {
    if 65 <= c && c <= 90 {
        (c + 32) as u8
    } else {
        c
    }
}

/// Whether two byte strings differ at most in the case of ASCII letters.
pub open spec fn same_ignoring_case(a: Seq<u8>, b: Seq<u8>) -> bool {
    a.len() == b.len() && forall|j: int| 0 <= j < a.len() ==> lower(#[trigger] a[j]) == lower(b[j])
}

fn lower_byte(c: u8) -> (r: u8)
    ensures
        r == lower(c),
{
    if 65 <= c && c <= 90 {
        c + 32
    } else {
        c
    }
}

/// Compares two strings without regard to the case of ASCII letters.
pub fn eq_ignore_case(a: &str, b: &str) -> (same: bool)
    ensures
        same == same_ignoring_case(a.spec_bytes(), b.spec_bytes()),
{
    let x = a.as_bytes();
    let y = b.as_bytes();
    if x.len() != y.len() {
        return false;
    }
    let mut i: usize = 0;
    while i < x.len()
        invariant
            x@ == a.spec_bytes(),
            y@ == b.spec_bytes(),
            x@.len() == y@.len(),
            i <= x@.len(),
            forall|j: int| 0 <= j < i ==> lower(#[trigger] x@[j]) == lower(y@[j]),
        decreases x@.len() - i,
    {
        if lower_byte(x[i]) != lower_byte(y[i]) {
            assert(lower(x@[i as int]) != lower(y@[i as int]));
            return false;
        }
        i += 1;
    }
    true
}

/// Whether `needle` stands in `hay` at position `at`.
pub open spec fn occurs_at(hay: Seq<u8>, needle: Seq<u8>, at: int) -> bool {
    0 <= at && at + needle.len() <= hay.len() && hay.subrange(at, at + needle.len()) == needle
}

/// Whether `at` is the first position of `hay` at which `needle` stands.
pub open spec fn is_first_occurrence(hay: Seq<u8>, needle: Seq<u8>, at: int) -> bool {
    occurs_at(hay, needle, at) && forall|j: int| 0 <= j < at ==> !occurs_at(hay, needle, j)
}

/// The first position at or after `from` at which `needle` stands in `hay`.
pub open spec fn find_from(hay: Seq<u8>, needle: Seq<u8>, from: int) -> Option<int>
    decreases hay.len() - from + 1,
{
    if from < 0 || from + needle.len() > hay.len() {
        None
    } else if occurs_at(hay, needle, from) {
        Some(from)
    } else {
        find_from(hay, needle, from + 1)
    }
}

/// What `find_from` finds is the first occurrence at or after `from`, and it
/// finds one whenever there is one.
pub proof fn lemma_find_from(hay: Seq<u8>, needle: Seq<u8>, from: int)
    requires
        0 <= from,
    ensures
        match find_from(hay, needle, from) {
            Some(at) => from <= at && occurs_at(hay, needle, at) && forall|j: int|
                from <= j < at ==> !occurs_at(hay, needle, j),
            None => forall|j: int| from <= j ==> !occurs_at(hay, needle, j),
        },
    decreases hay.len() - from + 1,
{
    if from + needle.len() > hay.len() {
    } else if occurs_at(hay, needle, from) {
    } else {
        lemma_find_from(hay, needle, from + 1);
    }
}

/// The first occurrence is unique.
pub proof fn lemma_find_from_unique(hay: Seq<u8>, needle: Seq<u8>, from: int, at: int)
    requires
        0 <= from <= at,
        occurs_at(hay, needle, at),
        forall|j: int| from <= j < at ==> !occurs_at(hay, needle, j),
    ensures
        find_from(hay, needle, from) == Some(at),
    decreases at - from,
{
    if from < at {
        lemma_find_from_unique(hay, needle, from + 1, at);
    }
}

/// The two-way string search of the `twoway` crate: the position of the
/// first occurrence of `pattern` in `text`, or `None` when there is none.
/// An empty pattern is found at position 0.
#[verifier::external_body]
fn first_occurrence(text: &[u8], pattern: &[u8]) -> (found: Option<usize>)
    ensures
        match found {
            Some(at) => is_first_occurrence(text@, pattern@, at as int),
            None => forall|j: int| !occurs_at(text@, pattern@, j),
        },
{
    twoway::find_bytes(text, pattern)
}

/// Searches `hay` for `needle` from position `from` on.
pub fn find_bytes_from(hay: &[u8], needle: &[u8], from: usize) -> (found: Option<usize>)
    requires
        from <= hay@.len(),
    ensures
        match found {
            Some(at) => find_from(hay@, needle@, from as int) == Some(at as int),
            None => find_from(hay@, needle@, from as int) is None,
        },
{
    let rest = slice_subrange(hay, from, hay.len());
    let found = first_occurrence(rest, needle);
    proof {
        lemma_find_from(hay@, needle@, from as int);
        assert forall|j: int| from <= j implies occurs_at(hay@, needle@, j) == occurs_at(
            rest@,
            needle@,
            j - from,
        ) by {
            if j + needle@.len() <= hay@.len() {
                assert(hay@.subrange(j, j + needle@.len()) =~= rest@.subrange(
                    j - from,
                    j - from + needle@.len(),
                ));
            }
        }
    }
    match found {
        Some(at) => {
            proof {
                lemma_find_from_unique(hay@, needle@, from as int, from + at);
            }
            Some(from + at)
        },
        None => {
            proof {
                if let Some(at) = find_from(hay@, needle@, from as int) {
                    assert(occurs_at(rest@, needle@, at - from));
                }
            }
            None
        },
    }
}

/// Space, tab, line feed, vertical tab, form feed and carriage return.
pub open spec fn is_space(c: u8) -> bool {
    c == 32 || (9 <= c && c <= 13)
}

/// The first position at or after `from` that holds no white space.
pub open spec fn skip_space(s: Seq<u8>, from: int) -> int
    decreases s.len() - from,
{
    if from < 0 || from >= s.len() || !is_space(s[from]) {
        from
    } else {
        skip_space(s, from + 1)
    }
}

/// The end of the text that is left of `s[from..to]` when white space is
/// taken off its end.
pub open spec fn drop_space(s: Seq<u8>, from: int, to: int) -> int
    decreases to - from,
{
    if to <= from || to > s.len() || !is_space(s[to - 1]) {
        to
    } else {
        drop_space(s, from, to - 1)
    }
}

/// `s[from..to]` without the white space at either end.
pub open spec fn trimmed(s: Seq<u8>, from: int, to: int) -> Seq<u8> {
    let lo = if skip_space(s, from) < to {
        skip_space(s, from)
    } else {
        to
    };
    s.subrange(lo, drop_space(s, lo, to))
}

pub proof fn lemma_skip_space_bounds(s: Seq<u8>, from: int)
    requires
        0 <= from <= s.len(),
    ensures
        from <= skip_space(s, from) <= s.len(),
    decreases s.len() - from,
{
    if from < s.len() && is_space(s[from]) {
        lemma_skip_space_bounds(s, from + 1);
    }
}

/// The bounds of `s[from..to]` without the white space at either end.
pub fn trim_range(s: &[u8], from: usize, to: usize) -> (r: (usize, usize))
    requires
        from <= to <= s@.len(),
    ensures
        from <= r.0 <= r.1 <= to,
        s@.subrange(r.0 as int, r.1 as int) == trimmed(s@, from as int, to as int),
{
    let mut lo = from;
    while lo < to && (s[lo] == 32 || (9 <= s[lo] && s[lo] <= 13))
        invariant
            from <= lo <= to <= s@.len(),
            skip_space(s@, from as int) == skip_space(s@, lo as int),
        decreases to - lo,
    {
        lo += 1;
    }
    proof {
        lemma_skip_space_bounds(s@, lo as int);
    }
    let mut hi = to;
    while hi > lo && (s[hi - 1] == 32 || (9 <= s[hi - 1] && s[hi - 1] <= 13))
        invariant
            lo <= hi <= to <= s@.len(),
            drop_space(s@, lo as int, to as int) == drop_space(s@, lo as int, hi as int),
        decreases hi - lo,
    {
        hi -= 1;
    }
    (lo, hi)
}

/// Whether `s` begins with `prefix`.
pub open spec fn has_prefix(s: Seq<u8>, prefix: Seq<u8>) -> bool {
    prefix.len() <= s.len() && s.subrange(0, prefix.len() as int) == prefix
}

/// Whether `s[from..to]` begins with `prefix`.
pub fn starts_with(s: &[u8], from: usize, to: usize, prefix: &[u8]) -> (r: bool)
    requires
        from <= to <= s@.len(),
    ensures
        r == has_prefix(s@.subrange(from as int, to as int), prefix@),
{
    if prefix.len() > to - from {
        return false;
    }
    let head = slice_subrange(s, from, from + prefix.len());
    assert(head@ =~= s@.subrange(from as int, to as int).subrange(0, prefix@.len() as int));
    bytes_eq(head, prefix)
}

/// The text that `String::from_utf8_lossy` makes of `bytes`: the text they
/// encode, with U+FFFD in place of what is not UTF-8.
pub uninterp spec fn lossy_text(bytes: Seq<u8>) -> Seq<char>;

/// Decodes bytes with `String::from_utf8_lossy`.
#[verifier::external_body]
pub(crate) fn utf8_lossy(bytes: &[u8]) -> (text: String)
    ensures
        text@ == lossy_text(bytes@),
{
    String::from_utf8_lossy(bytes).into_owned()
}

} // verus!
