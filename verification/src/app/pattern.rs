//! Route patterns: `{name}` and `{name:regex}` parameters compiled to a
//! regular expression and a capture index.
//!
//! The compiler is a single left-to-right scan. Its meaning is given by
//! [`scan`], a fold of [`step`] over the pattern's characters; the executable
//! scanner is proved to compute exactly that fold.

use vstd::prelude::*;
use vstd::string::*;
use vstd::utf8::{is_ascii_chars, is_ascii_chars_concat};
use crate::text::char_at;

verus! {

pub open spec fn is_letter(c: char) -> bool {
    ('a' <= c && c <= 'z') || ('A' <= c && c <= 'Z')
}

/// Characters a parameter name is made of.
pub open spec fn is_name_char(c: char) -> bool {
    is_letter(c) || ('0' <= c && c <= '9') || c == '-' || c == '_'
}

/// Characters that are escaped when they stand in literal text.
pub open spec fn is_special(c: char) -> bool {
    c == '.' || c == '+' || c == '|' || c == '#'
}

/// A well-formed parameter name: a letter, then name characters.
pub open spec fn is_name(name: Seq<char>) -> bool {
    &&& name.len() > 0
    &&& is_letter(name[0])
    &&& forall|j: int| 0 <= j < name.len() ==> is_name_char(#[trigger] name[j])
}

/// The first position at or after `from` that holds no name character.
pub open spec fn name_end(item: Seq<char>, from: int) -> int
    decreases item.len() - from,
{
    if from < 0 || from >= item.len() || !is_name_char(item[from]) {
        from
    } else {
        name_end(item, from + 1)
    }
}

/// Whether an inline expression brings a group of its own: an opening
/// parenthesis with a closing one somewhere after it.
pub open spec fn has_group(re: Seq<char>) -> bool {
    exists|i: int, j: int| 0 <= i < j < re.len() && re[i] == '(' && re[j] == ')'
}

/// What stands between the braces, split into name and inline expression.
/// `None` when the text is no parameter: the name is empty or starts with
/// something other than a letter, or a character that is neither a name
/// character nor the separating colon follows it.
pub open spec fn parameter(item: Seq<char>) -> Option<(Seq<char>, Seq<char>)> {
    let k = name_end(item, 0);
    if k >= 1 && is_letter(item[0]) && (k == item.len() || item[k] == ':') {
        if k == item.len() {
            Some((item, Seq::<char>::empty()))
        } else {
            Some((item.subrange(0, k), item.subrange(k + 1, item.len() as int)))
        }
    } else {
        None
    }
}

/// The capturing group emitted for a parameter with inline expression `re`
/// (empty for a bare name).
pub open spec fn capture(re: Seq<char>) -> Seq<char> {
    if re.len() == 0 {
        "([^/]*)"@
    } else if has_group(re) {
        re
    } else {
        "("@ + re + ")"@
    }
}

/// The scanner's state between two characters.
pub struct Scan {
    /// Open parentheses outside braces, minus closed ones.
    pub paren: int,
    /// Open braces outside parentheses, minus closed ones.
    pub brace: int,
    /// Characters seen inside braces since the outermost one opened.
    pub inner: nat,
    /// Where the text of the current parameter starts.
    pub marker: nat,
    /// Capturing groups emitted so far.
    pub count: nat,
    /// The last literal character emitted.
    pub prev: char,
    /// The expression built so far.
    pub route: Seq<char>,
    /// Parameter names with the number of their capturing group.
    pub index: Seq<(Seq<char>, nat)>,
}

pub open spec fn start() -> Scan {
    Scan {
        paren: 0,
        brace: 0,
        inner: 0,
        marker: 0,
        count: 0,
        prev: '\0',
        route: Seq::empty(),
        index: Seq::empty(),
    }
}

/// A character that neither opens nor closes a parameter: inside braces it
/// is counted, outside it is emitted, with a backslash before a special
/// character at top level.
pub open spec fn plain(s: Scan, c: char) -> Scan {
    let paren = if s.brace == 0 && c == '(' {
        s.paren + 1
    } else if s.brace == 0 && c == ')' {
        s.paren - 1
    } else {
        s.paren
    };
    let count = if s.brace == 0 && c == ')' && paren == 0 {
        s.count + 1
    } else {
        s.count
    };
    if s.brace > 0 {
        Scan { paren, count, inner: s.inner + 1, ..s }
    } else if paren == 0 && s.prev != '\\' && is_special(c) {
        Scan { paren, count, prev: c, route: s.route + "\\"@ + seq![c], ..s }
    } else {
        Scan { paren, count, prev: c, route: s.route + seq![c], ..s }
    }
}

/// The outermost brace closes over `item`.
pub open spec fn close(s: Scan, item: Seq<char>) -> Scan {
    match parameter(item) {
        Some((name, re)) => Scan {
            brace: 0,
            count: s.count + 1,
            route: s.route + capture(re),
            index: s.index.push((name, s.count + 1)),
            ..s
        },
        None => Scan { brace: 0, route: s.route + "{"@ + item + "}"@, ..s },
    }
}

/// The state after the character at position `i`.
pub open spec fn step(s: Scan, pattern: Seq<char>, i: int) -> Scan {
    let c = pattern[i];
    if s.paren == 0 && c == '{' {
        if s.brace == 0 {
            plain(Scan { brace: 1, marker: (i + 1) as nat, inner: 0, ..s }, c)
        } else {
            plain(Scan { brace: s.brace + 1, ..s }, c)
        }
    } else if s.paren == 0 && c == '}' {
        if s.inner > 0 && s.brace == 1 {
            close(s, pattern.subrange(s.marker as int, i))
        } else {
            plain(Scan { brace: s.brace - 1, ..s }, c)
        }
    } else {
        plain(s, c)
    }
}

/// The state after the first `n` characters.
pub open spec fn scan(pattern: Seq<char>, n: int) -> Scan
    decreases n,
{
    if n <= 0 {
        start()
    } else {
        step(scan(pattern, n - 1), pattern, n - 1)
    }
}

/// The expression a pattern scans to.
pub open spec fn scanned_route(pattern: Seq<char>) -> Seq<char> {
    scan(pattern, pattern.len() as int).route
}

/// The parameters of a pattern, in the order they are declared, each with the
/// number of its capturing group.
pub open spec fn scanned_index(pattern: Seq<char>) -> Seq<(Seq<char>, nat)> {
    scan(pattern, pattern.len() as int).index
}

/// Group numbers start at one, grow strictly along the list and stay within
/// the number of groups counted; every name is well formed.
pub open spec fn index_in_order(index: Seq<(Seq<char>, nat)>, count: nat) -> bool {
    &&& forall|j: int| 0 <= j < index.len() ==> 1 <= (#[trigger] index[j]).1 <= count
    &&& forall|j: int, k: int| 0 <= j < k < index.len() ==> (#[trigger] index[j]).1 < (#[trigger] index[k]).1
    &&& forall|j: int| 0 <= j < index.len() ==> is_name((#[trigger] index[j]).0)
}

/// A capture index as plain values.
pub open spec fn index_view(index: Seq<(String, usize)>) -> Seq<(Seq<char>, nat)> {
    index.map_values(|e: (String, usize)| (e.0@, e.1 as nat))
}

proof fn lemma_name_end_bounds(item: Seq<char>, from: int)
    requires
        0 <= from <= item.len(),
    ensures
        from <= name_end(item, from) <= item.len(),
        forall|j: int| from <= j < name_end(item, from) ==> is_name_char(#[trigger] item[j]),
        name_end(item, from) < item.len() ==> !is_name_char(item[name_end(item, from)]),
    decreases item.len() - from,
{
    if from < item.len() && is_name_char(item[from]) {
        lemma_name_end_bounds(item, from + 1);
    }
}

/// The name of a parameter is well formed.
pub proof fn lemma_parameter_name(item: Seq<char>)
    ensures
        parameter(item) matches Some(p) ==> is_name(p.0),
{
    lemma_name_end_bounds(item, 0);
}

proof fn lemma_step_in_order(s: Scan, pattern: Seq<char>, i: int)
    requires
        index_in_order(s.index, s.count),
    ensures
        index_in_order(step(s, pattern, i).index, step(s, pattern, i).count),
        step(s, pattern, i).count >= s.count,
{
    let t = step(s, pattern, i);
    let c = pattern[i];
    if s.paren == 0 && c == '}' && s.inner > 0 && s.brace == 1 {
        let item = pattern.subrange(s.marker as int, i);
        lemma_parameter_name(item);
        match parameter(item) {
            Some((name, re)) => {
                assert(t.index == s.index.push((name, s.count + 1)));
                assert forall|j: int| 0 <= j < t.index.len() implies 1 <= (#[trigger] t.index[j]).1
                    <= t.count by {
                    if j < s.index.len() {
                        assert(t.index[j] == s.index[j]);
                    }
                }
                assert forall|j: int, k: int| 0 <= j < k < t.index.len() implies (#[trigger] t.index[j]).1
                    < (#[trigger] t.index[k]).1 by {
                    assert(t.index[j] == s.index[j]);
                    if k < s.index.len() {
                        assert(t.index[k] == s.index[k]);
                    }
                }
                assert forall|j: int| 0 <= j < t.index.len() implies is_name((#[trigger] t.index[j]).0) by {
                    if j < s.index.len() {
                        assert(t.index[j] == s.index[j]);
                    }
                }
            },
            None => {},
        }
    }
}

/// Every scan keeps its capture index in order.
pub proof fn lemma_scan_in_order(pattern: Seq<char>, n: int)
    ensures
        index_in_order(scan(pattern, n).index, scan(pattern, n).count),
    decreases n,
{
    if n > 0 {
        lemma_scan_in_order(pattern, n - 1);
        lemma_step_in_order(scan(pattern, n - 1), pattern, n - 1);
    }
}

/// Appends ASCII text to ASCII text.
fn append_ascii(out: &mut String, s: &str)
    requires
        s.is_ascii(),
        is_ascii_chars(old(out)@),
    ensures
        final(out)@ == old(out)@ + s@,
        is_ascii_chars(final(out)@),
{
    out.append(s);
    proof {
        is_ascii_chars_concat(out@, old(out)@, s@);
    }
}

/// The fixed pieces of an expression are ASCII.
proof fn lemma_pieces_ascii()
    ensures
        is_ascii_chars("([^/]*)"@),
        is_ascii_chars("("@),
        is_ascii_chars(")"@),
        is_ascii_chars("{"@),
        is_ascii_chars("}"@),
        is_ascii_chars("\\"@),
        is_ascii_chars("^"@),
        is_ascii_chars("$"@),
{
    reveal_strlit("([^/]*)");
    reveal_strlit("(");
    reveal_strlit(")");
    reveal_strlit("{");
    reveal_strlit("}");
    reveal_strlit("\\");
    reveal_strlit("^");
    reveal_strlit("$");
}

/// Finds where the name at the start of `item` ends.
fn scan_name(item: &str) -> (k: usize)
    requires
        item.is_ascii(),
    ensures
        k == name_end(item@, 0),
        k <= item@.len(),
{
    let n = item.unicode_len();
    let mut k: usize = 0;
    while k < n
        invariant
            item.is_ascii(),
            n == item@.len(),
            k <= n,
            name_end(item@, 0) == name_end(item@, k as int),
        decreases n - k,
    {
        let c = char_at(item, k);
        let named = (c >= 'a' && c <= 'z') || (c >= 'A' && c <= 'Z') || (c >= '0' && c <= '9') || c
            == '-' || c == '_';
        if !named {
            return k;
        }
        k += 1;
    }
    k
}

/// Looks for an opening parenthesis with a closing one after it.
fn contains_group(re: &str) -> (found: bool)
    requires
        re.is_ascii(),
    ensures
        found == has_group(re@),
{
    let n = re.unicode_len();
    let mut k: usize = 0;
    let mut open = false;
    let ghost mut first: int = 0;
    while k < n
        invariant
            re.is_ascii(),
            n == re@.len(),
            k <= n,
            !open ==> forall|j: int| 0 <= j < k ==> re@[j] != '(',
            open ==> 0 <= first < k && re@[first] == '(' && (forall|j: int| 0 <= j < first ==> re@[j]
                != '(') && (forall|j: int| first < j < k ==> re@[j] != ')'),
        decreases n - k,
    {
        let c = char_at(re, k);
        if !open {
            if c == '(' {
                open = true;
                proof {
                    first = k as int;
                }
            }
        } else if c == ')' {
            assert(0 <= first < k < re@.len() && re@[first] == '(' && re@[k as int] == ')');
            return true;
        }
        k += 1;
    }
    assert(!has_group(re@)) by {
        if has_group(re@) {
            let (i, j) = choose|i: int, j: int|
                0 <= i < j < re@.len() && re@[i] == '(' && re@[j] == ')';
            if open {
                assert(first <= i);
            }
        }
    }
    false
}

/// Emits what a closed brace pair stands for and says whether it was a
/// parameter; if so its name is the second result.
fn emit_parameter(route: &mut String, item: &str) -> (name: Option<String>)
    requires
        item.is_ascii(),
        is_ascii_chars(old(route)@),
    ensures
        is_ascii_chars(final(route)@),
        match parameter(item@) {
            Some((n, re)) => name matches Some(s) && s@ == n && final(route)@ == old(route)@ + capture(re),
            None => name is None && final(route)@ == old(route)@ + "{"@ + item@ + "}"@,
        },
{
    let n = item.unicode_len();
    let k = scan_name(item);
    proof {
        lemma_name_end_bounds(item@, 0);
        lemma_pieces_ascii();
    }
    let mut valid = false;
    if k >= 1 {
        let first = char_at(item, 0);
        if (first >= 'a' && first <= 'z') || (first >= 'A' && first <= 'Z') {
            if k == n {
                valid = true;
            } else {
                valid = char_at(item, k) == ':';
            }
        }
    }
    if !valid {
        append_ascii(route, "{");
        append_ascii(route, item);
        append_ascii(route, "}");
        return None;
    }
    if k == n {
        append_ascii(route, "([^/]*)");
        return Some(String::from_str(item));
    }
    let name = item.substring_ascii(0, k);
    let re = item.substring_ascii(k + 1, n);
    if k + 1 == n {
        append_ascii(route, "([^/]*)");
    } else if contains_group(re) {
        append_ascii(route, re);
    } else {
        append_ascii(route, "(");
        append_ascii(route, re);
        append_ascii(route, ")");
    }
    Some(String::from_str(name))
}

/// Scans a pattern into the expression that matches it and the list of its
/// parameters.
///
/// Outside parentheses, `{name}` becomes the group `([^/]*)` and
/// `{name:re}` the group `re`, wrapped in parentheses unless `re` brings its
/// own. A brace pair that holds no well-formed name is kept as it is
/// written. Parenthesised groups of the pattern count as capturing groups
/// too. Literal `.`, `+`, `|` and `#` at top level get a backslash unless one
/// stands before them already.
pub fn extract_named_params(pattern: &str) -> (result: (String, Vec<(String, usize)>))
    requires
        pattern.is_ascii(),
    ensures
        result.0@ == scanned_route(pattern@),
        result.0.is_ascii(),
        index_view(result.1@) == scanned_index(pattern@),
        index_in_order(scanned_index(pattern@), scan(pattern@, pattern@.len() as int).count),
{
    let n = pattern.unicode_len();
    // Depths are signed: a closer without an opener drives them below zero.
    let mut paren: i128 = 0;
    let mut brace: i128 = 0;
    let mut inner: usize = 0;
    let mut marker: usize = 0;
    let mut count: usize = 0;
    let mut prev: char = '\0';
    let mut route = String::new();
    let mut index: Vec<(String, usize)> = Vec::new();
    let mut i: usize = 0;
    assert(index_view(index@) =~= Seq::<(Seq<char>, nat)>::empty());
    while i < n
        invariant
            pattern.is_ascii(),
            n == pattern@.len(),
            i <= n,
            -(i as int) <= paren <= i,
            -(i as int) <= brace <= i,
            inner <= i,
            marker <= i,
            count <= i,
            is_ascii_chars(route@),
            scan(pattern@, i as int) == (Scan {
                paren: paren as int,
                brace: brace as int,
                inner: inner as nat,
                marker: marker as nat,
                count: count as nat,
                prev,
                route: route@,
                index: index_view(index@),
            }),
        decreases n - i,
    {
        let ghost before = scan(pattern@, i as int);
        assert(scan(pattern@, i + 1) == step(before, pattern@, i as int));
        let c = char_at(pattern, i);
        let mut closed = false;
        if paren == 0 {
            if c == '{' {
                if brace == 0 {
                    marker = i + 1;
                    inner = 0;
                }
                brace += 1;
            } else if c == '}' {
                if inner > 0 && brace == 1 {
                    let item = pattern.substring_ascii(marker, i);
                    let ghost old_index = index_view(index@);
                    match emit_parameter(&mut route, item) {
                        Some(name) => {
                            count += 1;
                            index.push((name, count));
                            assert(index_view(index@) =~= old_index.push((name@, count as nat)));
                        },
                        None => {},
                    }
                    brace = 0;
                    closed = true;
                } else {
                    brace -= 1;
                }
            }
        }
        if !closed {
            if brace == 0 {
                if c == '(' {
                    paren += 1;
                } else if c == ')' {
                    paren -= 1;
                    if paren == 0 {
                        count += 1;
                    }
                }
            }
            if brace > 0 {
                inner += 1;
            } else {
                proof {
                    lemma_pieces_ascii();
                }
                if paren == 0 && prev != '\\' && (c == '.' || c == '+' || c == '|' || c == '#') {
                    append_ascii(&mut route, "\\");
                }
                append_ascii(&mut route, pattern.substring_ascii(i, i + 1));
                assert(pattern@.subrange(i as int, i + 1) =~= seq![c]);
                prev = c;
            }
        }
        i += 1;
    }
    proof {
        lemma_scan_in_order(pattern@, n as int);
    }
    (route, index)
}

/// Whether a scanned expression has to be matched as a regular expression:
/// it holds a group or a character class.
pub open spec fn needs_regex(route: Seq<char>) -> bool {
    route.contains('(') || route.contains('[')
}

/// The anchored form of an expression that needs a regular expression;
/// anything else stays as it is.
pub open spec fn compiled(route: Seq<char>) -> Seq<char> {
    if needs_regex(route) {
        "^"@ + route + "$"@
    } else {
        route
    }
}

/// Whether `text` holds the character `c`.
pub fn contains_char(text: &str, c: char) -> (found: bool)
    ensures
        found == text@.contains(c),
{
    let n = text.unicode_len();
    let ascii = text.is_ascii();
    let mut k: usize = 0;
    while k < n
        invariant
            ascii == text.is_ascii(),
            n == text@.len(),
            k <= n,
            forall|j: int| 0 <= j < k ==> text@[j] != c,
        decreases n - k,
    {
        // In ASCII text a character is found by its position at once.
        let here = if ascii {
            char_at(text, k)
        } else {
            text.get_char(k)
        };
        if here == c {
            return true;
        }
        k += 1;
    }
    false
}

/// Anchors an expression with `^` and `$` when it holds a group or a
/// character class, and leaves a literal path alone.
pub fn compile_pattern(pattern: String) -> (result: String)
    ensures
        result@ == compiled(pattern@),
        pattern.is_ascii() ==> result.is_ascii(),
{
    if contains_char(pattern.as_str(), '(') || contains_char(pattern.as_str(), '[') {
        let mut tmp = String::new();
        tmp.append("^");
        tmp.append(pattern.as_str());
        tmp.append("$");
        proof {
            lemma_pieces_ascii();
            assert(tmp@ =~= "^"@ + pattern@ + "$"@);
            is_ascii_chars_concat("^"@ + pattern@, "^"@, pattern@);
            is_ascii_chars_concat(tmp@, "^"@ + pattern@, "$"@);
        }
        return tmp;
    }
    pattern
}

} // verus!
