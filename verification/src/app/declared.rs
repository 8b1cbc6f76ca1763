//! Patterns written from their parts.
//!
//! A pattern is a run of literal text and parameters. Written out from such
//! parts, it declares its parameters in the order of the parts, and the scan
//! numbers them in that order.

use vstd::prelude::*;
use vstd::string::*;
use crate::app::application::{assigned, law_match_binds_declared_names};
use crate::app::pattern::{
    capture, has_group, is_name, is_name_char, name_end, needs_regex, parameter, scan,
    scanned_index, scanned_route, step, Scan,
};
use crate::app::route::Route;

verus! {

/// A parameter with the literal text that stands before it. An empty
/// expression stands for a bare name.
pub struct Part {
    pub text: Seq<char>,
    pub name: Seq<char>,
    pub re: Seq<char>,
}

/// A character of literal text: neither a brace nor a parenthesis.
pub open spec fn is_literal_char(c: char) -> bool {
    c != '{' && c != '}' && c != '(' && c != ')'
}

pub open spec fn is_literal(text: Seq<char>) -> bool {
    forall|i: int| 0 <= i < text.len() ==> is_literal_char(#[trigger] text[i])
}

/// The braces that are open after the first `n` characters of a text.
pub open spec fn depth(text: Seq<char>, n: int) -> int
    decreases n,
{
    if n <= 0 {
        0
    } else {
        depth(text, n - 1) + if text[n - 1] == '{' {
            1int
        } else if text[n - 1] == '}' {
            -1int
        } else {
            0int
        }
    }
}

/// Every brace of the text closes one that was opened in it, and none is
/// left open.
pub open spec fn balanced(text: Seq<char>) -> bool {
    &&& depth(text, text.len() as int) == 0
    &&& forall|n: int| 0 <= n <= text.len() ==> #[trigger] depth(text, n) >= 0
}

/// What stands between the braces of a parameter: the name, and behind a
/// colon its expression where it has one.
pub open spec fn item_of(part: Part) -> Seq<char> {
    if part.re.len() == 0 {
        part.name
    } else {
        part.name + seq![':'] + part.re
    }
}

/// A part that can be written: literal text, a well-formed name, and an
/// expression with balanced braces.
pub open spec fn writable(part: Part) -> bool {
    is_literal(part.text) && is_name(part.name) && balanced(part.re)
}

/// The first `k` parts written out: the text of each, then its parameter in
/// braces.
pub open spec fn written(parts: Seq<Part>, k: int) -> Seq<char>
    decreases k,
{
    if k <= 0 {
        Seq::empty()
    } else {
        written(parts, k - 1) + parts[k - 1].text + seq!['{'] + item_of(parts[k - 1]) + seq!['}']
    }
}

/// The names of the first `k` parts, numbered from one in their order.
pub open spec fn declared(parts: Seq<Part>, k: int) -> Seq<(Seq<char>, nat)> {
    Seq::new(k as nat, |j: int| (parts[j].name, (j + 1) as nat))
}

/// A scan that stands in literal text: no brace and no parenthesis is open.
pub open spec fn ground(s: Scan) -> bool {
    s.paren == 0 && s.brace == 0
}

proof fn lemma_literal_run(p: Seq<char>, a: int, b: int)
    requires
        0 <= a <= b <= p.len(),
        ground(scan(p, a)),
        forall|i: int| a <= i < b ==> is_literal_char(#[trigger] p[i]),
    ensures
        ground(scan(p, b)),
        scan(p, b).index == scan(p, a).index,
        scan(p, b).count == scan(p, a).count,
    decreases b - a,
{
    if a < b {
        lemma_literal_run(p, a, b - 1);
        assert(is_literal_char(p[b - 1]));
        assert(scan(p, b) == step(scan(p, b - 1), p, b - 1));
    }
}

proof fn lemma_inside(p: Seq<char>, item: Seq<char>, a: int, m: int)
    requires
        0 <= a < m <= a + 1 + item.len(),
        a + 1 + item.len() <= p.len(),
        ground(scan(p, a)),
        p[a] == '{',
        p.subrange(a + 1, a + 1 + item.len()) == item,
        forall|n: int| 0 <= n <= item.len() ==> #[trigger] depth(item, n) >= 0,
    ensures
        scan(p, m).paren == 0,
        scan(p, m).brace == 1 + depth(item, m - a - 1),
        scan(p, m).marker == a + 1,
        scan(p, m).inner == m - a,
        scan(p, m).index == scan(p, a).index,
        scan(p, m).count == scan(p, a).count,
    decreases m,
{
    assert(scan(p, m) == step(scan(p, m - 1), p, m - 1));
    if m > a + 1 {
        lemma_inside(p, item, a, m - 1);
        assert(p[m - 1] == item[m - a - 2]);
        assert(depth(item, m - a - 1) >= 0);
        assert(depth(item, m - a - 2) >= 0);
    }
}

proof fn lemma_depth_of_name(name: Seq<char>, n: int)
    requires
        is_name(name),
        0 <= n <= name.len(),
    ensures
        depth(name, n) == 0,
    decreases n,
{
    if n > 0 {
        lemma_depth_of_name(name, n - 1);
        assert(is_name_char(name[n - 1]));
    }
}

proof fn lemma_depth_joined(x: Seq<char>, y: Seq<char>, n: int)
    requires
        0 <= n <= x.len() + y.len(),
    ensures
        depth(x + y, n) == if n <= x.len() {
            depth(x, n)
        } else {
            depth(x, x.len() as int) + depth(y, n - x.len())
        },
    decreases n,
{
    if n > 0 {
        lemma_depth_joined(x, y, n - 1);
        if n <= x.len() {
            assert((x + y)[n - 1] == x[n - 1]);
        } else {
            assert((x + y)[n - 1] == y[n - 1 - x.len()]);
            assert(depth(y, 0) == 0);
        }
    }
}

proof fn lemma_item_balanced(part: Part)
    requires
        writable(part),
    ensures
        balanced(item_of(part)),
{
    let head = part.name + seq![':'];
    assert forall|n: int| 0 <= n <= part.name.len() implies #[trigger] depth(part.name, n) == 0 by {
        lemma_depth_of_name(part.name, n);
    }
    if part.re.len() > 0 {
        assert forall|n: int| 0 <= n <= head.len() implies #[trigger] depth(head, n) == 0 by {
            lemma_depth_joined(part.name, seq![':'], n);
            if n > part.name.len() {
                assert(depth(seq![':'], 1) == depth(seq![':'], 0));
            }
        }
        assert forall|n: int| 0 <= n <= item_of(part).len() implies #[trigger] depth(
            item_of(part),
            n,
        ) >= 0 by {
            lemma_depth_joined(head, part.re, n);
            if n > head.len() {
                assert(depth(part.re, n - head.len()) >= 0);
            }
        }
        lemma_depth_joined(head, part.re, item_of(part).len() as int);
    }
}

proof fn lemma_name_ends(item: Seq<char>, k: int, from: int)
    requires
        0 <= from <= k <= item.len(),
        forall|j: int| 0 <= j < k ==> is_name_char(#[trigger] item[j]),
        k < item.len() ==> !is_name_char(item[k]),
    ensures
        name_end(item, from) == k,
    decreases k - from,
{
    if from < k {
        assert(is_name_char(item[from]));
        lemma_name_ends(item, k, from + 1);
    }
}

proof fn lemma_item_is_parameter(part: Part)
    requires
        writable(part),
    ensures
        parameter(item_of(part)) == Some((part.name, part.re)),
        item_of(part).len() > 0,
{
    let item = item_of(part);
    let k = part.name.len() as int;
    assert forall|j: int| 0 <= j < k implies is_name_char(#[trigger] item[j]) by {
        assert(item[j] == part.name[j]);
    }
    assert(item[0] == part.name[0]);
    lemma_name_ends(item, k, 0);
    if part.re.len() == 0 {
        assert(part.re =~= Seq::<char>::empty());
    } else {
        assert(item[k] == ':');
        assert(item.subrange(0, k) =~= part.name);
        assert(item.subrange(k + 1, item.len() as int) =~= part.re);
    }
}

/// The group that captures a parameter opens with a parenthesis.
proof fn lemma_capture_opens(re: Seq<char>)
    ensures
        capture(re).contains('('),
{
    reveal_strlit("([^/]*)");
    reveal_strlit("(");
    reveal_strlit(")");
    if re.len() == 0 {
        assert(capture(re)[0] == '(');
    } else if has_group(re) {
        let (i, j) = choose|i: int, j: int| 0 <= i < j < re.len() && re[i] == '(' && re[j] == ')';
        assert(capture(re)[i] == '(');
    } else {
        assert(capture(re)[0] == '(');
    }
}

/// What a scan has emitted stays.
proof fn lemma_group_stays(p: Seq<char>, a: int, b: int)
    requires
        0 <= a <= b,
        scan(p, a).route.contains('('),
    ensures
        scan(p, b).route.contains('('),
    decreases b - a,
{
    reveal_strlit("\\");
    reveal_strlit("{");
    reveal_strlit("}");
    if a < b {
        lemma_group_stays(p, a, b - 1);
        let s = scan(p, b - 1);
        let t = step(s, p, b - 1);
        assert(scan(p, b) == t);
        let i = choose|i: int| 0 <= i < s.route.len() && s.route[i] == '(';
        assert(s.route.len() <= t.route.len() && t.route[i] == '(');
    }
}

/// A pattern that starts with the first `k` parts declares them, and
/// nothing else, within that start.
proof fn lemma_written(p: Seq<char>, parts: Seq<Part>, k: int)
    requires
        0 <= k <= parts.len(),
        forall|j: int| 0 <= j < parts.len() ==> writable(#[trigger] parts[j]),
        written(parts, k).len() <= p.len(),
        p.subrange(0, written(parts, k).len() as int) == written(parts, k),
    ensures
        ground(scan(p, written(parts, k).len() as int)),
        scan(p, written(parts, k).len() as int).index == declared(parts, k),
        scan(p, written(parts, k).len() as int).count == k,
        k > 0 ==> scan(p, written(parts, k).len() as int).route.contains('('),
    decreases k,
{
    if k == 0 {
        assert(scan(p, 0).index =~= declared(parts, 0));
    } else {
        let part = parts[k - 1];
        let whole = written(parts, k);
        let from = written(parts, k - 1).len() as int;
        let open = from + part.text.len();
        let item = item_of(part);
        let shut = open + 1 + item.len();
        assert(writable(part));
        assert(whole.len() == shut + 1);
        assert(p.subrange(0, from) =~= written(parts, k - 1)) by {
            assert(p.subrange(0, from) =~= p.subrange(0, whole.len() as int).subrange(0, from));
            assert(whole.subrange(0, from) =~= written(parts, k - 1));
        }
        lemma_written(p, parts, k - 1);
        assert forall|i: int| 0 <= i < whole.len() implies p[i] == whole[i] by {
            assert(p.subrange(0, whole.len() as int)[i] == p[i]);
        }
        assert forall|i: int| from <= i < open implies is_literal_char(#[trigger] p[i]) by {
            assert(whole[i] == part.text[i - from]);
        }
        lemma_literal_run(p, from, open);
        assert(p[open] == '{') by {
            assert(whole[open] == '{');
        }
        assert(p.subrange(open + 1, shut) =~= item) by {
            assert forall|i: int| 0 <= i < item.len() implies p[open + 1 + i] == item[i] by {
                assert(whole[open + 1 + i] == item[i]);
            }
        }
        lemma_item_balanced(part);
        lemma_item_is_parameter(part);
        lemma_inside(p, item, open, shut);
        assert(p[shut] == '}') by {
            assert(whole[shut] == '}');
        }
        let s = scan(p, shut);
        assert(scan(p, shut + 1) == step(s, p, shut));
        assert(s.brace == 1);
        assert(p.subrange(s.marker as int, shut) == item);
        assert(scan(p, shut + 1).index =~= declared(parts, k));
        lemma_capture_opens(part.re);
        let i = choose|i: int| 0 <= i < capture(part.re).len() && capture(part.re)[i] == '(';
        assert(scan(p, shut + 1).route[s.route.len() + i] == '(');
    }
}

/// A pattern written from parts declares the parameters of its parts and
/// no other, each under its name, and the scan numbers them from one in
/// the order in which they stand: the capture index of the pattern lists
/// the names of the parts, the first with group one, the second with group
/// two, and so on. `tail` is the literal text behind the last parameter.
pub proof fn law_written_parameters_are_indexed(parts: Seq<Part>, tail: Seq<char>)
    requires
        forall|j: int| 0 <= j < parts.len() ==> writable(#[trigger] parts[j]),
        is_literal(tail),
    ensures
        scanned_index(written(parts, parts.len() as int) + tail) == declared(
            parts,
            parts.len() as int,
        ),
{
    let head = written(parts, parts.len() as int);
    let p = head + tail;
    assert(p.subrange(0, head.len() as int) =~= head);
    lemma_written(p, parts, parts.len() as int);
    assert forall|i: int| head.len() <= i < p.len() implies is_literal_char(#[trigger] p[i]) by {
        assert(p[i] == tail[i - head.len()]);
    }
    lemma_literal_run(p, head.len() as int, p.len() as int);
}

/// Where a route whose pattern is written from parts matches a path, the
/// match binds the parameters of the parts and no other: one value for each
/// part, under its name and in the order of the parts, so that the keys of
/// the request's parameter map are exactly the names of the parts.
pub proof fn law_match_binds_written_parameters<H>(
    route: Route<H>,
    parts: Seq<Part>,
    tail: Seq<char>,
    path: Seq<char>,
)
    requires
        route.wf(),
        route.pattern_text() == written(parts, parts.len() as int) + tail,
        forall|j: int| 0 <= j < parts.len() ==> writable(#[trigger] parts[j]),
        is_literal(tail),
        parts.len() > 0,
        route.hits(path) is Some,
    ensures
        ({
            let params = route.hits(path).unwrap();
            &&& params.len() == parts.len()
            &&& forall|j: int| 0 <= j < parts.len() ==> (#[trigger] params[j]).0 == parts[j].name
            &&& forall|k: Seq<char>| #[trigger]
                assigned(Map::empty(), params, 0).contains_key(k) <==> exists|j: int|
                    0 <= j < parts.len() && (#[trigger] parts[j]).name == k
        }),
{
    let head = written(parts, parts.len() as int);
    let p = head + tail;
    let params = route.hits(path).unwrap();
    let index = scanned_index(p);
    law_written_parameters_are_indexed(parts, tail);
    assert(p.subrange(0, head.len() as int) =~= head);
    lemma_written(p, parts, parts.len() as int);
    lemma_group_stays(p, head.len() as int, p.len() as int);
    assert(needs_regex(scanned_route(p)));
    route.lemma_wf();
    law_match_binds_declared_names(route, path);
    assert forall|j: int| 0 <= j < parts.len() implies (#[trigger] params[j]).0 == parts[j].name by {
        assert(index[j] == (parts[j].name, (j + 1) as nat));
    }
    assert forall|k: Seq<char>| #[trigger]
        assigned(Map::empty(), params, 0).contains_key(k) <==> exists|j: int|
            0 <= j < parts.len() && (#[trigger] parts[j]).name == k by {
        if exists|j: int| 0 <= j < index.len() && (#[trigger] index[j]).0 == k {
            let j = choose|j: int| 0 <= j < index.len() && (#[trigger] index[j]).0 == k;
            assert(parts[j].name == k);
        }
        if exists|j: int| 0 <= j < parts.len() && (#[trigger] parts[j]).name == k {
            let j = choose|j: int| 0 <= j < parts.len() && (#[trigger] parts[j]).name == k;
            assert(index[j].0 == k);
        }
    }
}

} // verus!
