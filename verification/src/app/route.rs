//! A route: a method, a pattern and the handler they lead to.

use vstd::prelude::*;
use vstd::string::*;
use vstd::utf8::is_ascii_chars;
use crate::app::context::{passes, Context, Handler};
use crate::app::matcher::{
    build_regex, capture_groups, groups_view, law_literal_matches_itself, literal_match, normal,
    normalize, regex_accepts, regex_groups, regex_source, source_of,
};
use crate::app::middleware::Middleware;
use crate::app::pattern::{
    compile_pattern, compiled, contains_char, extract_named_params, index_in_order, index_view, needs_regex,
    scan, scanned_index, scanned_route, step,
};
use crate::error::{Error, Result};
use crate::http::method::Method;
use crate::text::str_eq;
use crate::util::url::pairs_of;

verus! {

/// What the group numbered `i` captured: its text, or nothing where there
/// is no such group or it took no part in the match.
pub open spec fn group_text(groups: Seq<Option<Seq<char>>>, i: nat) -> Seq<char> {
    if i < groups.len() {
        match groups[i as int] {
            Some(text) => text,
            None => Seq::empty(),
        }
    } else {
        Seq::empty()
    }
}

/// The parameters of a match: every name of the index, in its order, with
/// what its group captured.
pub open spec fn bound(index: Seq<(Seq<char>, nat)>, groups: Seq<Option<Seq<char>>>) -> Seq<
    (Seq<char>, Seq<char>),
> {
    Seq::new(index.len(), |j: int| (index[j].0, group_text(groups, index[j].1)))
}

/// Whether a pattern is matched through a regular expression.
pub open spec fn by_regex(pattern: Seq<char>) -> bool {
    needs_regex(scanned_route(pattern))
}

/// The expression that a pattern is matched with.
pub open spec fn expression(pattern: Seq<char>) -> Seq<char> {
    compiled(scanned_route(pattern))
}

/// A pattern without brace, parenthesis or bracket: a plain path.
pub open spec fn is_plain(pattern: Seq<char>) -> bool {
    forall|i: int|
        0 <= i < pattern.len() ==> #[trigger] pattern[i] != '{' && pattern[i] != '(' && pattern[i]
            != '['
}

/// Whether a pattern can be scanned: a plain path can whatever its
/// characters, any other pattern must be ASCII.
pub open spec fn scannable(pattern: Seq<char>) -> bool {
    is_plain(pattern) || is_ascii_chars(pattern)
}

/// Whether a pattern can be registered: it can be scanned, and where it
/// compiles to a regular expression the `regex` crate accepts that.
pub open spec fn accepted(pattern: Seq<char>) -> bool {
    scannable(pattern) && (by_regex(pattern) ==> regex_accepts(expression(pattern)))
}

/// Whether `e` is the error that refuses a pattern.
pub open spec fn refusal(pattern: Seq<char>, e: Error) -> bool {
    match e {
        Error::PatternNotAscii => !scannable(pattern),
        Error::Regex(_) => scannable(pattern) && by_regex(pattern) && !regex_accepts(
            expression(pattern),
        ),
        Error::Error(_) => false,
    }
}

/// Binds each name of a capture index to what its group captured.
pub fn bind_groups(index: &Vec<(String, usize)>, groups: &Vec<Option<String>>) -> (params: Vec<
    (String, String),
>)
    ensures
        pairs_of(params@) == bound(index_view(index@), groups_view(groups@)),
{
    let mut params: Vec<(String, String)> = Vec::new();
    let mut k: usize = 0;
    while k < index.len()
        invariant
            k <= index@.len(),
            params@.len() == k,
            forall|j: int|
                0 <= j < k ==> (#[trigger] params@[j]).0@ == index@[j].0@ && params@[j].1@
                    == group_text(groups_view(groups@), index@[j].1 as nat),
        decreases index@.len() - k,
    {
        let at = index[k].1;
        let value = if at < groups.len() {
            match &groups[at] {
                Some(text) => text.clone(),
                None => String::new(),
            }
        } else {
            String::new()
        };
        params.push((index[k].0.clone(), value));
        k += 1;
    }
    assert(pairs_of(params@) =~= bound(index_view(index@), groups_view(groups@))) by {
        assert forall|j: int| 0 <= j < params@.len() implies pairs_of(params@)[j] == bound(
            index_view(index@),
            groups_view(groups@),
        )[j] by {
            assert(index_view(index@)[j] == (index@[j].0@, index@[j].1 as nat));
        }
    }
    params
}

pub struct Route<H> {
    pattern: String,
    method: Method,
    handle: H,
    regex: Option<regex::Regex>,
    paths: Vec<(String, usize)>,
    before: Vec<Middleware<H>>,
    after: Vec<Middleware<H>>,
}

impl<H> Route<H> {
    #[verifier::type_invariant]
    spec fn inv(&self) -> bool {
        self.wf()
    }

    /// What holds of every route: its pattern is a plain path or ASCII, and
    /// it carries the compiled form of the expression of its pattern if and
    /// only if the pattern compiles to a regular expression.
    pub closed spec fn wf(&self) -> bool {
        &&& scannable(self.pattern@)
        &&& index_view(self.paths@) == scanned_index(self.pattern@)
        &&& match self.regex {
            Some(re) => by_regex(self.pattern@) && regex_source(re) == expression(self.pattern@),
            None => !by_regex(self.pattern@),
        }
    }

    /// The compiled expression, where the pattern compiles to one.
    pub closed spec fn matcher(&self) -> Option<regex::Regex> {
        self.regex
    }

    /// What the route makes of a normalised path: `None` where it does not
    /// match, and else the parameters it binds. A route with a compiled
    /// expression matches where the expression does; any other route
    /// matches the path that is the same as its pattern once normalised.
    pub open spec fn hits(&self, path: Seq<char>) -> Option<Seq<(Seq<char>, Seq<char>)>> {
        match self.matcher() {
            Some(re) => match regex_groups(re, path) {
                Some(groups) => Some(bound(scanned_index(self.pattern_text()), groups)),
                None => None,
            },
            None => if normal(self.pattern_text()) == path {
                Some(Seq::empty())
            } else {
                None
            },
        }
    }

    /// What well-formedness means for the matcher.
    pub proof fn lemma_wf(&self)
        requires
            self.wf(),
        ensures
            scannable(self.pattern_text()),
            self.matcher() is Some <==> by_regex(self.pattern_text()),
            self.matcher() matches Some(re) ==> regex_source(re) == expression(self.pattern_text()),
    {
    }

    /// The pattern as it was registered.
    pub closed spec fn pattern_text(&self) -> Seq<char> {
        self.pattern@
    }

    /// The method.
    pub closed spec fn verb(&self) -> Method {
        self.method
    }

    /// The handler.
    pub closed spec fn handler(&self) -> H {
        self.handle
    }

    /// The middleware that runs before the handler.
    pub closed spec fn before_list(&self) -> Seq<Middleware<H>> {
        self.before@
    }

    /// The middleware that runs after the handler.
    pub closed spec fn after_list(&self) -> Seq<Middleware<H>> {
        self.after@
    }

    /// Builds a route. The pattern is compiled here and now. A plain path
    /// is taken as it is, whatever its characters. Any other pattern is
    /// refused where it holds a character outside ASCII, and where the
    /// `regex` crate does not accept its expression.
    pub fn new(method: Method, pattern: String, handle: H) -> (route: Result<Route<H>>)
        ensures
            match route {
                Ok(r) => {
                    &&& accepted(pattern@)
                    &&& r.wf()
                    &&& r.pattern_text() == pattern@
                    &&& r.verb() == method
                    &&& r.handler() == handle
                    &&& r.before_list().len() == 0
                    &&& r.after_list().len() == 0
                },
                Err(e) => refusal(pattern@, e),
            },
    {
        if !pattern.is_ascii() {
            if contains_char(pattern.as_str(), '{') || contains_char(pattern.as_str(), '(')
                || contains_char(pattern.as_str(), '[') {
                return Err(Error::PatternNotAscii);
            }
            let paths: Vec<(String, usize)> = Vec::new();
            proof {
                lemma_plain_is_literal(pattern@);
                assert(index_view(paths@) =~= scanned_index(pattern@));
            }
            return Ok(
                Route {
                    pattern,
                    method,
                    handle,
                    regex: None,
                    paths,
                    before: Vec::new(),
                    after: Vec::new(),
                },
            );
        }
        let (scanned, paths) = extract_named_params(pattern.as_str());
        let expr = compile_pattern(scanned);
        let regex = if contains_char(expr.as_str(), '(') || contains_char(expr.as_str(), '[') {
            proof {
                lemma_anchoring_keeps(scanned_route(pattern@));
            }
            match build_regex(expr.as_str()) {
                Ok(re) => Some(re),
                Err(message) => {
                    return Err(Error::Regex(message));
                },
            }
        } else {
            proof {
                lemma_anchoring_keeps(scanned_route(pattern@));
            }
            None
        };
        Ok(Route { pattern, method, handle, regex, paths, before: Vec::new(), after: Vec::new() })
    }

    pub fn pattern(&self) -> (pattern: &String)
        ensures
            pattern@ == self.pattern_text(),
    {
        &self.pattern
    }

    pub fn method(&self) -> (method: &Method)
        ensures
            *method == self.verb(),
    {
        &self.method
    }

    /// The parameters of the pattern in the order in which they are
    /// declared, each with the number of the group that captures it: the
    /// numbers start at one and grow along the list.
    pub fn path(&self) -> (index: Vec<(String, usize)>)
        ensures
            index_view(index@) == scanned_index(self.pattern_text()),
            index_in_order(
                scanned_index(self.pattern_text()),
                scan(self.pattern_text(), self.pattern_text().len() as int).count,
            ),
    {
        proof {
            use_type_invariant(self);
            crate::app::pattern::lemma_scan_in_order(self.pattern@, self.pattern@.len() as int);
        }
        let mut index: Vec<(String, usize)> = Vec::new();
        let mut k: usize = 0;
        while k < self.paths.len()
            invariant
                k <= self.paths@.len(),
                index@.len() == k,
                forall|j: int| 0 <= j < k ==> (#[trigger] index@[j]).0@ == self.paths@[j].0@ && index@[j].1 == self.paths@[j].1,
            decreases self.paths@.len() - k,
        {
            index.push((self.paths[k].0.clone(), self.paths[k].1));
            k += 1;
        }
        assert(index_view(index@) =~= index_view(self.paths@));
        index
    }

    /// The expression that decides a match, where the pattern compiles to
    /// one.
    pub fn expression(&self) -> (expr: Option<&str>)
        ensures
            match expr {
                Some(e) => by_regex(self.pattern_text()) && e@ == expression(self.pattern_text()),
                None => !by_regex(self.pattern_text()),
            },
    {
        proof {
            use_type_invariant(self);
        }
        match &self.regex {
            Some(re) => Some(source_of(re)),
            None => None,
        }
    }

    /// Matches a path, which is normalised already. On a match the result
    /// holds one value for each parameter of the pattern, in the order of
    /// their declaration.
    pub fn matches(&self, path: &str) -> (params: Option<Vec<(String, String)>>)
        ensures
            match params {
                Some(p) => self.hits(path@) == Some(pairs_of(p@)),
                None => self.hits(path@) is None,
            },
    {
        proof {
            use_type_invariant(self);
        }
        match &self.regex {
            Some(re) => {
                match capture_groups(re, path) {
                    Some(groups) => Some(bind_groups(&self.paths, &groups)),
                    None => None,
                }
            },
            None => {
                if str_eq(normalize(self.pattern.as_str()), path) {
                    let params: Vec<(String, String)> = Vec::new();
                    assert(pairs_of(params@) =~= Seq::empty());
                    Some(params)
                } else {
                    None
                }
            },
        }
    }

    /// Adds a handler that runs before the route's own.
    pub fn before(&mut self, handle: H) -> (r: &mut Route<H>)
        ensures
            r.wf(),
            r.matcher() == old(self).matcher(),
            r.pattern_text() == old(self).pattern_text(),
            r.verb() == old(self).verb(),
            r.handler() == old(self).handler(),
            r.before_list() == old(self).before_list().push(Middleware { inner: handle }),
            r.after_list() == old(self).after_list(),
            *final(self) == *final(r),
    {
        proof {
            use_type_invariant(&*self);
        }
        let mut list: Vec<Middleware<H>> = Vec::new();
        core::mem::swap(&mut self.before, &mut list);
        list.push(Middleware { inner: handle });
        self.before = list;
        self
    }

    /// Adds a handler that runs after the route's own.
    pub fn after(&mut self, handle: H) -> (r: &mut Route<H>)
        ensures
            r.wf(),
            r.matcher() == old(self).matcher(),
            r.pattern_text() == old(self).pattern_text(),
            r.verb() == old(self).verb(),
            r.handler() == old(self).handler(),
            r.before_list() == old(self).before_list(),
            r.after_list() == old(self).after_list().push(Middleware { inner: handle }),
            *final(self) == *final(r),
    {
        proof {
            use_type_invariant(&*self);
        }
        let mut list: Vec<Middleware<H>> = Vec::new();
        core::mem::swap(&mut self.after, &mut list);
        list.push(Middleware { inner: handle });
        self.after = list;
        self
    }

    /// The handler of the route.
    pub fn handle(&self) -> (handle: &H)
        ensures
            *handle == self.handler(),
    {
        &self.handle
    }

    /// The middleware before the handler.
    pub fn before_middleware(&self) -> (list: &Vec<Middleware<H>>)
        ensures
            list@ == self.before_list(),
    {
        &self.before
    }

    /// The middleware after the handler.
    pub fn after_middleware(&self) -> (list: &Vec<Middleware<H>>)
        ensures
            list@ == self.after_list(),
    {
        &self.after
    }
}

impl<H: Handler> Route<H> {
    /// The number of handlers that the route runs: the middleware before
    /// its handler, the handler, and the middleware after it.
    pub open spec fn length(&self) -> int {
        self.before_list().len() as int + 1 + self.after_list().len()
    }

    /// The handler that runs in the `k`th place.
    pub open spec fn in_place(&self, k: int) -> H {
        if k < self.before_list().len() {
            self.before_list()[k].inner
        } else if k == self.before_list().len() {
            self.handler()
        } else {
            self.after_list()[k - self.before_list().len() - 1].inner
        }
    }

    /// Whether `trace` is a run of the route from `before` to `after`: the
    /// contexts that the handlers are given, one after the other and in
    /// their order, and the one that the last of them leaves, each handler
    /// called unless the latch is set when its turn comes.
    pub open spec fn walks(&self, trace: Seq<Context<H>>, before: Context<H>, after: Context<H>) -> bool {
        &&& trace.len() == self.length() + 1
        &&& trace[0] == before
        &&& trace[self.length()] == after
        &&& forall|i: int|
            0 <= i < self.length() ==> passes(#[trigger] self.in_place(i), trace[i], trace[i + 1])
    }

    /// Whether the handlers of the route may turn the context `before`
    /// into `after`.
    pub open spec fn runs(&self, before: Context<H>, after: Context<H>) -> bool {
        exists|trace: Seq<Context<H>>| #[trigger] self.walks(trace, before, after)
    }

    /// Runs the route: the middleware before it, the handler, the
    /// middleware after it, in this order, each unless the latch is set
    /// when its turn comes. A request that was stopped passes through
    /// untouched.
    pub fn execute(&self, context: &mut Context<H>)
        ensures
            self.runs(*old(context), *final(context)),
            old(context).is_stopped() ==> *final(context) == *old(context),
    {
        let before = self.before.len();
        let after = self.after.len();
        let ghost mut trace: Seq<Context<H>> = seq![*context];
        let mut k: usize = 0;
        while k < before
            invariant
                before == self.before@.len(),
                k <= before,
                trace.len() == k + 1,
                trace[0] == *old(context),
                trace[k as int] == *context,
                forall|i: int| 0 <= i < k ==> passes(#[trigger] self.in_place(i), trace[i], trace[i + 1]),
                old(context).is_stopped() ==> *context == *old(context),
            decreases before - k,
        {
            self.before[k].execute(context);
            proof {
                trace = trace.push(*context);
            }
            k += 1;
        }
        if context.next() {
            self.handle.call(context);
        }
        proof {
            trace = trace.push(*context);
        }
        let mut k: usize = 0;
        while k < after
            invariant
                before == self.before@.len(),
                after == self.after@.len(),
                k <= after,
                trace.len() == before + 1 + k + 1,
                trace[0] == *old(context),
                trace[before + 1 + k] == *context,
                forall|i: int|
                    0 <= i < before + 1 + k ==> passes(
                        #[trigger] self.in_place(i),
                        trace[i],
                        trace[i + 1],
                    ),
                old(context).is_stopped() ==> *context == *old(context),
            decreases after - k,
        {
            self.after[k].execute(context);
            proof {
                trace = trace.push(*context);
            }
            k += 1;
        }
        assert(self.walks(trace, *old(context), *context));
    }
}

/// Anchoring an expression neither adds nor removes a group or a class.
pub proof fn lemma_anchoring_keeps(route: Seq<char>)
    ensures
        needs_regex(compiled(route)) == needs_regex(route),
{
    reveal_strlit("^");
    reveal_strlit("$");
    if needs_regex(route) {
        let c: char = if route.contains('(') {
            '('
        } else {
            '['
        };
        let i = choose|i: int| 0 <= i < route.len() && route[i] == c;
        assert(compiled(route)[i + 1] == c);
    }
}

proof fn lemma_plain_scan(pattern: Seq<char>, n: int)
    requires
        is_plain(pattern),
        0 <= n <= pattern.len(),
    ensures
        scan(pattern, n).brace <= 0,
        scan(pattern, n).index.len() == 0,
        forall|i: int|
            0 <= i < scan(pattern, n).route.len() ==> #[trigger] scan(pattern, n).route[i] != '('
                && scan(pattern, n).route[i] != '[',
    decreases n,
{
    reveal_strlit("\\");
    if n > 0 {
        lemma_plain_scan(pattern, n - 1);
        let s = scan(pattern, n - 1);
        let t = step(s, pattern, n - 1);
        let c = pattern[n - 1];
        assert(c != '{' && c != '(' && c != '[');
        assert forall|i: int| 0 <= i < t.route.len() implies #[trigger] t.route[i] != '('
            && t.route[i] != '[' by {
            if i < s.route.len() {
                assert(t.route[i] == s.route[i]);
            }
        }
    }
}

/// A plain path is matched as a literal and declares no parameter.
pub proof fn lemma_plain_is_literal(pattern: Seq<char>)
    requires
        is_plain(pattern),
    ensures
        !by_regex(pattern),
        scanned_index(pattern).len() == 0,
{
    lemma_plain_scan(pattern, pattern.len() as int);
    let route = scanned_route(pattern);
    if route.contains('(') {
        let i = choose|i: int| 0 <= i < route.len() && route[i] == '(';
        assert(route[i] != '(');
    }
    if route.contains('[') {
        let i = choose|i: int| 0 <= i < route.len() && route[i] == '[';
        assert(route[i] != '[');
    }
}

/// A plain path can always be registered, whatever its characters: no
/// error refuses it.
pub proof fn law_plain_pattern_is_accepted(pattern: Seq<char>)
    requires
        is_plain(pattern),
    ensures
        accepted(pattern),
        forall|e: Error| !refusal(pattern, e),
{
    lemma_plain_is_literal(pattern);
}

/// A route whose pattern has no brace, parenthesis or bracket matches its
/// pattern and its pattern followed by a slash, and no other path.
///
/// This holds of a pattern that is not empty and that is the root path or
/// does not end in a slash; a pattern that ends in a slash is compared
/// without it.
pub proof fn law_plain_pattern_matches_itself<H>(route: Route<H>, path: Seq<char>)
    requires
        route.wf(),
        is_plain(route.pattern_text()),
        route.pattern_text().len() > 0,
        route.pattern_text() == "/"@ || route.pattern_text().last() != '/',
    ensures
        route.hits(normal(path)) is Some <==> (path == route.pattern_text() || path
            == route.pattern_text() + "/"@),
{
    let pattern = route.pattern_text();
    route.lemma_wf();
    lemma_plain_is_literal(pattern);
    law_literal_matches_itself(pattern, path);
    assert(literal_match(pattern, path) == (normal(pattern) == normal(path)));
}

/// A pattern that opens no group of its own: wherever the scan stands, no
/// parenthesis outside braces is open.
pub open spec fn has_no_group(pattern: Seq<char>) -> bool {
    forall|n: int| 0 <= n <= pattern.len() ==> (#[trigger] scan(pattern, n)).paren <= 0
}

proof fn lemma_numbered_in_turn(pattern: Seq<char>, n: int)
    requires
        has_no_group(pattern),
        0 <= n <= pattern.len(),
    ensures
        scan(pattern, n).count == scan(pattern, n).index.len(),
        forall|j: int| 0 <= j < scan(pattern, n).index.len() ==> (#[trigger] scan(pattern, n).index[j]).1 == j + 1,
    decreases n,
{
    if n > 0 {
        lemma_numbered_in_turn(pattern, n - 1);
        let s = scan(pattern, n - 1);
        let t = step(s, pattern, n - 1);
        assert(s.paren <= 0);
        assert(scan(pattern, n).paren <= 0);
        assert forall|j: int| 0 <= j < t.index.len() implies (#[trigger] t.index[j]).1 == j + 1 by {
            if j < s.index.len() {
                assert(t.index[j] == s.index[j]);
            }
        }
    }
}

/// In a pattern that opens no group of its own, the parameters are
/// numbered in turn: the first parameter is captured by group one, the
/// second by group two, and so on.
pub proof fn law_parameters_are_numbered_in_turn(pattern: Seq<char>)
    requires
        has_no_group(pattern),
    ensures
        forall|j: int|
            0 <= j < scanned_index(pattern).len() ==> (#[trigger] scanned_index(pattern)[j]).1 == j + 1,
{
    lemma_numbered_in_turn(pattern, pattern.len() as int);
}

} // verus!
