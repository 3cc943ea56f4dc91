//! Route resolution: a free-text query is tokenized on ASCII whitespace, its
//! first token is matched against the keyword index, argument-count
//! constraints are applied, and a default route is consulted as a fallback.

use crate::config::Route;
use crate::error::BunBunError;
use crate::index::RouteIndex;
use vstd::prelude::*;

verus! {

/// The characters on which a query is tokenized.
pub open spec fn is_space(c: char) -> bool {
    c == ' ' || c == '\t' || c == '\n' || c == '\u{0C}' || c == '\r'
}

/// The length of the leading run of non-whitespace characters.
pub open spec fn token_run(s: Seq<char>) -> int
    decreases s.len(),
{
    if s.len() == 0 || is_space(s[0]) {
        0
    } else {
        1 + token_run(s.drop_first())
    }
}

proof fn lemma_token_run_bounds(s: Seq<char>)
    ensures
        0 <= token_run(s) <= s.len(),
    decreases s.len(),
{
    if s.len() > 0 && !is_space(s[0]) {
        lemma_token_run_bounds(s.drop_first());
    }
}

/// `token_run` is pinned down by any witness position `t`: everything before
/// `t` is non-whitespace and `t` is the end or a whitespace character.
proof fn lemma_token_run_is(s: Seq<char>, t: int)
    requires
        0 <= t <= s.len(),
        forall|k: int| 0 <= k < t ==> !is_space(#[trigger] s[k]),
        t == s.len() || is_space(s[t]),
    ensures
        token_run(s) == t,
    decreases s.len(),
{
    if t == 0 {
    } else {
        assert(!is_space(s[0]));
        assert(forall|k: int| 0 <= k < t - 1 ==> !is_space(#[trigger] s.drop_first()[k]));
        lemma_token_run_is(s.drop_first(), t - 1);
    }
}

/// The query split on ASCII whitespace, empty runs discarded.
pub open spec fn split_whitespace(s: Seq<char>) -> Seq<Seq<char>>
    decreases s.len(),
    via split_whitespace_decreases
{
    if s.len() == 0 {
        Seq::empty()
    } else if is_space(s[0]) {
        split_whitespace(s.drop_first())
    } else {
        seq![s.subrange(0, token_run(s))] + split_whitespace(
            s.subrange(token_run(s), s.len() as int),
        )
    }
}

#[via_fn]
proof fn split_whitespace_decreases(s: Seq<char>) {
    if s.len() > 0 && !is_space(s[0]) {
        lemma_token_run_bounds(s.drop_first());
        assert(token_run(s) == 1 + token_run(s.drop_first()));
    }
}

/// The tokens joined back together with single spaces.
pub open spec fn join_spaces(ts: Seq<Seq<char>>) -> Seq<char>
    decreases ts.len(),
{
    if ts.len() == 0 {
        Seq::empty()
    } else if ts.len() == 1 {
        ts[0]
    } else {
        join_spaces(ts.drop_last()) + seq![' '] + ts.last()
    }
}

/// Whether `c` is one of the characters a query is tokenized on.
fn is_space_char(c: char) -> (r: bool)
    ensures
        r == is_space(c),
{
    c == ' ' || c == '\t' || c == '\n' || c == '\u{0C}' || c == '\r'
}

/// Splits a query on ASCII whitespace, discarding empty runs.
pub fn split_query(query: &str) -> (r: Vec<String>)
    ensures
        r.deep_view() == split_whitespace(query@),
{
    let n = query.unicode_len();
    let mut tokens: Vec<String> = Vec::new();
    let mut i: usize = 0;
    proof {
        assert(query@.skip(0) =~= query@);
        assert(tokens.deep_view() =~= Seq::<Seq<char>>::empty());
        assert(tokens.deep_view() + split_whitespace(query@.skip(0)) =~= split_whitespace(query@));
    }
    while i < n
        invariant
            n == query@.len(),
            0 <= i <= n,
            tokens.deep_view() + split_whitespace(query@.skip(i as int)) == split_whitespace(
                query@,
            ),
        decreases n - i,
    {
        let c = query.get_char(i);
        if is_space_char(c) {
            proof {
                assert(query@.skip(i as int).drop_first() =~= query@.skip(i as int + 1));
            }
            i += 1;
        } else {
            let ghost rest = query@.skip(i as int);
            let mut j: usize = i + 1;
            loop
                invariant_except_break
                    n == query@.len(),
                    i < j <= n,
                    !is_space(query@[i as int]),
                    forall|k: int| i <= k < j ==> !is_space(#[trigger] query@[k]),
                ensures
                    i < j <= n,
                    forall|k: int| i <= k < j ==> !is_space(#[trigger] query@[k]),
                    j == n || is_space(query@[j as int]),
                decreases n - j,
            {
                if j == n {
                    break ;
                }
                let c2 = query.get_char(j);
                if is_space_char(c2) {
                    break ;
                }
                j += 1;
            }
            proof {
                assert(forall|k: int| 0 <= k < j - i ==> !is_space(#[trigger] rest[k]));
                assert(j - i == rest.len() || is_space(rest[j - i]));
                lemma_token_run_is(rest, j - i);
                assert(rest.subrange(0, j - i) =~= query@.subrange(i as int, j as int));
                assert(rest.subrange(j - i, rest.len() as int) =~= query@.skip(j as int));
            }
            let tok = String::from_str(query.substring_char(i, j));
            let ghost prev = tokens.deep_view();
            tokens.push(tok);
            proof {
                assert(tokens.deep_view() =~= prev + seq![query@.subrange(i as int, j as int)]);
                assert(tokens.deep_view() + split_whitespace(query@.skip(j as int)) =~= prev + (seq![
                    query@.subrange(i as int, j as int),
                ] + split_whitespace(query@.skip(j as int))));
            }
            i = j;
        }
    }
    proof {
        assert(query@.skip(n as int) =~= Seq::<char>::empty());
        assert(tokens.deep_view() + split_whitespace(query@.skip(n as int)) =~= tokens.deep_view());
    }
    tokens
}

/// Joins `tokens[start..]` with single spaces.
pub fn join_from(tokens: &Vec<String>, start: usize) -> (r: String)
    requires
        start <= tokens@.len(),
    ensures
        r@ == join_spaces(tokens.deep_view().skip(start as int)),
{
    let mut r = String::new();
    let mut i: usize = start;
    while i < tokens.len()
        invariant
            start <= i <= tokens@.len(),
            r@ == join_spaces(tokens.deep_view().subrange(start as int, i as int)),
        decreases tokens@.len() - i,
    {
        let ghost before = tokens.deep_view().subrange(start as int, i as int);
        let ghost after = tokens.deep_view().subrange(start as int, i as int + 1);
        proof {
            assert(after.drop_last() =~= before);
            assert(after.last() == tokens.deep_view()[i as int]);
        }
        if i > start {
            r.append(" ");
        }
        r.append(tokens[i].as_str());
        proof {
            reveal_strlit(" ");
            assert(" "@ =~= seq![' ']);
            assert(after.last() == tokens@[i as int]@);
            if before.len() == 0 {
                assert(r@ =~= join_spaces(after));
            } else {
                assert(r@ =~= join_spaces(before) + seq![' '] + after.last());
                assert(join_spaces(after) == join_spaces(before) + seq![' '] + after.last());
            }
        }
        i += 1;
    }
    proof {
        assert(tokens.deep_view().subrange(start as int, tokens.deep_view().len() as int)
            =~= tokens.deep_view().skip(start as int));
    }
    r
}

/// Whether `arg_count` satisfies the route's argument-count constraints: an
/// absent bound is unconstrained on that side, both bounds are inclusive.
pub open spec fn route_accepts(route: Route, arg_count: int) -> bool {
    &&& match route.min_args {
        Some(lo) => arg_count >= lo,
        None => true,
    }
    &&& match route.max_args {
        Some(hi) => arg_count <= hi,
        None => true,
    }
}

/// Checks if the provided argument count has the properties required by the
/// route to be successfully matched.
pub fn check_route(route: &Route, arg_count: usize) -> (r: bool)
    ensures
        r == route_accepts(*route, arg_count as int),
{
    if let Some(lo) = route.min_args {
        if arg_count < lo {
            return false;
        }
    }
    if let Some(hi) = route.max_args {
        if arg_count > hi {
            return false;
        }
    }
    true
}

/// The resolution input: a single free-text query string, as it arrives in
/// the `to` parameter of a hop request.
#[derive(Debug)]
pub struct SearchQuery {
    pub to: String,
}

/// The outcome of matching a query against an index: either a matched route
/// with its residual arguments, or no match at all.
#[derive(Debug, PartialEq)]
pub enum RouteResolution {
    Resolved { route: Route, args: String },
    Unresolved,
}

/// The view of an optional keyword.
pub open spec fn opt_str_view(d: Option<String>) -> Option<Seq<char>> {
    match d {
        Some(s) => Some(s@),
        None => None,
    }
}

/// What `resolve_hop` returns: the first token selects a route directly; a
/// direct match that fails its argument-count check falls through, with the
/// full token list, to the default route; the default route's own check
/// failing yields no match.
pub open spec fn spec_resolve(
    query: Seq<char>,
    routes: Map<Seq<char>, Route>,
    default_route: Option<Seq<char>>,
) -> Option<(Route, Seq<char>)> {
    let toks = split_whitespace(query);
    if toks.len() == 0 {
        None
    } else if routes.contains_key(toks[0]) && route_accepts(routes[toks[0]], toks.len() - 1) {
        Some((routes[toks[0]], join_spaces(toks.drop_first())))
    } else {
        match default_route {
            Some(d) => if routes.contains_key(d) && route_accepts(routes[d], toks.len() as int) {
                Some((routes[d], join_spaces(toks)))
            } else {
                None
            },
            None => None,
        }
    }
}

/// With an empty index and no default route, no query resolves.
pub proof fn lemma_empty_index_unresolved(query: Seq<char>)
    ensures
        spec_resolve(query, Map::empty(), None) is None,
{
}

/// With an empty index, no query resolves whatever the default route is set
/// to: there is no route that could satisfy even the default.
pub proof fn lemma_empty_index_unresolved_any_default(
    query: Seq<char>,
    default_route: Option<Seq<char>>,
)
    ensures
        spec_resolve(query, Map::empty(), default_route) is None,
{
}

/// A route with neither bound accepts any argument count, zero and very
/// large counts alike.
pub proof fn lemma_unbounded_route_accepts(route: Route, arg_count: int)
    requires
        route.min_args is None,
        route.max_args is None,
    ensures
        route_accepts(route, arg_count),
{
}

/// What a local route's backing program asks the caller to do: redirect to a
/// destination, or return a body directly.
#[derive(Debug, PartialEq)]
pub enum HopAction {
    Redirect(String),
    Body(String),
}

/// What a JSON parse of `bytes` into an object of strings yields: the
/// object's entries in ascending key order, or nothing when the bytes are
/// not such an object. The result is a function of the bytes alone.
pub uninterp spec fn json_string_object(bytes: Seq<u8>) -> Option<Seq<(Seq<char>, Seq<char>)>>;

/// Relies on `serde_json::from_slice` at type `BTreeMap<String, String>`: it
/// succeeds exactly when the bytes are a JSON object whose values are all
/// strings, and then yields that object's entries; on failure it reports the
/// parse error's text. The parse depends on the bytes alone.
#[verifier::external_body]
fn parse_json_string_object(bytes: &[u8]) -> (r: Result<Vec<(String, String)>, String>)
    ensures
        r is Ok <==> json_string_object(bytes@) is Some,
        r is Ok ==> (r->Ok_0).deep_view() == json_string_object(bytes@)->Some_0,
{
    match serde_json::from_slice::<std::collections::BTreeMap<String, String>>(bytes) {
        Ok(object) => Ok(object.into_iter().collect()),
        Err(e) => Err(format!("{e}")),
    }
}

/// Maps the entries of a program's output object to the action they demand:
/// exactly one entry, keyed `redirect` or `body`, is accepted; anything else
/// is a parse failure.
pub fn hop_action_from_entries(entries: Vec<(String, String)>) -> (r: Result<
    HopAction,
    BunBunError,
>)
    ensures
        ({
            let es = entries.deep_view();
            match r {
                Ok(HopAction::Redirect(dest)) => es.len() == 1 && es[0].0 == "redirect"@ && dest@
                    == es[0].1,
                Ok(HopAction::Body(text)) => es.len() == 1 && es[0].0 == "body"@ && text@
                    == es[0].1,
                Err(e) => {
                    &&& !(es.len() == 1 && (es[0].0 == "redirect"@ || es[0].0 == "body"@))
                    &&& e matches BunBunError::JsonParse(_)
                },
            }
        }),
{
    proof {
        assert(entries.deep_view().len() == entries@.len());
    }
    if entries.len() == 1 {
        let pair = &entries[0];
        proof {
            assert(entries.deep_view()[0] == (entries@[0].0@, entries@[0].1@));
        }
        if pair.0 == String::from_str("redirect") {
            return Ok(HopAction::Redirect(pair.1.clone()));
        }
        if pair.0 == String::from_str("body") {
            return Ok(HopAction::Body(pair.1.clone()));
        }
    }
    Err(
        BunBunError::JsonParse(
            String::from_str("expected a JSON object with exactly one key, redirect or body"),
        ),
    )
}

/// Interprets what a route's backing program produced. A non-zero exit
/// carries the program's standard-error text verbatim, whatever it wrote to
/// standard output; a zero exit has the standard output held to the JSON
/// object contract.
pub fn interpret_output(success: bool, stdout: &[u8], stderr: &str) -> (r: Result<
    HopAction,
    BunBunError,
>)
    ensures
        !success ==> (r matches Err(BunBunError::CustomProgram(msg)) && msg@ == stderr@),
        success ==> match json_string_object(stdout@) {
            Some(es) => match r {
                Ok(HopAction::Redirect(dest)) => es.len() == 1 && es[0].0 == "redirect"@ && dest@
                    == es[0].1,
                Ok(HopAction::Body(text)) => es.len() == 1 && es[0].0 == "body"@ && text@
                    == es[0].1,
                Err(e) => {
                    &&& !(es.len() == 1 && (es[0].0 == "redirect"@ || es[0].0 == "body"@))
                    &&& e matches BunBunError::JsonParse(_)
                },
            },
            None => r matches Err(BunBunError::JsonParse(_)),
        },
{
    if !success {
        return Err(BunBunError::CustomProgram(String::from_str(stderr)));
    }
    match parse_json_string_object(stdout) {
        Ok(entries) => hop_action_from_entries(entries),
        Err(e) => Err(BunBunError::JsonParse(e)),
    }
}

/// The position of the first space, or the length when there is none.
pub open spec fn first_space(s: Seq<char>) -> int
    decreases s.len(),
{
    if s.len() == 0 || s[0] == ' ' {
        0
    } else {
        1 + first_space(s.drop_first())
    }
}

proof fn lemma_first_space_bounds(s: Seq<char>)
    ensures
        0 <= first_space(s) <= s.len(),
    decreases s.len(),
{
    if s.len() > 0 && s[0] != ' ' {
        lemma_first_space_bounds(s.drop_first());
    }
}

/// `first_space` is pinned down by any witness position.
proof fn lemma_first_space_is(s: Seq<char>, t: int)
    requires
        0 <= t <= s.len(),
        forall|k: int| 0 <= k < t ==> (#[trigger] s[k]) != ' ',
        t == s.len() || s[t] == ' ',
    ensures
        first_space(s) == t,
    decreases s.len(),
{
    if t > 0 {
        assert(forall|k: int| 0 <= k < t - 1 ==> (#[trigger] s.drop_first()[k]) != ' ');
        lemma_first_space_is(s.drop_first(), t - 1);
    }
}

/// The pieces of `s` between single spaces; a string without spaces is one
/// piece, and consecutive spaces give empty pieces.
pub open spec fn split_single_spaces(s: Seq<char>) -> Seq<Seq<char>>
    decreases s.len(),
    via split_single_spaces_decreases
{
    let t = first_space(s);
    if t == s.len() {
        seq![s]
    } else {
        seq![s.subrange(0, t)] + split_single_spaces(s.subrange(t + 1, s.len() as int))
    }
}

#[via_fn]
proof fn split_single_spaces_decreases(s: Seq<char>) {
    lemma_first_space_bounds(s);
}

/// The separate arguments a route's backing program is invoked with: the
/// residual argument string split on single spaces, with an empty string
/// yielding no arguments at all.
pub open spec fn spec_process_args(s: Seq<char>) -> Seq<Seq<char>> {
    if s.len() == 0 {
        Seq::empty()
    } else {
        split_single_spaces(s)
    }
}

/// Splits a residual argument string into the separate arguments its
/// program receives.
pub fn split_process_args(args: &str) -> (r: Vec<String>)
    ensures
        r.deep_view() == spec_process_args(args@),
{
    let n = args.unicode_len();
    let mut parts: Vec<String> = Vec::new();
    if n == 0 {
        proof {
            assert(parts.deep_view() =~= Seq::<Seq<char>>::empty());
        }
        return parts;
    }
    let mut start: usize = 0;
    let mut i: usize = 0;
    proof {
        assert(args@.skip(0) =~= args@);
        assert(parts.deep_view() =~= Seq::<Seq<char>>::empty());
        assert(parts.deep_view() + split_single_spaces(args@.skip(0)) =~= split_single_spaces(
            args@,
        ));
    }
    while i < n
        invariant
            n == args@.len(),
            0 <= start <= i <= n,
            forall|k: int| start <= k < i ==> (#[trigger] args@[k]) != ' ',
            parts.deep_view() + split_single_spaces(args@.skip(start as int))
                == split_single_spaces(args@),
        decreases n - i,
    {
        let c = args.get_char(i);
        if c == ' ' {
            let ghost rest = args@.skip(start as int);
            proof {
                assert(forall|k: int| 0 <= k < i - start ==> (#[trigger] rest[k]) != ' ');
                assert(rest[i - start] == ' ');
                lemma_first_space_is(rest, i - start);
                assert(rest.subrange(0, i - start) =~= args@.subrange(start as int, i as int));
                assert(rest.subrange(i - start + 1, rest.len() as int) =~= args@.skip(i as int + 1));
            }
            let piece = String::from_str(args.substring_char(start, i));
            let ghost prev = parts.deep_view();
            parts.push(piece);
            proof {
                assert(parts.deep_view() =~= prev + seq![
                    args@.subrange(start as int, i as int),
                ]);
                assert(parts.deep_view() + split_single_spaces(args@.skip(i as int + 1)) =~= prev
                    + (seq![args@.subrange(start as int, i as int)] + split_single_spaces(
                    args@.skip(i as int + 1),
                )));
            }
            start = i + 1;
        }
        i += 1;
    }
    let ghost rest = args@.skip(start as int);
    proof {
        assert(forall|k: int| 0 <= k < n - start ==> (#[trigger] rest[k]) != ' ');
        lemma_first_space_is(rest, n - start);
        assert(rest.subrange(0, rest.len() as int) =~= rest);
        assert(rest =~= args@.subrange(start as int, n as int));
    }
    let piece = String::from_str(args.substring_char(start, n));
    let ghost prev = parts.deep_view();
    parts.push(piece);
    proof {
        assert(parts.deep_view() =~= prev + seq![args@.subrange(start as int, n as int)]);
        assert(split_single_spaces(rest) =~= seq![rest]);
        assert(parts.deep_view() =~= split_single_spaces(args@));
    }
    parts
}

/// Attempts to resolve the provided string into its route and its arguments.
/// If a default route was provided, then this will consider that route before
/// failing to resolve a route.
pub fn resolve_hop(query: &str, routes: &RouteIndex, default_route: &Option<String>) -> (r:
    RouteResolution)
    ensures
        match r {
            RouteResolution::Resolved { route, args } => spec_resolve(
                query@,
                routes@,
                opt_str_view(*default_route),
            ) == Some((route, args@)),
            RouteResolution::Unresolved => spec_resolve(
                query@,
                routes@,
                opt_str_view(*default_route),
            ) is None,
        },
{
    let tokens = split_query(query);
    let ghost toks = split_whitespace(query@);
    if tokens.len() == 0 {
        return RouteResolution::Unresolved;
    }
    proof {
        assert(toks[0] == tokens@[0]@);
    }
    let mut direct_failed = false;
    match routes.get(&tokens[0]) {
        Some(route) => {
            if check_route(route, tokens.len() - 1) {
                let args = join_from(&tokens, 1);
                proof {
                    assert(tokens.deep_view().skip(1) =~= toks.drop_first());
                }
                return RouteResolution::Resolved { route: route.clone(), args };
            }
            direct_failed = true;
        },
        None => {
            direct_failed = true;
        },
    }
    match default_route {
        Some(d) => {
            match routes.get(d) {
                Some(route) => {
                    if check_route(route, tokens.len()) {
                        let args = join_from(&tokens, 0);
                        proof {
                            assert(tokens.deep_view().skip(0) =~= toks);
                        }
                        return RouteResolution::Resolved { route: route.clone(), args };
                    }
                    RouteResolution::Unresolved
                },
                None => RouteResolution::Unresolved,
            }
        },
        None => RouteResolution::Unresolved,
    }
}

} // verus!
