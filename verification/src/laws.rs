//! Properties of the library as a whole: of routing, of the request view a
//! script gets, of route discovery and of the dispatch pipeline.

use vstd::prelude::*;
use vstd::utf8::*;

use crate::bindings::{decoded_params, first_value, first_wins, values_for};
use crate::dispatch::{
    ActionView, StageView, enter_after, enter_before, enter_error, enter_route, error_response,
    next_after, next_before, next_step, not_found_response, ScriptOutcome,
};
use crate::error::error_text;
use crate::bindings::{ResponseBinding, ResponseView, bare_response};
use crate::handler::{ScriptValue, handler_response};
use crate::router::{
    captures, catch_all_key, first_route, first_route_from, is_catch_all, is_param, method_token, path_only,
    pattern_match, route_for, segments_agree, trim_rhai, RouteSpec, RouterView,
};
use crate::paths::PartView;
use crate::script::ScriptCache;
use crate::paths::{has_extension, path_components};
use crate::watcher::{DebounceView, after_change, elapsed, script_extension, tick_reports};
use crate::text::{lemma_split_on_nonempty, non_empty, segments, split_on, trim_leading_slashes};

verus! {

/// Every character of `x` occurs in `s`.
pub open spec fn chars_within(x: Seq<char>, s: Seq<char>) -> bool {
    forall|j: int| 0 <= j < x.len() ==> s.contains(#[trigger] x[j])
}

/// `x` does not contain `c`.
pub open spec fn free_of(x: Seq<char>, c: char) -> bool {
    forall|j: int| 0 <= j < x.len() ==> #[trigger] x[j] != c
}

/// The routing path of a target holds no `?`.
pub proof fn lemma_path_only_has_no_query(target: Seq<char>)
    ensures
        free_of(path_only(target), '?'),
        chars_within(path_only(target), target),
    decreases target.len(),
{
    if target.len() > 0 && target[0] != '?' {
        lemma_path_only_has_no_query(target.drop_first());
        let p = path_only(target);
        assert forall|j: int| 0 <= j < p.len() implies #[trigger] p[j] != '?' && target.contains(p[j]) by {
            if j == 0 {
                assert(target[0] == p[0]);
            } else {
                assert(p[j] == path_only(target.drop_first())[j - 1]);
                let k = choose|k: int| 0 <= k < target.drop_first().len() && target.drop_first()[k] == p[j];
                assert(target[k + 1] == p[j]);
            }
        }
    }
}

/// A query string does not change the routing path: a path without `?`,
/// followed by `?` and any query, routes as the path alone.
pub proof fn lemma_query_does_not_affect_routing(path: Seq<char>, query: Seq<char>)
    requires
        free_of(path, '?'),
    ensures
        path_only(path + seq!['?'] + query) == path,
        path_only(path) == path,
    decreases path.len(),
{
    let t = path + seq!['?'] + query;
    if path.len() == 0 {
        assert(t[0] == '?');
        assert(path_only(path) =~= path);
    } else {
        let rest = path.drop_first();
        assert(free_of(rest, '?')) by {
            assert forall|j: int| 0 <= j < rest.len() implies #[trigger] rest[j] != '?' by {
                assert(rest[j] == path[j + 1]);
            }
        }
        lemma_query_does_not_affect_routing(rest, query);
        assert(t.drop_first() =~= rest + seq!['?'] + query);
        assert(t[0] == path[0]);
        assert(path_only(t) =~= seq![path[0]] + rest);
        assert(path_only(path) =~= seq![path[0]] + rest);
        assert(seq![path[0]] + rest =~= path);
    }
}

/// The pieces of a split hold no separator, and only characters of the
/// split text.
pub proof fn lemma_split_on_within(s: Seq<char>, sep: char)
    ensures
        forall|i: int| 0 <= i < split_on(s, sep).len() ==> #[trigger] free_of(split_on(s, sep)[i], sep)
            && chars_within(split_on(s, sep)[i], s),
    decreases s.len(),
{
    if s.len() > 0 {
        let init_s = s.drop_last();
        lemma_split_on_within(init_s, sep);
        lemma_split_on_nonempty(init_s, sep);
        let init = split_on(init_s, sep);
        let out = split_on(s, sep);
        assert forall|i: int| 0 <= i < out.len() implies #[trigger] free_of(out[i], sep) && chars_within(out[i], s) by {
            if s.last() == sep {
                if i < init.len() {
                    assert(out[i] == init[i]);
                    assert(free_of(init[i], sep));
                    assert forall|j: int| 0 <= j < out[i].len() implies s.contains(#[trigger] out[i][j]) by {
                        assert(chars_within(init[i], init_s));
                        assert(init_s.contains(init[i][j]));
                        let k = choose|k: int| 0 <= k < init_s.len() && init_s[k] == init[i][j];
                        assert(s[k] == init_s[k]);
                    }
                } else {
                    assert(out[i].len() == 0);
                }
            } else {
                if i < init.len() - 1 {
                    assert(out[i] == init[i]);
                    assert(free_of(init[i], sep));
                    assert forall|j: int| 0 <= j < out[i].len() implies s.contains(#[trigger] out[i][j]) by {
                        assert(chars_within(init[i], init_s));
                        assert(init_s.contains(init[i][j]));
                        let k = choose|k: int| 0 <= k < init_s.len() && init_s[k] == init[i][j];
                        assert(s[k] == init_s[k]);
                    }
                } else {
                    let last = init[init.len() - 1];
                    assert(out[i] == last.push(s.last()));
                    assert(free_of(last, sep));
                    assert(chars_within(last, init_s));
                    assert forall|j: int| 0 <= j < out[i].len() implies #[trigger] out[i][j] != sep && s.contains(out[i][j]) by {
                        if j < last.len() {
                            assert(out[i][j] == last[j]);
                            assert(init_s.contains(last[j]));
                            let k = choose|k: int| 0 <= k < init_s.len() && init_s[k] == last[j];
                            assert(s[k] == init_s[k]);
                        } else {
                            assert(out[i][j] == s[s.len() - 1]);
                        }
                    }
                }
            }
        }
    }
}

/// Dropping the empty pieces keeps every other piece, non-empty.
pub proof fn lemma_non_empty_subset(p: Seq<Seq<char>>)
    ensures
        forall|i: int| 0 <= i < non_empty(p).len() ==> #[trigger] non_empty(p)[i].len() > 0
            && p.contains(non_empty(p)[i]),
    decreases p.len(),
{
    if p.len() > 0 {
        lemma_non_empty_subset(p.drop_last());
        let r = non_empty(p.drop_last());
        assert forall|i: int| 0 <= i < non_empty(p).len() implies #[trigger] non_empty(p)[i].len() > 0
            && p.contains(non_empty(p)[i]) by {
            if i < r.len() {
                assert(non_empty(p)[i] == r[i]);
                assert(p.drop_last().contains(r[i]));
                let k = choose|k: int| 0 <= k < p.drop_last().len() && p.drop_last()[k] == r[i];
                assert(p[k] == r[i]);
            } else {
                assert(non_empty(p)[i] == p.last());
                assert(p[p.len() - 1] == p.last());
            }
        }
    }
}

/// Every segment of a path is non-empty, holds no `/`, and holds only
/// characters of the path.
pub proof fn lemma_segments_within(s: Seq<char>)
    ensures
        forall|i: int| 0 <= i < segments(s).len() ==> #[trigger] segments(s)[i].len() > 0 && free_of(
            segments(s)[i],
            '/',
        ) && chars_within(segments(s)[i], s),
{
    lemma_split_on_within(s, '/');
    lemma_non_empty_subset(split_on(s, '/'));
    assert forall|i: int| 0 <= i < segments(s).len() implies #[trigger] segments(s)[i].len() > 0 && free_of(
        segments(s)[i],
        '/',
    ) && chars_within(segments(s)[i], s) by {
        let seg = segments(s)[i];
        assert(segments(s) == non_empty(split_on(s, '/')));
        assert(non_empty(split_on(s, '/'))[i] == seg);
        assert(split_on(s, '/').contains(seg));
        let k = choose|k: int| 0 <= k < split_on(s, '/').len() && split_on(s, '/')[k] == seg;
        assert(free_of(split_on(s, '/')[k], '/'));
    }
}

/// What the segments of a pattern capture is a set of path segments.
pub proof fn lemma_captures_are_segments(pattern: Seq<Seq<char>>, path: Seq<Seq<char>>, k: Seq<char>)
    requires
        captures(pattern, path).dom().contains(k),
    ensures
        path.contains(captures(pattern, path)[k]),
    decreases pattern.len(),
{
    if pattern.len() > 0 && path.len() > 0 {
        let earlier = captures(pattern.drop_last(), path.drop_last());
        if is_param(pattern.last()) && k == pattern.last().drop_first() {
            assert(path[path.len() - 1] == path.last());
        } else {
            lemma_captures_are_segments(pattern.drop_last(), path.drop_last(), k);
            let v = earlier[k];
            let j = choose|j: int| 0 <= j < path.drop_last().len() && path.drop_last()[j] == v;
            assert(path[j] == v);
        }
    }
}

proof fn lemma_trim_within(s: Seq<char>)
    ensures
        chars_within(trim_leading_slashes(s), s),
    decreases s.len(),
{
    if s.len() > 0 && s[0] == '/' {
        lemma_trim_within(s.drop_first());
        let t = trim_leading_slashes(s);
        assert forall|j: int| 0 <= j < t.len() implies s.contains(#[trigger] t[j]) by {
            let k = choose|k: int| 0 <= k < s.drop_first().len() && s.drop_first()[k] == t[j];
            assert(s[k + 1] == t[j]);
        }
    }
}

/// Whatever a pattern captures from a path is made of the path's
/// characters. For a pattern that is not a catch-all, each captured value is
/// a whole non-empty segment, with no `/`.
pub proof fn lemma_captured_values_come_from_path(pattern: Seq<char>, path: Seq<char>, k: Seq<char>)
    requires
        pattern_match(pattern, path) matches Some(m) && m.dom().contains(k),
    ensures
        chars_within(pattern_match(pattern, path)->0[k], path),
        !is_catch_all(pattern) ==> pattern_match(pattern, path)->0[k].len() > 0 && free_of(
            pattern_match(pattern, path)->0[k],
            '/',
        ),
{
    let m = pattern_match(pattern, path)->0;
    if is_catch_all(pattern) {
        let prefix = pattern.subrange(0, pattern.len() - 2);
        let rest = path.subrange(prefix.len() as int, path.len() as int);
        assert(k == catch_all_key());
        lemma_trim_within(rest);
        let t = trim_leading_slashes(rest);
        assert(m[k] == t);
        assert forall|j: int| 0 <= j < t.len() implies path.contains(#[trigger] t[j]) by {
            let q = choose|q: int| 0 <= q < rest.len() && rest[q] == t[j];
            assert(path[q + prefix.len()] == t[j]);
        }
    } else {
        lemma_captures_are_segments(segments(pattern), segments(path), k);
        lemma_segments_within(path);
        let v = m[k];
        let i = choose|i: int| 0 <= i < segments(path).len() && segments(path)[i] == v;
        assert(segments(path)[i].len() > 0);
    }
}

/// A captured path parameter never holds the request's query string: what a
/// route captures from the routing path of a target holds no `?`.
pub proof fn lemma_params_exclude_query(pattern: Seq<char>, target: Seq<char>, k: Seq<char>)
    requires
        pattern_match(pattern, path_only(target)) matches Some(m) && m.dom().contains(k),
    ensures
        free_of(pattern_match(pattern, path_only(target))->0[k], '?'),
{
    let path = path_only(target);
    lemma_path_only_has_no_query(target);
    lemma_captured_values_come_from_path(pattern, path, k);
    let v = pattern_match(pattern, path)->0[k];
    assert forall|j: int| 0 <= j < v.len() implies #[trigger] v[j] != '?' by {
        assert(path.contains(v[j]));
        let q = choose|q: int| 0 <= q < path.len() && path[q] == v[j];
        assert(path[q] != '?');
    }
}

/// A catch-all `prefix/*` matches on a segment boundary: exactly the prefix
/// itself and the paths that continue it with `/`, never a sibling such as
/// `prefix` followed by more characters of its last segment.
pub proof fn lemma_catch_all_boundary(prefix: Seq<char>, path: Seq<char>)
    ensures
        pattern_match(prefix + seq!['/', '*'], path) is Some <==> (path == prefix || (prefix.len() < path.len()
            && path.subrange(0, prefix.len() as int) == prefix && path[prefix.len() as int] == '/')),
{
    let pattern = prefix + seq!['/', '*'];
    assert(pattern.len() == prefix.len() + 2);
    assert(pattern[pattern.len() - 2] == '/');
    assert(pattern[pattern.len() - 1] == '*');
    assert(is_catch_all(pattern));
    let pre = pattern.subrange(0, pattern.len() - 2);
    assert(pre =~= prefix);
    let boundary = prefix.len() < path.len() && path.subrange(0, prefix.len() as int) == prefix && path[prefix.len() as int] == '/';
    let spec_cond = path == pre || (pre.len() < path.len() && path.subrange(0, pre.len() + 1 as int) == pre.push('/'));
    assert(pattern_match(pattern, path) is Some <==> spec_cond);
    if prefix.len() < path.len() {
        if path.subrange(0, prefix.len() + 1 as int) == prefix.push('/') {
            assert(path.subrange(0, prefix.len() as int) =~= path.subrange(0, prefix.len() + 1 as int).drop_last());
            assert(path[prefix.len() as int] == path.subrange(0, prefix.len() + 1 as int)[prefix.len() as int]);
            assert(prefix.push('/').drop_last() =~= prefix);
            assert(path.subrange(0, prefix.len() as int) == prefix);
            assert(path[prefix.len() as int] == prefix.push('/')[prefix.len() as int]);
            assert(boundary);
        }
        if boundary {
            assert(path.subrange(0, prefix.len() + 1 as int) =~= prefix.push('/'));
        }
    }
    assert(spec_cond <==> (path == prefix || boundary));
}

/// A pattern with no `:param` segment that is not a catch-all matches a path
/// exactly when their segments are equal, and then captures nothing.
pub proof fn lemma_static_pattern(pattern: Seq<char>, path: Seq<char>)
    requires
        !is_catch_all(pattern),
        forall|i: int| 0 <= i < segments(pattern).len() ==> !is_param(#[trigger] segments(pattern)[i]),
    ensures
        pattern_match(pattern, path) is Some <==> segments(pattern) == segments(path),
        pattern_match(pattern, path) is Some ==> pattern_match(pattern, path)->0 == Map::<Seq<char>, Seq<char>>::empty(),
{
    let pp = segments(pattern);
    let ps = segments(path);
    if segments_agree(pp, ps) {
        assert(pp =~= ps);
    }
    lemma_captures_of_literals(pp, ps);
}

proof fn lemma_captures_of_literals(pattern: Seq<Seq<char>>, path: Seq<Seq<char>>)
    requires
        forall|i: int| 0 <= i < pattern.len() ==> !is_param(#[trigger] pattern[i]),
    ensures
        captures(pattern, path) == Map::<Seq<char>, Seq<char>>::empty(),
    decreases pattern.len(),
{
    if pattern.len() > 0 && path.len() > 0 {
        assert forall|i: int| 0 <= i < pattern.drop_last().len() implies !is_param(#[trigger] pattern.drop_last()[i]) by {
            assert(pattern.drop_last()[i] == pattern[i]);
        }
        lemma_captures_of_literals(pattern.drop_last(), path.drop_last());
        assert(!is_param(pattern[pattern.len() - 1]));
    }
}

/// The first value of a query parameter is the first of all its values, and
/// the query map holds exactly the first values.
pub proof fn lemma_query_first_wins(q: Seq<(Seq<char>, Seq<char>)>, name: Seq<char>)
    ensures
        first_value(q, name) == (if values_for(q, name).len() > 0 {
            Some(values_for(q, name)[0])
        } else {
            None
        }),
        first_wins(q).dom().contains(name) <==> values_for(q, name).len() > 0,
        first_wins(q).dom().contains(name) ==> first_wins(q)[name] == values_for(q, name)[0],
{
    crate::bindings::lemma_first_value_is_first_of_all(q, name);
}

/// A path parameter a script can read was captured: `param` has a value
/// only for names `has_param` reports. It has one exactly when some capture
/// under that name is valid UTF-8.
pub proof fn lemma_readable_params_were_captured(p: Seq<(Seq<char>, Seq<u8>)>, name: Seq<char>)
    ensures
        decoded_params(p).dom().contains(name) <==> exists|i: int|
            0 <= i < p.len() && p[i].0 == name && valid_utf8(p[i].1),
        decoded_params(p).dom().contains(name) ==> p.map_values(|x: (Seq<char>, Seq<u8>)| x.0).contains(name),
    decreases p.len(),
{
    if p.len() > 0 {
        let init = p.drop_last();
        lemma_readable_params_were_captured(init, name);
        if decoded_params(p).dom().contains(name) {
            if !(p.last().0 == name && valid_utf8(p.last().1)) {
                let i = choose|i: int| 0 <= i < init.len() && init[i].0 == name && valid_utf8(init[i].1);
                assert(p[i] == init[i]);
            } else {
                assert(p[p.len() - 1] == p.last());
            }
        }
        if exists|i: int| 0 <= i < p.len() && p[i].0 == name && valid_utf8(p[i].1) {
            let i = choose|i: int| 0 <= i < p.len() && p[i].0 == name && valid_utf8(p[i].1);
            if i < p.len() - 1 {
                assert(init[i] == p[i]);
            }
        }
        if decoded_params(p).dom().contains(name) {
            let i = choose|i: int| 0 <= i < p.len() && p[i].0 == name && valid_utf8(p[i].1);
            assert(p.map_values(|x: (Seq<char>, Seq<u8>)| x.0)[i] == name);
        }
    }
}

/// A lookup finds the script last inserted for a path with the same
/// components, however it is spelled; inserting for one path leaves the
/// entry of every path with other components as it was; after a removal, a
/// lookup of that path misses.
pub proof fn lemma_cache_read_after_write<S>(
    before: ScriptCache<S>,
    inserted: ScriptCache<S>,
    removed: ScriptCache<S>,
    path: Seq<char>,
    script: S,
    same: Seq<char>,
    other: Seq<char>,
)
    requires
        inserted.entries() == before.entries().insert(path_components(path), script),
        removed.entries() == inserted.entries().remove(path_components(path)),
        path_components(same) == path_components(path),
    ensures
        inserted.entries().dom().contains(path_components(same)),
        inserted.entries()[path_components(same)] == script,
        path_components(other) != path_components(path) ==> (inserted.entries().dom().contains(
            path_components(other),
        ) <==> before.entries().dom().contains(path_components(other))),
        path_components(other) != path_components(path) && before.entries().dom().contains(path_components(other))
            ==> inserted.entries()[path_components(other)] == before.entries()[path_components(other)],
        !removed.entries().dom().contains(path_components(same)),
        path_components(other) != path_components(path) ==> (removed.entries().dom().contains(
            path_components(other),
        ) <==> before.entries().dom().contains(path_components(other))),
{
}

/// No changed script is lost by the debouncer: a changed script is pending
/// after its change; later changes keep every pending script, and never
/// list one twice; and a tick that comes at least the quiet period after
/// the last change reports (by `Debouncer::on_tick`) every pending script.
pub proof fn lemma_changed_scripts_are_kept(v: DebounceView, path: Seq<char>, now: u64, q: Seq<char>, tick: u64)
    ensures
        has_extension(path, script_extension()) ==> after_change(v, path, now).pending.contains(path),
        v.pending.contains(q) ==> after_change(v, path, now).pending.contains(q),
        v.pending.no_duplicates() ==> after_change(v, path, now).pending.no_duplicates(),
        has_extension(path, script_extension()) && elapsed(tick, now) >= v.quiet_ms ==> tick_reports(
            after_change(v, path, now),
            tick,
        ),
{
    if has_extension(path, script_extension()) && !v.pending.contains(path) {
        let p = v.pending.push(path);
        assert(p[p.len() - 1] == path);
        if v.pending.contains(q) {
            let i = choose|i: int| 0 <= i < v.pending.len() && v.pending[i] == q;
            assert(p[i] == q);
        }
        if v.pending.no_duplicates() {
            assert forall|a: int, b: int| 0 <= a < b < p.len() implies p[a] != p[b] by {
                if b == v.pending.len() {
                    assert(p[a] == v.pending[a]);
                } else {
                    assert(p[a] == v.pending[a]);
                    assert(p[b] == v.pending[b]);
                }
            }
        }
    }
}

/// The after middleware that runs next on a response: from position `from`
/// on, the first middleware with an `after` script, or none.
proof fn lemma_first_after_from(rv: RouterView, from: int, response: ResponseView, j: int)
    requires
        0 <= from <= rv.middleware.len(),
    ensures
        from <= j < rv.middleware.len() && rv.middleware[j].after is Some && (forall|k: int|
            from <= k < j ==> #[trigger] rv.middleware[k].after is None) ==> enter_after(rv, from, response) == (
            StageView::After { index: j as nat },
            ActionView::RunAfter { index: j as nat, script: rv.middleware[j].after.unwrap(), response },
        ),
        (forall|k: int| from <= k < rv.middleware.len() ==> #[trigger] rv.middleware[k].after is None)
            ==> enter_after(rv, from, response) == (StageView::Done, ActionView::Respond { response }),
{
    lemma_after_order(rv.middleware, from);
    let n = next_after(rv.middleware, from);
    if from <= j < rv.middleware.len() && rv.middleware[j].after is Some && (forall|k: int|
        from <= k < j ==> #[trigger] rv.middleware[k].after is None) {
        if n < j {
            assert(rv.middleware[n].after is None);
        }
        if n > j {
            assert(rv.middleware[j].after is None);
        }
    }
    if forall|k: int| from <= k < rv.middleware.len() ==> #[trigger] rv.middleware[k].after is None {
        if n < rv.middleware.len() {
            assert(rv.middleware[n].after is None);
        }
    }
}

/// Every after middleware runs on the response, in the order added: when
/// the handler, or the after middleware at position `i`, answers with a
/// response, the next middleware with an `after` script runs on exactly that
/// response; only when no such middleware is left is the response final.
pub proof fn lemma_after_middleware_chain(
    rv: RouterView,
    i: nat,
    response: ResponseBinding,
    method: Seq<char>,
    target: Seq<char>,
    j: int,
)
    requires
        i < rv.middleware.len(),
    ensures
        i < j < rv.middleware.len() && rv.middleware[j].after is Some && (forall|k: int|
            i < k < j ==> #[trigger] rv.middleware[k].after is None) ==> next_step(
            rv,
            StageView::After { index: i },
            ScriptOutcome::Respond(response),
            method,
            target,
        ) == (
            StageView::After { index: j as nat },
            ActionView::RunAfter { index: j as nat, script: rv.middleware[j].after.unwrap(), response: response@ },
        ),
        (forall|k: int| i < k < rv.middleware.len() ==> #[trigger] rv.middleware[k].after is None) ==> next_step(
            rv,
            StageView::After { index: i },
            ScriptOutcome::Respond(response),
            method,
            target,
        ) == (StageView::Done, ActionView::Respond { response: response@ }),
        0 <= j < rv.middleware.len() && rv.middleware[j].after is Some && (forall|k: int|
            0 <= k < j ==> #[trigger] rv.middleware[k].after is None) ==> next_step(
            rv,
            StageView::Handler,
            ScriptOutcome::Respond(response),
            method,
            target,
        ) == (
            StageView::After { index: j as nat },
            ActionView::RunAfter { index: j as nat, script: rv.middleware[j].after.unwrap(), response: response@ },
        ),
{
    lemma_first_after_from(rv, i + 1 as int, response@, j);
    lemma_first_after_from(rv, 0, response@, j);
}

/// A pattern that is not a catch-all matches a path exactly when both have
/// the same number of non-empty segments and every literal segment of the
/// pattern (one not starting with `:`) equals the path's segment at the
/// same position, whatever `:name` segments the pattern also has.
pub proof fn lemma_literal_segments_must_agree(pattern: Seq<char>, path: Seq<char>)
    requires
        !(pattern.len() >= 2 && pattern[pattern.len() - 2] == '/' && pattern[pattern.len() - 1] == '*'),
    ensures
        pattern_match(pattern, path) is Some <==> (segments(pattern).len() == segments(path).len() && forall|
            i: int,
        |
            0 <= i < segments(pattern).len() && (segments(pattern)[i].len() == 0 || segments(pattern)[i][0] != ':')
                ==> #[trigger] segments(pattern)[i] == segments(path)[i]),
{
    let pp = segments(pattern);
    let ps = segments(path);
    if pattern_match(pattern, path) is Some {
        assert forall|i: int|
            0 <= i < pp.len() && (pp[i].len() == 0 || pp[i][0] != ':') implies #[trigger] pp[i] == ps[i] by {
            assert(!is_param(pp[i]));
        }
    }
    if pp.len() == ps.len() && forall|i: int|
        0 <= i < pp.len() && (pp[i].len() == 0 || pp[i][0] != ':') ==> #[trigger] pp[i] == ps[i] {
        assert forall|i: int| 0 <= i < pp.len() && !is_param(#[trigger] pp[i]) implies pp[i] == ps[i] by {
            assert(pp[i].len() == 0 || pp[i][0] != ':');
        }
    }
}

/// Whether a route answers a request, spelled out: a route restricted to a
/// method answers only that method's token; a route for any method answers
/// every token; and its pattern must match the routing path.
pub open spec fn answers(r: RouteSpec, method: Seq<char>, path: Seq<char>) -> bool {
    &&& (r.method is None || method_token(r.method.unwrap()) == method)
    &&& pattern_match(r.pattern, path) is Some
}

/// The route found for a request is the first, in the order added, that
/// answers it; a route added for any method answers every method, so with
/// one whose pattern matches, some route is always found, at or before it.
pub proof fn lemma_route_lookup(routes: Seq<RouteSpec>, method: Seq<char>, path: Seq<char>, i: int)
    ensures
        first_route(routes, method, path) matches Some(k) ==> 0 <= k < routes.len() && answers(
            routes[k],
            method,
            path,
        ) && forall|j: int| 0 <= j < k ==> !answers(#[trigger] routes[j], method, path),
        first_route(routes, method, path) is None ==> forall|j: int|
            0 <= j < routes.len() ==> !answers(#[trigger] routes[j], method, path),
        0 <= i < routes.len() && routes[i].method is None && pattern_match(routes[i].pattern, path) is Some
            ==> (first_route(routes, method, path) matches Some(k) && k <= i),
{
    lemma_route_lookup_from(routes, method, path, 0);
}

proof fn lemma_route_lookup_from(routes: Seq<RouteSpec>, method: Seq<char>, path: Seq<char>, from: int)
    requires
        0 <= from,
    ensures
        first_route_from(routes, method, path, from) matches Some(k) ==> from <= k < routes.len() && answers(
            routes[k],
            method,
            path,
        ) && forall|j: int| from <= j < k ==> !answers(#[trigger] routes[j], method, path),
        first_route_from(routes, method, path, from) is None ==> forall|j: int|
            from <= j < routes.len() ==> !answers(#[trigger] routes[j], method, path),
    decreases routes.len() - from,
{
    if from < routes.len() {
        lemma_route_lookup_from(routes, method, path, from + 1);
    }
}

/// Appending a component to a script's path below the routes directory
/// adds one segment to its route, after a `/`: the component's name without
/// its `.rhai` suffixes, where a name in brackets, `[id]`, becomes the
/// parameter `:id`, whether it names a directory or the script itself; an
/// `index` name adds nothing.
pub proof fn lemma_route_for_component(parts: Seq<PartView>, n: Seq<char>)
    ensures
        ({
            let before = route_for(parts);
            let after = route_for(parts.push(PartView::Normal(n)));
            let name = trim_rhai(n);
            let sep = if before.len() > 0 && before.last() == '/' {
                before
            } else {
                before.push('/')
            };
            &&& name == seq!['i', 'n', 'd', 'e', 'x'] ==> after == before
            &&& name != seq!['i', 'n', 'd', 'e', 'x'] && name.len() > 0 && name[0] == '[' && name[name.len() - 1]
                == ']' ==> after == sep + seq![':'] + name.subrange(1, name.len() - 1)
            &&& name != seq!['i', 'n', 'd', 'e', 'x'] && !(name.len() > 0 && name[0] == '[' && name[name.len()
                - 1] == ']') ==> after == sep + name
        }),
{
    let p = parts.push(PartView::Normal(n));
    assert(p.drop_last() =~= parts);
    let name = trim_rhai(n);
    if name.len() > 0 {
        assert(name.last() == name[name.len() - 1]);
    }
}

/// The response a script's `response` variable starts as: `200`, with no
/// headers, cookies or body.
pub open spec fn fresh_response() -> ResponseView {
    ResponseView { status: 200, headers: Map::empty(), cookies: Seq::empty(), body: None }
}

/// What a handler script's result becomes: a returned binding answers; else
/// a `response` variable the script changed from the fresh `200` answers,
/// whatever the result was (string, map, array or anything else); else a
/// string is a `200` plain-text body, a map or array goes out as JSON, and
/// anything else is the fresh `200`.
pub proof fn lemma_handler_result(result: ScriptValue, in_scope: Option<ResponseView>)
    ensures
        result matches ScriptValue::Response(b) ==> handler_response(result, in_scope) == Some(b@),
        (!(result is Response) && (in_scope matches Some(r) && r != fresh_response())) ==> handler_response(
            result,
            in_scope,
        ) == in_scope,
        !(in_scope matches Some(r) && r != fresh_response()) ==> (match result {
            ScriptValue::Response(b) => handler_response(result, in_scope) == Some(b@),
            ScriptValue::Text(t) => handler_response(result, in_scope) == Some(
                ResponseView {
                    status: 200,
                    headers: Map::empty().insert("content-type"@, "text/plain"@),
                    cookies: Seq::empty(),
                    body: Some(encode_utf8(t@)),
                },
            ),
            ScriptValue::Collection => handler_response(result, in_scope) is None,
            ScriptValue::Other => handler_response(result, in_scope) == Some(fresh_response()),
        }),
{
    assert(fresh_response() == bare_response(200));
}

/// Every discovered route pattern starts at the root.
pub proof fn lemma_route_starts_with_slash(parts: Seq<PartView>)
    ensures
        route_for(parts).len() > 0,
        route_for(parts)[0] == '/',
    decreases parts.len(),
{
    if parts.len() > 0 {
        lemma_route_starts_with_slash(parts.drop_last());
    }
}

/// A response from a `before` script answers the request at once: no
/// handler and no after middleware run.
pub proof fn lemma_short_circuit_is_final(
    rv: RouterView,
    index: nat,
    response: crate::bindings::ResponseBinding,
    method: Seq<char>,
    target: Seq<char>,
)
    ensures
        next_step(rv, StageView::Before { index }, ScriptOutcome::Respond(response), method, target) == (
        StageView::Done,
        ActionView::Respond { response: response@ },
        ),
{
}

/// Without middleware and scripts for errors and unmatched requests, a
/// request no route answers gets the plain `404 Not Found`, and a failing
/// handler gets the plain `500` with the error's message.
pub proof fn lemma_default_responses(rv: RouterView, method: Seq<char>, target: Seq<char>, e: crate::error::RhaiError)
    requires
        rv.middleware.len() == 0,
        rv.not_found_script is None,
        rv.error_script is None,
    ensures
        first_route(rv.routes, method, path_only(target)) is None ==> enter_before(rv, 0, method, target) == (
            StageView::Done,
            ActionView::Respond { response: not_found_response() },
        ),
        next_step(rv, StageView::Handler, ScriptOutcome::Failed(e), method, target) == (
            StageView::Done,
            ActionView::Respond { response: error_response(error_text(e)) },
        ),
{
}

/// The before middleware run in the order they were added, each with a
/// `before` script, skipping those without one.
pub proof fn lemma_before_order(mw: Seq<crate::router::MiddlewareSpec>, i: int)
    requires
        0 <= i <= mw.len(),
    ensures
        i <= next_before(mw, i) <= mw.len(),
        next_before(mw, i) < mw.len() ==> mw[next_before(mw, i)].before is Some,
        forall|j: int| i <= j < next_before(mw, i) ==> #[trigger] mw[j].before is None,
    decreases mw.len() - i,
{
    if i < mw.len() && mw[i].before is None {
        lemma_before_order(mw, i + 1);
    }
}

/// The after middleware run in the order they were added, each with an
/// `after` script, skipping those without one.
pub proof fn lemma_after_order(mw: Seq<crate::router::MiddlewareSpec>, i: int)
    requires
        0 <= i <= mw.len(),
    ensures
        i <= next_after(mw, i) <= mw.len(),
        next_after(mw, i) < mw.len() ==> mw[next_after(mw, i)].after is Some,
        forall|j: int| i <= j < next_after(mw, i) ==> #[trigger] mw[j].after is None,
    decreases mw.len() - i,
{
    if i < mw.len() && mw[i].after is None {
        lemma_after_order(mw, i + 1);
    }
}

/// How far a request is from its response.
pub open spec fn remaining_steps(rv: RouterView, stage: StageView) -> int {
    let n = rv.middleware.len() as int;
    match stage {
        StageView::Done => 0,
        StageView::ErrorHandler { then_after, .. } => if then_after { n + 3 } else { 1 },
        StageView::After { index } => 2 + n - index,
        StageView::Handler => n + 4,
        StageView::NotFound => n + 4,
        StageView::Before { index } => 2 * n + 5 - index,
    }
}

/// Whether a stage names middleware that exists.
pub open spec fn stage_in_bounds(rv: RouterView, stage: StageView) -> bool {
    match stage {
        StageView::Before { index } => index < rv.middleware.len(),
        StageView::After { index } => index < rv.middleware.len(),
        _ => true,
    }
}

proof fn lemma_enter_after_progress(rv: RouterView, i: int, response: crate::bindings::ResponseView)
    requires
        0 <= i <= rv.middleware.len(),
    ensures
        stage_in_bounds(rv, enter_after(rv, i, response).0),
        remaining_steps(rv, enter_after(rv, i, response).0) <= 2 + rv.middleware.len() - i,
        enter_after(rv, i, response).0 is After || enter_after(rv, i, response).0 is Done,
{
    lemma_after_order(rv.middleware, i);
}

proof fn lemma_enter_error_progress(rv: RouterView, message: Seq<char>, then_after: bool)
    ensures
        stage_in_bounds(rv, enter_error(rv, message, then_after).0),
        remaining_steps(rv, enter_error(rv, message, then_after).0) <= (if then_after {
            rv.middleware.len() + 3
        } else {
            1
        }),
{
    lemma_enter_after_progress(rv, 0, error_response(message));
}

proof fn lemma_enter_route_progress(rv: RouterView, method: Seq<char>, target: Seq<char>)
    ensures
        stage_in_bounds(rv, enter_route(rv, method, target).0),
        remaining_steps(rv, enter_route(rv, method, target).0) <= rv.middleware.len() + 4,
{
    lemma_enter_after_progress(rv, 0, not_found_response());
}

proof fn lemma_enter_before_progress(rv: RouterView, i: int, method: Seq<char>, target: Seq<char>)
    requires
        0 <= i <= rv.middleware.len(),
    ensures
        stage_in_bounds(rv, enter_before(rv, i, method, target).0),
        remaining_steps(rv, enter_before(rv, i, method, target).0) <= 2 * rv.middleware.len() + 5 - i,
{
    lemma_before_order(rv.middleware, i);
    lemma_enter_route_progress(rv, method, target);
}

/// Every request gets a response: each step from a stage that is not done
/// brings the request strictly closer to its response, and names only
/// middleware that exists.
pub proof fn lemma_pipeline_progress(
    rv: RouterView,
    stage: StageView,
    outcome: ScriptOutcome,
    method: Seq<char>,
    target: Seq<char>,
)
    requires
        !(stage is Done),
        stage_in_bounds(rv, stage),
        outcome is Continue ==> stage is Before,
    ensures
        stage_in_bounds(rv, next_step(rv, stage, outcome, method, target).0),
        0 <= remaining_steps(rv, next_step(rv, stage, outcome, method, target).0) < remaining_steps(rv, stage),
{
    let n = rv.middleware.len() as int;
    match stage {
        StageView::Before { index } => {
            lemma_enter_before_progress(rv, index + 1 as int, method, target);
            lemma_enter_error_progress(rv, error_text_of(outcome), false);
        },
        StageView::Handler => {
            lemma_enter_error_progress(rv, error_text_of(outcome), true);
            match outcome {
                ScriptOutcome::Respond(r) => lemma_enter_after_progress(rv, 0, r@),
                _ => {},
            }
        },
        StageView::NotFound => {
            match outcome {
                ScriptOutcome::Respond(r) => lemma_enter_after_progress(rv, 0, r@),
                _ => lemma_enter_after_progress(rv, 0, not_found_response()),
            }
        },
        StageView::After { index } => {
            lemma_enter_error_progress(rv, error_text_of(outcome), false);
            match outcome {
                ScriptOutcome::Respond(r) => lemma_enter_after_progress(rv, index + 1 as int, r@),
                _ => {},
            }
        },
        StageView::ErrorHandler { message, then_after } => {
            match outcome {
                ScriptOutcome::Respond(r) => lemma_enter_after_progress(rv, 0, r@),
                _ => lemma_enter_after_progress(rv, 0, error_response(message)),
            }
        },
        StageView::Done => {},
    }
}

spec fn error_text_of(outcome: ScriptOutcome) -> Seq<char> {
    match outcome {
        ScriptOutcome::Failed(e) => error_text(e),
        _ => Seq::empty(),
    }
}

} // verus!
