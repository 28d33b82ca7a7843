//! What holds of breakpoints whatever the request: their lifetimes, their number and where they stand.

use vstd::prelude::*;

use crate::cache;
use crate::config::BREAKPOINT_CEILING;
use crate::json;
use crate::json::JsonView;

verus! {

/// Every breakpoint in `v`, not counting inside control values, lives for `ttl`.
pub open spec fn all_timed(v: JsonView, ttl: Seq<char>) -> bool
    decreases v,
{
    match v {
        JsonView::Arr(a) => forall|i: int| 0 <= i < a.len() ==> all_timed(#[trigger] a[i], ttl),
        JsonView::Obj(o) => forall|i: int|
            0 <= i < o.len() ==> if (#[trigger] o[i]).0 == "cache_control"@ {
                control_timed(o[i].1, ttl)
            } else {
                all_timed(o[i].1, ttl)
            },
        _ => true,
    }
}

/// The control value lives for `ttl`, where it makes a breakpoint.
pub open spec fn control_timed(c: JsonView, ttl: Seq<char>) -> bool {
    cache::ephemeral(c) ==> json::text_field(c, "ttl"@) == Some(ttl)
}

/// The entry lives for `ttl`.
pub open spec fn entry_timed(e: (Seq<char>, JsonView), ttl: Seq<char>) -> bool {
    if e.0 == "cache_control"@ {
        control_timed(e.1, ttl)
    } else {
        all_timed(e.1, ttl)
    }
}

pub proof fn lemma_all_timed(v: JsonView, ttl: Seq<char>)
    ensures
        all_timed(v, ttl) == (match v {
            JsonView::Arr(a) => forall|i: int|
                0 <= i < a.len() ==> all_timed(#[trigger] a[i], ttl),
            JsonView::Obj(o) => forall|i: int|
                0 <= i < o.len() ==> entry_timed(#[trigger] o[i], ttl),
            _ => true,
        }),
{
    reveal_with_fuel(all_timed, 2);
}

/// Giving a control value a lifetime leaves it what it is otherwise.
pub proof fn lemma_retimed_control(c: JsonView, ttl: Seq<char>)
    ensures
        cache::ephemeral(cache::retimed_control(c, ttl)) == cache::ephemeral(c),
        control_timed(cache::retimed_control(c, ttl), ttl),
        cache::retimed_control(cache::retimed_control(c, ttl), ttl) == cache::retimed_control(
            c,
            ttl,
        ),
{
    broadcast use json::group_json_fields;

    reveal_strlit("type");
    reveal_strlit("ttl");
    assert("type"@.len() != "ttl"@.len());
}

/// After the breakpoints of a value are given a lifetime, all of them have it.
pub proof fn law_retimed_breakpoints_are_timed(v: JsonView, ttl: Seq<char>)
    ensures
        all_timed(cache::retimed(v, ttl), ttl),
    decreases v,
{
    cache::lemma_retimed(v, ttl);
    lemma_all_timed(cache::retimed(v, ttl), ttl);
    match v {
        JsonView::Arr(a) => {
            let b = cache::retimed_items(a, ttl);
            assert forall|i: int| 0 <= i < b.len() implies all_timed(#[trigger] b[i], ttl) by {
                law_retimed_breakpoints_are_timed(a[i], ttl);
            }
        },
        JsonView::Obj(o) => {
            let b = cache::retimed_entries(o, ttl);
            assert forall|i: int| 0 <= i < b.len() implies entry_timed(#[trigger] b[i], ttl) by {
                if o[i].0 == "cache_control"@ {
                    lemma_retimed_control(o[i].1, ttl);
                } else {
                    law_retimed_breakpoints_are_timed(o[i].1, ttl);
                }
            }
        },
        _ => {},
    }
}

/// Giving breakpoints the lifetime that they have changes nothing.
pub proof fn law_retiming_is_idempotent(v: JsonView, ttl: Seq<char>)
    ensures
        cache::retimed(cache::retimed(v, ttl), ttl) == cache::retimed(v, ttl),
    decreases v,
{
    let w = cache::retimed(v, ttl);
    cache::lemma_retimed(v, ttl);
    cache::lemma_retimed(w, ttl);
    match v {
        JsonView::Arr(a) => {
            let b = cache::retimed_items(a, ttl);
            assert forall|i: int| 0 <= i < a.len() implies cache::retimed(#[trigger] b[i], ttl)
                == b[i] by {
                law_retiming_is_idempotent(a[i], ttl);
            }
            assert(cache::retimed_items(b, ttl) =~= b);
        },
        JsonView::Obj(o) => {
            let b = cache::retimed_entries(o, ttl);
            assert forall|i: int| 0 <= i < o.len() implies cache::retimed_entry(
                #[trigger] b[i],
                ttl,
            ) == b[i] by {
                if o[i].0 == "cache_control"@ {
                    lemma_retimed_control(o[i].1, ttl);
                } else {
                    law_retiming_is_idempotent(o[i].1, ttl);
                }
            }
            assert(cache::retimed_entries(b, ttl) =~= b);
        },
        _ => {},
    }
}

pub proof fn lemma_keys()
    ensures
        "tools"@ != "system"@,
        "tools"@ != "messages"@,
        "system"@ != "messages"@,
        "content"@ != "cache_control"@,
        "tools"@ != "cache_control"@,
        "system"@ != "cache_control"@,
        "messages"@ != "cache_control"@,
        "content"@ != "role"@,
{
    reveal_strlit("tools");
    reveal_strlit("system");
    reveal_strlit("messages");
    reveal_strlit("content");
    reveal_strlit("cache_control");
    reveal_strlit("role");
    assert("tools"@.len() == 5 && "system"@.len() == 6 && "messages"@.len() == 8 && "content"@.len()
        == 7 && "cache_control"@.len() == 13 && "role"@.len() == 4);
}

/// After lifetimes are set, every breakpoint outside the last message lives an hour and every one in
/// the last message as long as the rolling tail is to.
pub proof fn law_all_breakpoints_are_timed(body: JsonView, tail: Seq<char>)
    ensures
        ({
            let b = cache::ttls_applied(body, tail);
            &&& all_timed(cache::without_last(b), "1h"@)
            &&& cache::last_message(b) matches Some(m) ==> all_timed(m, tail)
        }),
{
    cache::lemma_ttls(body, tail);
    law_retimed_breakpoints_are_timed(cache::without_last(body), "1h"@);
    if let Some(m) = cache::last_message(body) {
        law_retimed_breakpoints_are_timed(m, tail);
    }
}

pub proof fn lemma_total_member(s: Seq<nat>, i: int)
    requires
        0 <= i < s.len(),
    ensures
        s[i] <= cache::total(s),
    decreases s.len(),
{
    if i < s.len() - 1 {
        lemma_total_member(s.drop_last(), i);
    }
}

/// Giving breakpoints a lifetime changes nothing in a value that holds none.
pub proof fn law_retiming_leaves_the_rest(v: JsonView, ttl: Seq<char>)
    requires
        cache::tally(v, false) == 0,
        cache::tally(v, true) == 0,
    ensures
        cache::retimed(v, ttl) == v,
    decreases v,
{
    cache::lemma_retimed(v, ttl);
    cache::lemma_tally(v, false);
    cache::lemma_tally(v, true);
    match v {
        JsonView::Arr(a) => {
            assert forall|i: int| 0 <= i < a.len() implies cache::retimed(#[trigger] a[i], ttl)
                == a[i] by {
                lemma_total_member(cache::tallies(a, false), i);
                lemma_total_member(cache::tallies(a, true), i);
                law_retiming_leaves_the_rest(a[i], ttl);
            }
            assert(cache::retimed_items(a, ttl) =~= a);
        },
        JsonView::Obj(o) => {
            assert forall|i: int| 0 <= i < o.len() implies cache::retimed_entry(
                #[trigger] o[i],
                ttl,
            ) == o[i] by {
                lemma_total_member(cache::entry_tallies(o, false), i);
                lemma_total_member(cache::entry_tallies(o, true), i);
                if o[i].0 != "cache_control"@ {
                    law_retiming_leaves_the_rest(o[i].1, ttl);
                }
            }
            assert(cache::retimed_entries(o, ttl) =~= o);
        },
        _ => {},
    }
}

/// Setting lifetimes leaves what stands under a key as it is, but for the messages, where it holds no
/// breakpoint and makes none.
pub proof fn law_ttls_leave_the_rest(body: JsonView, tail: Seq<char>, k: Seq<char>)
    requires
        k != "messages"@,
        json::field(body, k) matches Some(x) ==> cache::entry_tally((k, x), false) == 0
            && cache::entry_tally((k, x), true) == 0,
    ensures
        json::field(cache::ttls_applied(body, tail), k) == json::field(body, k),
{
    broadcast use json::group_json_fields;

    cache::lemma_field_retimed(body, "1h"@, k);
    if let Some(x) = json::field(body, k) {
        if k != "cache_control"@ {
            law_retiming_leaves_the_rest(x, "1h"@);
        }
    }
}

/// Setting lifetimes twice is setting them once.
pub proof fn law_ttls_are_idempotent(body: JsonView, tail: Seq<char>)
    ensures
        cache::ttls_applied(cache::ttls_applied(body, tail), tail) == cache::ttls_applied(
            body,
            tail,
        ),
{
    broadcast use json::group_json_fields;

    let r = cache::retimed(body, "1h"@);
    lemma_keys();
    law_retiming_is_idempotent(body, "1h"@);
    cache::lemma_field_retimed(body, "1h"@, "messages"@);
    cache::lemma_retimed(body, "1h"@);
    match json::field(body, "messages"@) {
        Some(JsonView::Arr(ms)) => {
            let rs = cache::retimed_messages(ms, tail);
            let x = JsonView::Arr(rs);
            assert forall|i: int| 0 <= i < ms.len() implies cache::retimed(
                #[trigger] rs[i],
                if i + 1 == ms.len() {
                    tail
                } else {
                    "1h"@
                },
            ) == rs[i] by {
                if i + 1 == ms.len() {
                    law_retiming_is_idempotent(ms[i], tail);
                } else {
                    law_retiming_is_idempotent(ms[i], "1h"@);
                }
            }
            assert(cache::retimed_messages(rs, tail) =~= rs);
            cache::lemma_retimed_with(r, "messages"@, x, "1h"@);
            json::lemma_with_twice(r, "messages"@, cache::retimed(x, "1h"@), x);
        },
        Some(x) => {
            cache::lemma_retimed(x, "1h"@);
        },
        None => {},
    }
}

proof fn lemma_total_zero(s: Seq<nat>)
    requires
        forall|i: int| 0 <= i < s.len() ==> #[trigger] s[i] == 0,
    ensures
        cache::total(s) == 0,
    decreases s.len(),
{
    if s.len() > 0 {
        lemma_total_zero(s.drop_last());
        assert(s[s.len() - 1] == 0);
    }
}

pub proof fn lemma_total_sum(a: Seq<nat>, b: Seq<nat>, c: Seq<nat>)
    requires
        a.len() == b.len(),
        a.len() == c.len(),
        forall|i: int| 0 <= i < a.len() ==> #[trigger] c[i] == a[i] + b[i],
    ensures
        cache::total(c) == cache::total(a) + cache::total(b),
    decreases a.len(),
{
    if a.len() > 0 {
        lemma_total_sum(a.drop_last(), b.drop_last(), c.drop_last());
        assert(c[a.len() - 1] == a[a.len() - 1] + b[a.len() - 1]);
    }
}

proof fn lemma_retimed_control_tally(c: JsonView)
    ensures
        cache::control_tally(cache::retimed_control(c, "1h"@), false) == 0,
        cache::control_tally(cache::retimed_control(c, "1h"@), true) == cache::control_tally(
            c,
            false,
        ) + cache::control_tally(c, true),
{
    lemma_retimed_control(c, "1h"@);
}

/// Giving every breakpoint an hour loses none and makes none: those that live an hour afterwards are
/// those that did and those that did not.
pub proof fn law_retiming_keeps_the_tally(v: JsonView)
    ensures
        cache::tally(cache::retimed(v, "1h"@), false) == 0,
        cache::tally(cache::retimed(v, "1h"@), true) == cache::tally(v, false) + cache::tally(
            v,
            true,
        ),
    decreases v,
{
    let w = cache::retimed(v, "1h"@);
    cache::lemma_retimed(v, "1h"@);
    cache::lemma_tally(v, false);
    cache::lemma_tally(v, true);
    cache::lemma_tally(w, false);
    cache::lemma_tally(w, true);
    match v {
        JsonView::Arr(a) => {
            let b = cache::retimed_items(a, "1h"@);
            let ts = cache::tallies(b, true);
            let fs = cache::tallies(b, false);
            assert forall|i: int| 0 <= i < a.len() implies #[trigger] fs[i] == 0 && ts[i]
                == cache::tallies(a, false)[i] + cache::tallies(a, true)[i] by {
                law_retiming_keeps_the_tally(a[i]);
            }
            assert forall|i: int| 0 <= i < a.len() implies #[trigger] ts[i] == cache::tallies(
                a,
                false,
            )[i] + cache::tallies(a, true)[i] by {
                assert(fs[i] == 0);
            }
            lemma_total_zero(fs);
            lemma_total_sum(cache::tallies(a, false), cache::tallies(a, true), ts);
        },
        JsonView::Obj(o) => {
            let b = cache::retimed_entries(o, "1h"@);
            let ts = cache::entry_tallies(b, true);
            let fs = cache::entry_tallies(b, false);
            assert forall|i: int| 0 <= i < o.len() implies #[trigger] fs[i] == 0 && ts[i]
                == cache::entry_tallies(o, false)[i] + cache::entry_tallies(o, true)[i] by {
                if o[i].0 == "cache_control"@ {
                    lemma_retimed_control_tally(o[i].1);
                } else {
                    law_retiming_keeps_the_tally(o[i].1);
                }
            }
            assert forall|i: int| 0 <= i < o.len() implies #[trigger] ts[i]
                == cache::entry_tallies(o, false)[i] + cache::entry_tallies(o, true)[i] by {
                assert(fs[i] == 0);
            }
            lemma_total_zero(fs);
            lemma_total_sum(cache::entry_tallies(o, false), cache::entry_tallies(o, true), ts);
        },
        _ => {},
    }
}

/// The sums of two lists of counts, item by item.
spec fn summed(a: Seq<nat>, b: Seq<nat>) -> Seq<nat> {
    Seq::new(a.len(), |i: int| a[i] + b[i])
}

/// Giving breakpoints a lifetime, whichever it is, loses none and makes none.
pub proof fn law_retiming_keeps_the_breakpoints(v: JsonView, ttl: Seq<char>)
    ensures
        cache::tally(cache::retimed(v, ttl), false) + cache::tally(cache::retimed(v, ttl), true)
            == cache::tally(v, false) + cache::tally(v, true),
    decreases v,
{
    let w = cache::retimed(v, ttl);
    cache::lemma_retimed(v, ttl);
    cache::lemma_tally(v, false);
    cache::lemma_tally(v, true);
    cache::lemma_tally(w, false);
    cache::lemma_tally(w, true);
    match v {
        JsonView::Arr(a) => {
            let b = cache::retimed_items(a, ttl);
            let before = summed(cache::tallies(a, false), cache::tallies(a, true));
            let after = summed(cache::tallies(b, false), cache::tallies(b, true));
            assert forall|i: int| 0 <= i < a.len() implies #[trigger] after[i] == before[i] by {
                law_retiming_keeps_the_breakpoints(a[i], ttl);
            }
            assert(after =~= before);
            lemma_total_sum(cache::tallies(a, false), cache::tallies(a, true), before);
            lemma_total_sum(cache::tallies(b, false), cache::tallies(b, true), after);
        },
        JsonView::Obj(o) => {
            let b = cache::retimed_entries(o, ttl);
            let before = summed(cache::entry_tallies(o, false), cache::entry_tallies(o, true));
            let after = summed(cache::entry_tallies(b, false), cache::entry_tallies(b, true));
            assert forall|i: int| 0 <= i < o.len() implies #[trigger] after[i] == before[i] by {
                if o[i].0 == "cache_control"@ {
                    lemma_retimed_control(o[i].1, ttl);
                } else {
                    law_retiming_keeps_the_breakpoints(o[i].1, ttl);
                }
            }
            assert(after =~= before);
            lemma_total_sum(cache::entry_tallies(o, false), cache::entry_tallies(o, true), before);
            lemma_total_sum(cache::entry_tallies(b, false), cache::entry_tallies(b, true), after);
        },
        _ => {},
    }
}

/// After lifetimes are set no breakpoint outside the last message is left to rewrite, and none was
/// lost: a second run counts as already set what the first one counted as rewritten or set, and
/// skips as many in the last message.
pub proof fn law_second_run_rewrites_nothing(body: JsonView, tail: Seq<char>)
    ensures
        ({
            let b = cache::ttls_applied(body, tail);
            &&& cache::head_tally(b, false) == 0
            &&& cache::head_tally(b, true) == cache::head_tally(body, false) + cache::head_tally(
                body,
                true,
            )
            &&& cache::tail_tally(b) == cache::tail_tally(body)
        }),
{
    cache::lemma_ttls(body, tail);
    law_retiming_keeps_the_tally(cache::without_last(body));
    if let Some(m) = cache::last_message(body) {
        law_retiming_keeps_the_breakpoints(m, tail);
    }
}

pub proof fn lemma_total_update(s: Seq<nat>, i: int, y: nat)
    requires
        0 <= i < s.len(),
    ensures
        cache::total(s.update(i, y)) + s[i] == cache::total(s) + y,
    decreases s.len(),
{
    if i == s.len() - 1 {
        assert(s.update(i, y).drop_last() =~= s.drop_last());
    } else {
        assert(s.update(i, y).drop_last() =~= s.drop_last().update(i, y));
        lemma_total_update(s.drop_last(), i, y);
    }
}

pub proof fn lemma_total_remove(s: Seq<nat>, i: int)
    requires
        0 <= i < s.len(),
    ensures
        cache::total(s.remove(i)) + s[i] == cache::total(s),
    decreases s.len(),
{
    if i == s.len() - 1 {
        assert(s.remove(i) =~= s.drop_last());
    } else {
        assert(s.remove(i).drop_last() =~= s.drop_last().remove(i));
        assert(s.remove(i).last() == s.last());
        lemma_total_remove(s.drop_last(), i);
    }
}

proof fn lemma_total_bounded(a: Seq<nat>, b: Seq<nat>)
    requires
        a.len() == b.len(),
        forall|i: int| 0 <= i < a.len() ==> #[trigger] a[i] <= b[i],
    ensures
        cache::total(a) <= cache::total(b),
    decreases a.len(),
{
    if a.len() > 0 {
        lemma_total_bounded(a.drop_last(), b.drop_last());
        assert(a[a.len() - 1] <= b[a.len() - 1]);
    }
}

/// The breakpoints under the key `k`.
pub open spec fn count_under(v: JsonView, k: Seq<char>) -> nat {
    match json::field(v, k) {
        Some(x) => cache::count_of(x),
        None => 0,
    }
}

/// `v` counts for one breakpoint itself, or for none.
pub open spec fn own_count(v: JsonView) -> nat {
    if cache::is_marked(v) {
        1
    } else {
        0
    }
}

/// The breakpoints of an object with another value under one key.
pub proof fn lemma_count_with(v: JsonView, k: Seq<char>, x: JsonView)
    requires
        v is Obj,
    ensures
        cache::count_of(json::with_field(v, k, x)) + count_under(v, k) + own_count(v)
            == cache::count_of(v) + cache::count_of(x) + own_count(json::with_field(v, k, x)),
        cache::count_of(v) >= count_under(v, k) + own_count(v),
{
    let w = json::with_field(v, k, x);
    let o = v->Obj_0;
    cache::lemma_count(v);
    cache::lemma_count(w);
    json::lemma_index_of(o, k, 0);
    let cs = cache::entry_counts(o);
    match json::index_of(o, k, 0) {
        Some(i) => {
            assert(cache::entry_counts(w->Obj_0) =~= cs.update(i, cache::count_of(x)));
            lemma_total_update(cs, i, cache::count_of(x));
            lemma_total_remove(cs, i);
        },
        None => {
            let ds = cache::entry_counts(w->Obj_0);
            assert(ds =~= cs.push(cache::count_of(x)));
            assert(ds.drop_last() =~= cs);
        },
    }
}

/// The breakpoints of an array with another item in one place.
pub proof fn lemma_count_update(a: Seq<JsonView>, i: int, y: JsonView)
    requires
        0 <= i < a.len(),
    ensures
        cache::count_of(JsonView::Arr(a.update(i, y))) + cache::count_of(a[i]) == cache::count_of(
            JsonView::Arr(a),
        ) + cache::count_of(y),
{
    cache::lemma_count(JsonView::Arr(a));
    cache::lemma_count(JsonView::Arr(a.update(i, y)));
    let cs = cache::counts(a);
    assert(cache::counts(a.update(i, y)) =~= cs.update(i, cache::count_of(y)));
    lemma_total_update(cs, i, cache::count_of(y));
}

proof fn lemma_plain_pair(k1: Seq<char>, s1: Seq<char>, k2: Seq<char>, s2: Seq<char>)
    requires
        k1 != "cache_control"@,
        k2 != "cache_control"@,
    ensures
        cache::count_of(
            JsonView::Obj(seq![(k1, JsonView::Str(s1)), (k2, JsonView::Str(s2))]),
        ) == 0,
{
    let o = seq![(k1, JsonView::Str(s1)), (k2, JsonView::Str(s2))];
    let v = JsonView::Obj(o);
    cache::lemma_count(v);
    assert forall|m: int| 0 <= m < o.len() implies (#[trigger] o[m]).0 != "cache_control"@ by {
        assert(m == 0 || m == 1);
    }
    json::lemma_index_none(o, "cache_control"@, 0);
    let cs = cache::entry_counts(o);
    assert forall|m: int| 0 <= m < cs.len() implies #[trigger] cs[m] == 0 by {
        assert(m == 0 || m == 1);
        cache::lemma_count(o[m].1);
    }
    lemma_total_zero(cs);
}

pub proof fn lemma_names()
    ensures
        "type"@ != "cache_control"@,
        "ttl"@ != "cache_control"@,
        "text"@ != "cache_control"@,
        "type"@ != "ttl"@,
        "type"@ != "text"@,
{
    reveal_strlit("type");
    reveal_strlit("ttl");
    reveal_strlit("text");
    reveal_strlit("cache_control");
    assert("type"@.len() == 4 && "ttl"@.len() == 3 && "text"@.len() == 4 && "cache_control"@.len()
        == 13);
    assert("type"@[1] == 'y' && "text"@[1] == 'e');
}

/// A fresh control value makes a breakpoint and holds none.
pub proof fn lemma_control(ttl: Seq<char>)
    ensures
        cache::ephemeral(cache::control_of(ttl)),
        json::text_field(cache::control_of(ttl), "ttl"@) == Some(ttl),
        cache::count_of(cache::control_of(ttl)) == 0,
        json::well_formed(cache::control_of(ttl)),
{
    lemma_names();
    let c = cache::control_of(ttl);
    let o = c->Obj_0;
    json::lemma_index_is(o, "type"@, 0, 0);
    assert(o[0].0 != "ttl"@);
    json::lemma_index_is(o, "ttl"@, 0, 1);
    lemma_plain_pair("type"@, "ephemeral"@, "ttl"@, ttl);
    json::lemma_well_formed(c);
    assert forall|i: int| 0 <= i < o.len() implies json::well_formed((#[trigger] o[i]).1) by {
        json::lemma_well_formed(o[i].1);
    }
}

/// Marking an object adds at most one breakpoint, and exactly one where it carries no control value.
pub proof fn lemma_count_marked(v: JsonView, ttl: Seq<char>)
    ensures
        v is Obj ==> cache::is_marked(cache::marked_for(v, ttl)),
        cache::count_of(cache::marked_for(v, ttl)) <= cache::count_of(v) + 1,
        v is Obj && json::field(v, "cache_control"@) is None ==> cache::count_of(
            cache::marked_for(v, ttl),
        ) == cache::count_of(v) + 1,
{
    broadcast use json::group_json_fields;

    if v is Obj {
        lemma_control(ttl);
        lemma_count_with(v, "cache_control"@, cache::control_of(ttl));
    }
}

/// Turning a text into a block adds no breakpoint.
pub proof fn lemma_count_normalized(m: JsonView)
    ensures
        cache::count_of(cache::normalized(m)) == cache::count_of(m),
        m is Obj ==> cache::normalized(m) is Obj,
        json::arr_field(cache::normalized(m), "content"@) matches Some(bs) ==> bs
            == cache::blocks_of(m),
{
    broadcast use json::group_json_fields;

    lemma_keys();
    lemma_names();
    if let Some(JsonView::Str(s)) = json::field(m, "content"@) {
        if s.len() > 0 {
            let block = json::text_block_of(s);
            lemma_plain_pair("type"@, "text"@, "text"@, s);
            let arr = JsonView::Arr(seq![block]);
            cache::lemma_count(arr);
            let cs = cache::counts(seq![block]);
            assert(cs[0] == 0);
            lemma_total_zero(cs);
            cache::lemma_count(JsonView::Str(s));
            lemma_count_with(m, "content"@, arr);
        }
    }
}

/// Marking a message adds one breakpoint where it is open, and none where it is not.
proof fn lemma_count_message(m: JsonView, ttl: Seq<char>)
    ensures
        cache::count_of(cache::message_marked(m, ttl)) == cache::count_of(m) + (
        if cache::open_message(m) {
            1nat
        } else {
            0nat
        }),
{
    broadcast use json::group_json_fields;

    lemma_keys();
    lemma_count_normalized(m);
    if cache::open_message(m) {
        let bs = cache::blocks_of(m);
        cache::lemma_last_cacheable(bs);
        let i = cache::last_cacheable(m)->0;
        let w = cache::normalized(m);
        assert(cache::cacheable(bs[i]));
        lemma_count_marked(bs[i], ttl);
        lemma_count_update(bs, i, cache::marked_for(bs[i], ttl));
        assert(json::field(w, "content"@) == Some(JsonView::Arr(bs)));
        lemma_count_with(
            w,
            "content"@,
            JsonView::Arr(bs.update(i, cache::marked_for(bs[i], ttl))),
        );
    }
}

/// The breakpoints of a body with one message marked.
pub proof fn lemma_count_one_message(body: JsonView, i: int, ttl: Seq<char>)
    requires
        json::arr_field(body, "messages"@) matches Some(ms) && 0 <= i < ms.len(),
    ensures
        ({
            let ms = json::arr_field(body, "messages"@)->0;
            let b = json::with_field(
                body,
                "messages"@,
                JsonView::Arr(ms.update(i, cache::message_marked(ms[i], ttl))),
            );
            cache::count_of(b) == cache::count_of(body) + (if cache::open_message(ms[i]) {
                1nat
            } else {
                0nat
            })
        }),
{
    broadcast use json::group_json_fields;

    lemma_keys();
    let ms = json::arr_field(body, "messages"@)->0;
    let m = cache::message_marked(ms[i], ttl);
    lemma_count_message(ms[i], ttl);
    lemma_count_update(ms, i, m);
    lemma_count_with(body, "messages"@, JsonView::Arr(ms.update(i, m)));
}

/// Marking the first message adds at most one breakpoint, and only while a slot is free.
proof fn lemma_count_first(body: JsonView)
    ensures
        cache::count_of(cache::first_marked(body)) >= cache::count_of(body),
        cache::count_of(cache::first_marked(body)) <= BREAKPOINT_CEILING
            || cache::count_of(cache::first_marked(body)) == cache::count_of(body),
{
    if cache::first_is_open(body) {
        lemma_count_one_message(body, 0, "1h"@);
    }
}

/// Marking the rolling tail adds at most one breakpoint, and only while a slot is free.
proof fn lemma_count_tail(body: JsonView, tail: Seq<char>)
    ensures
        cache::count_of(cache::tail_marked(body, tail)) >= cache::count_of(body),
        cache::count_of(cache::tail_marked(body, tail)) <= BREAKPOINT_CEILING
            || cache::count_of(cache::tail_marked(body, tail)) == cache::count_of(body),
{
    if let Some(i) = cache::tail_target(body) {
        let ms = json::arr_field(body, "messages"@)->0;
        cache::lemma_tail_index(ms);
        lemma_count_one_message(body, i, tail);
    }
}

/// The body before the messages get breakpoints: without the small ones on the system prompt, and
/// with those of the tools and the system prompt.
pub open spec fn with_static_breakpoints(body: JsonView) -> JsonView {
    cache::system_marked(cache::list_marked(cache::small_system_stripped(body), "tools"@))
}

pub proof fn lemma_count_list_marked(body: JsonView, k: Seq<char>)
    requires
        k != "cache_control"@,
    ensures
        cache::count_of(cache::list_marked(body, k)) <= cache::count_of(body) + (
        if cache::open_list(body, k) {
            1nat
        } else {
            0nat
        }),
{
    broadcast use json::group_json_fields;

    if cache::open_list(body, k) {
        let a = json::arr_field(body, k)->0;
        let i = a.len() - 1;
        let x = cache::marked_for(a.last(), "1h"@);
        lemma_count_marked(a.last(), "1h"@);
        lemma_count_update(a, i, x);
        lemma_count_with(body, k, JsonView::Arr(a.update(i, x)));
    }
}

pub proof fn lemma_marked_text(t: Seq<char>)
    ensures
        cache::count_of(cache::marked_text_of(t)) == 1,
        cache::is_marked(cache::marked_text_of(t)),
        json::well_formed(cache::marked_text_of(t)),
{
    lemma_names();
    lemma_control("1h"@);
    let v = cache::marked_text_of(t);
    let o = v->Obj_0;
    assert(o[0].0 != "cache_control"@ && o[1].0 != "cache_control"@);
    json::lemma_index_is(o, "cache_control"@, 0, 2);
    cache::lemma_count(v);
    let cs = cache::entry_counts(o);
    assert forall|i: int| 0 <= i < cs.len() implies #[trigger] cs[i] == 0 by {
        assert(i == 0 || i == 1 || i == 2);
        cache::lemma_count(o[i].1);
    }
    lemma_total_zero(cs);
    json::lemma_well_formed(v);
    assert forall|i: int| 0 <= i < o.len() implies json::well_formed((#[trigger] o[i]).1) by {
        assert(i == 0 || i == 1 || i == 2);
        json::lemma_well_formed(o[i].1);
    }
}

pub proof fn lemma_count_system(body: JsonView)
    ensures
        cache::count_of(cache::system_marked(body)) <= cache::count_of(body)
            + cache::system_tag(body).len(),
{
    broadcast use json::group_json_fields;

    lemma_keys();
    match json::field(body, "system"@) {
        Some(JsonView::Str(t)) => {
            if t.len() > 0 {
                lemma_marked_text(t);
                let a = seq![cache::marked_text_of(t)];
                let cs = cache::counts(a);
                cache::lemma_count(JsonView::Arr(a));
                assert(cs =~= seq![1nat]);
                assert(cs.drop_last() =~= Seq::empty());
                assert(cache::total(Seq::empty()) == 0);
                lemma_count_with(body, "system"@, JsonView::Arr(a));
            }
        },
        _ => {
            lemma_count_list_marked(body, "system"@);
        },
    }
}

pub proof fn lemma_count_small(body: JsonView)
    ensures
        cache::count_of(cache::small_system_stripped(body)) <= cache::count_of(body),
{
    broadcast use json::group_json_fields;

    lemma_keys();
    if let Some(bs) = json::arr_field(body, "system"@) {
        let cs = bs.map_values(|b: JsonView| cache::small_unmarked(b));
        let before = cache::counts(bs);
        let after = cache::counts(cs);
        assert forall|i: int| 0 <= i < after.len() implies #[trigger] after[i] <= before[i] by {
            let v = bs[i];
            if cache::small_mark(v) {
                let w = cache::unmarked(v);
                let o = v->Obj_0;
                cache::lemma_count(v);
                cache::lemma_count(w);
                json::lemma_index_of(o, "cache_control"@, 0);
                let n = json::index_of(o, "cache_control"@, 0)->0;
                assert(cache::entry_counts(o.remove(n)) =~= cache::entry_counts(o).remove(n));
                lemma_total_remove(cache::entry_counts(o), n);
            }
        }
        cache::lemma_count(JsonView::Arr(bs));
        cache::lemma_count(JsonView::Arr(cs));
        lemma_total_bounded(after, before);
        lemma_count_with(body, "system"@, JsonView::Arr(cs));
    }
}

/// Marking the tools and the system prompt adds breakpoints only while slots are free.
proof fn lemma_count_static(body: JsonView)
    ensures
        cache::count_of(with_static_breakpoints(body)) <= BREAKPOINT_CEILING
            || cache::count_of(with_static_breakpoints(body)) <= cache::count_of(body),
{
    lemma_keys();
    let b1 = cache::small_system_stripped(body);
    let b2 = cache::list_marked(b1, "tools"@);
    lemma_count_small(body);
    lemma_count_list_marked(b1, "tools"@);
    lemma_count_system(b2);
}

/// Placing breakpoints never takes a request above the ceiling: it leaves with no more than are
/// allowed, or with no more than it came with.
pub proof fn law_injection_keeps_the_ceiling(body: JsonView, tail: Seq<char>)
    ensures
        cache::count_of(body) <= BREAKPOINT_CEILING ==> cache::count_of(
            cache::injected(body, tail),
        ) <= BREAKPOINT_CEILING,
        cache::count_of(cache::injected(body, tail)) <= BREAKPOINT_CEILING || cache::count_of(
            cache::injected(body, tail),
        ) <= cache::count_of(body),
{
    lemma_count_static(body);
    lemma_count_first(with_static_breakpoints(body));
    lemma_count_tail(cache::first_marked(with_static_breakpoints(body)), tail);
}

/// A request without a free slot gets no breakpoint: it only loses those on small system blocks.
pub proof fn law_full_bodies_get_no_more(body: JsonView, tail: Seq<char>)
    requires
        !cache::has_slot(cache::small_system_stripped(body)),
    ensures
        cache::injected(body, tail) == cache::small_system_stripped(body),
{
}

/// A request that comes with at most two breakpoints has slots for its tools and its system prompt.
pub proof fn law_two_client_breakpoints_leave_room(body: JsonView)
    requires
        cache::count_of(body) <= 2,
    ensures
        cache::has_slot(cache::small_system_stripped(body)),
        cache::has_slot(cache::list_marked(cache::small_system_stripped(body), "tools"@)),
{
    lemma_keys();
    lemma_count_small(body);
    lemma_count_list_marked(cache::small_system_stripped(body), "tools"@);
}

/// Breakpoints in the messages leave everything else as it is.
proof fn lemma_only_messages(body: JsonView, tail: Seq<char>, k: Seq<char>)
    requires
        k != "messages"@,
    ensures
        json::field(cache::tail_marked(cache::first_marked(body), tail), k) == json::field(body, k),
{
    broadcast use json::group_json_fields;

}

/// Where a slot was free, the catalog of tools does not leave without a breakpoint, if its last tool
/// can carry one.
pub proof fn law_tools_are_cached(body: JsonView, tail: Seq<char>)
    requires
        cache::has_slot(cache::small_system_stripped(body)),
    ensures
        json::arr_field(cache::injected(body, tail), "tools"@) matches Some(a) ==> a.len() > 0
            && a.last() is Obj ==> cache::any_marked(a),
{
    broadcast use json::group_json_fields;

    lemma_keys();
    let b1 = cache::small_system_stripped(body);
    let b2 = cache::list_marked(b1, "tools"@);
    lemma_only_messages(with_static_breakpoints(body), tail, "tools"@);
    assert(json::field(cache::system_marked(b2), "tools"@) == json::field(b2, "tools"@));
    if cache::open_list(b1, "tools"@) {
        let a = json::arr_field(b1, "tools"@)->0;
        lemma_count_marked(a.last(), "1h"@);
        let w = a.update(a.len() - 1, cache::marked_for(a.last(), "1h"@));
        assert(cache::is_marked(w[a.len() - 1]));
    }
}

/// Where a slot was free after the tools, the system prompt does not leave without a breakpoint: a
/// text becomes a block that carries one, and of a list some block carries one, if its last can.
pub proof fn law_system_is_cached(body: JsonView, tail: Seq<char>)
    requires
        cache::has_slot(cache::list_marked(cache::small_system_stripped(body), "tools"@)),
    ensures
        ({
            let b = cache::injected(body, tail);
            &&& json::arr_field(b, "system"@) matches Some(a) ==> a.len() > 0 && a.last() is Obj
                ==> cache::any_marked(a)
            &&& json::text_field(b, "system"@) matches Some(t) ==> t.len() == 0
        }),
{
    broadcast use json::group_json_fields;

    lemma_keys();
    let b2 = cache::list_marked(cache::small_system_stripped(body), "tools"@);
    lemma_only_messages(with_static_breakpoints(body), tail, "system"@);
    match json::field(b2, "system"@) {
        Some(JsonView::Str(t)) => {
            if t.len() > 0 {
                lemma_marked_text(t);
                assert(cache::is_marked(seq![cache::marked_text_of(t)][0]));
            }
        },
        _ => {
            if cache::open_list(b2, "system"@) {
                let a = json::arr_field(b2, "system"@)->0;
                lemma_count_marked(a.last(), "1h"@);
                let w = a.update(a.len() - 1, cache::marked_for(a.last(), "1h"@));
                assert(cache::is_marked(w[a.len() - 1]));
            }
        },
    }
}

proof fn lemma_same_last(bs: Seq<JsonView>, cs: Seq<JsonView>)
    requires
        bs.len() == cs.len(),
        forall|i: int|
            0 <= i < bs.len() ==> cache::cacheable(#[trigger] bs[i]) == cache::cacheable(cs[i]),
    ensures
        cache::last_cacheable_in(bs) == cache::last_cacheable_in(cs),
    decreases bs.len(),
{
    if bs.len() > 0 {
        assert(cache::cacheable(bs[bs.len() - 1]) == cache::cacheable(cs[bs.len() - 1]));
        lemma_same_last(bs.drop_last(), cs.drop_last());
    }
}

/// The last block of a marked message that can carry a breakpoint carries a control value.
pub proof fn lemma_message_is_marked(m: JsonView, ttl: Seq<char>)
    requires
        cache::last_cacheable(m) is Some,
    ensures
        ({
            let w = cache::message_marked(m, ttl);
            &&& cache::last_cacheable(w) == cache::last_cacheable(m)
            &&& cache::has_control(cache::blocks_of(w)[cache::last_cacheable(m)->0])
            &&& cache::open_message(m) ==> json::field(
                cache::blocks_of(w)[cache::last_cacheable(m)->0],
                "cache_control"@,
            ) == Some(cache::control_of(ttl))
        }),
{
    broadcast use json::group_json_fields;

    lemma_keys();
    lemma_names();
    lemma_count_normalized(m);
    let bs = cache::blocks_of(m);
    cache::lemma_last_cacheable(bs);
    let i = cache::last_cacheable(m)->0;
    let n = cache::normalized(m);
    assert(json::field(n, "content"@) == Some(JsonView::Arr(bs)));
    if cache::open_message(m) {
        let cs = bs.update(i, cache::marked_for(bs[i], ttl));
        let w = cache::message_marked(m, ttl);
        assert(json::field(w, "content"@) == Some(JsonView::Arr(cs)));
        assert(cache::normalized(w) == w);
        assert(cache::blocks_of(w) == cs);
        assert forall|j: int| 0 <= j < bs.len() implies cache::cacheable(#[trigger] bs[j])
            == cache::cacheable(cs[j]) by {}
        lemma_same_last(bs, cs);
    } else {
        assert(cache::normalized(n) == n);
    }
}

/// Where a slot is free, the last block of all messages that can carry a breakpoint carries a
/// control value; one that it did not bring itself has the lifetime of the rolling tail.
pub proof fn law_rolling_tail_is_marked(body: JsonView, tail: Seq<char>)
    requires
        cache::count_of(body) < BREAKPOINT_CEILING,
    ensures
        json::arr_field(body, "messages"@) matches Some(ms) ==> cache::tail_index(ms) matches Some(
            i,
        ) ==> {
            let rs = json::arr_field(cache::tail_marked(body, tail), "messages"@)->0;
            let j = cache::last_cacheable(ms[i])->0;
            &&& cache::tail_index(rs) == Some(i)
            &&& cache::last_cacheable(rs[i]) == Some(j)
            &&& cache::has_control(cache::blocks_of(rs[i])[j])
            &&& cache::open_message(ms[i]) ==> json::field(
                cache::blocks_of(rs[i])[j],
                "cache_control"@,
            ) == Some(cache::control_of(tail))
        },
{
    broadcast use json::group_json_fields;

    if let Some(ms) = json::arr_field(body, "messages"@) {
        cache::lemma_tail_index(ms);
        if let Some(i) = cache::tail_index(ms) {
            let m = cache::message_marked(ms[i], tail);
            let rs = ms.update(i, m);
            lemma_message_is_marked(ms[i], tail);
            assert forall|k: int| i < k < rs.len() implies cache::last_cacheable(
                #[trigger] rs[k],
            ) is None by {
                assert(rs[k] == ms[k]);
            }
            lemma_tail_found(rs, i);
        }
    }
}

proof fn lemma_tail_found(ms: Seq<JsonView>, i: int)
    requires
        0 <= i < ms.len(),
        cache::last_cacheable(ms[i]) is Some,
        forall|k: int| i < k < ms.len() ==> cache::last_cacheable(#[trigger] ms[k]) is None,
    ensures
        cache::tail_index(ms) == Some(i),
    decreases ms.len(),
{
    if i < ms.len() - 1 {
        assert(cache::last_cacheable(ms[ms.len() - 1]) is None);
        lemma_tail_found(ms.drop_last(), i);
    }
}

/// Where a slot is free and another message follows, the last block of the first message that can
/// carry a breakpoint carries a control value; one that it did not bring itself lives an hour.
pub proof fn law_first_message_is_marked(body: JsonView)
    requires
        cache::first_is_open(body),
    ensures
        ({
            let ms = json::arr_field(body, "messages"@)->0;
            let rs = json::arr_field(cache::first_marked(body), "messages"@)->0;
            cache::last_cacheable(ms[0]) matches Some(j) ==> {
                &&& cache::last_cacheable(rs[0]) == Some(j)
                &&& cache::has_control(cache::blocks_of(rs[0])[j])
                &&& cache::open_message(ms[0]) ==> json::field(
                    cache::blocks_of(rs[0])[j],
                    "cache_control"@,
                ) == Some(cache::control_of("1h"@))
            }
        }),
{
    broadcast use json::group_json_fields;

    let ms = json::arr_field(body, "messages"@)->0;
    if cache::last_cacheable(ms[0]) is Some {
        lemma_message_is_marked(ms[0], "1h"@);
    }
}

/// Breakpoints on system blocks that are too small to be worth one are gone before any is placed.
pub proof fn law_small_system_breakpoints_are_gone(body: JsonView, i: int)
    requires
        json::well_formed(body),
        json::arr_field(cache::small_system_stripped(body), "system"@) matches Some(bs) && 0 <= i
            < bs.len(),
    ensures
        !cache::small_mark(
            json::arr_field(cache::small_system_stripped(body), "system"@)->0[i],
        ),
{
    broadcast use json::group_json_fields;

    let bs = json::arr_field(body, "system"@)->0;
    json::law_field_is_well_formed(body, "system"@);
    json::lemma_well_formed(JsonView::Arr(bs));
    json::law_without_field_is_well_formed(bs[i], "cache_control"@);
}

/// Stripping touches neither the first nor the last message, nor anything but messages.
pub proof fn law_stripping_spares_the_ends(body: JsonView, k: Seq<char>)
    ensures
        json::arr_field(body, "messages"@) matches Some(ms) ==> {
            let rs = json::arr_field(cache::intermediate_stripped(body), "messages"@)->0;
            &&& rs.len() == ms.len()
            &&& ms.len() > 0 ==> rs[0] == ms[0] && rs.last() == ms.last()
        },
        k != "messages"@ ==> json::field(cache::intermediate_stripped(body), k) == json::field(
            body,
            k,
        ),
{
    broadcast use json::group_json_fields;

}

/// After stripping no block of an intermediate message carries a control value.
pub proof fn law_intermediate_messages_are_bare(body: JsonView, i: int, j: int)
    requires
        json::well_formed(body),
        json::arr_field(cache::intermediate_stripped(body), "messages"@) matches Some(ms) && 0 < i
            < ms.len() - 1 && (json::arr_field(ms[i], "content"@) matches Some(bs) && 0 <= j
            < bs.len()),
    ensures
        ({
            let ms = json::arr_field(cache::intermediate_stripped(body), "messages"@)->0;
            !cache::has_control(json::arr_field(ms[i], "content"@)->0[j])
        }),
{
    broadcast use json::group_json_fields;

    let ms = json::arr_field(body, "messages"@)->0;
    json::law_field_is_well_formed(body, "messages"@);
    json::lemma_well_formed(JsonView::Arr(ms));
    let m = ms[i];
    json::law_field_is_well_formed(m, "content"@);
    let bs = json::arr_field(m, "content"@)->0;
    json::lemma_well_formed(JsonView::Arr(bs));
    json::law_without_field_is_well_formed(bs[j], "cache_control"@);
}

proof fn lemma_items_well_formed(a: Seq<JsonView>)
    requires
        json::well_formed_items(a),
    ensures
        json::well_formed(JsonView::Arr(a)),
{
    json::lemma_well_formed(JsonView::Arr(a));
}

proof fn lemma_under_well_formed(body: JsonView, k: Seq<char>)
    requires
        json::well_formed(body),
    ensures
        json::arr_field(body, k) matches Some(a) ==> json::well_formed_items(a),
{
    json::law_field_is_well_formed(body, k);
    if let Some(a) = json::arr_field(body, k) {
        json::lemma_well_formed(JsonView::Arr(a));
    }
}

proof fn lemma_retimed_well_formed(v: JsonView, ttl: Seq<char>)
    requires
        json::well_formed(v),
    ensures
        json::well_formed(cache::retimed(v, ttl)),
    decreases v,
{
    let w = cache::retimed(v, ttl);
    cache::lemma_retimed(v, ttl);
    json::lemma_well_formed(v);
    json::lemma_well_formed(w);
    match v {
        JsonView::Arr(a) => {
            let b = cache::retimed_items(a, ttl);
            assert forall|i: int| 0 <= i < b.len() implies json::well_formed(#[trigger] b[i]) by {
                lemma_retimed_well_formed(a[i], ttl);
            }
        },
        JsonView::Obj(o) => {
            let b = cache::retimed_entries(o, ttl);
            assert forall|i: int| 0 <= i < b.len() implies json::well_formed(
                (#[trigger] b[i]).1,
            ) by {
                assert(json::well_formed(o[i].1));
                if o[i].0 == "cache_control"@ {
                    json::lemma_well_formed(JsonView::Str(ttl));
                    json::law_with_field_is_well_formed(o[i].1, "ttl"@, JsonView::Str(ttl));
                } else {
                    lemma_retimed_well_formed(o[i].1, ttl);
                }
            }
            assert forall|i: int, j: int| 0 <= i < j < b.len() implies #[trigger] b[i].0
                != #[trigger] b[j].0 by {
                assert(o[i].0 != o[j].0);
            }
        },
        _ => {},
    }
}

/// Setting lifetimes keeps a body well formed.
pub proof fn law_ttls_keep_the_form(body: JsonView, tail: Seq<char>)
    requires
        json::well_formed(body),
    ensures
        json::well_formed(cache::ttls_applied(body, tail)),
{
    let b = cache::retimed(body, "1h"@);
    lemma_retimed_well_formed(body, "1h"@);
    lemma_under_well_formed(body, "messages"@);
    if let Some(ms) = json::arr_field(body, "messages"@) {
        let rs = cache::retimed_messages(ms, tail);
        assert forall|i: int| 0 <= i < rs.len() implies json::well_formed(#[trigger] rs[i]) by {
            assert(json::well_formed(ms[i]));
            lemma_retimed_well_formed(
                ms[i],
                if i + 1 == ms.len() {
                    tail
                } else {
                    "1h"@
                },
            );
        }
        lemma_items_well_formed(rs);
        json::law_with_field_is_well_formed(b, "messages"@, JsonView::Arr(rs));
    }
}

proof fn lemma_marked_well_formed(v: JsonView, ttl: Seq<char>)
    requires
        json::well_formed(v),
    ensures
        json::well_formed(cache::marked_for(v, ttl)),
{
    lemma_control(ttl);
    json::law_with_field_is_well_formed(v, "cache_control"@, cache::control_of(ttl));
}

proof fn lemma_list_marked_well_formed(body: JsonView, k: Seq<char>)
    requires
        json::well_formed(body),
    ensures
        json::well_formed(cache::list_marked(body, k)),
{
    if cache::open_list(body, k) {
        lemma_under_well_formed(body, k);
        let a = json::arr_field(body, k)->0;
        assert(json::well_formed(a[a.len() - 1]));
        lemma_marked_well_formed(a.last(), "1h"@);
        let w = a.update(a.len() - 1, cache::marked_for(a.last(), "1h"@));
        assert(json::well_formed_items(w)) by {
            assert forall|i: int| 0 <= i < w.len() implies json::well_formed(#[trigger] w[i]) by {
                if i < a.len() - 1 {
                    assert(w[i] == a[i]);
                }
            }
        }
        lemma_items_well_formed(w);
        json::law_with_field_is_well_formed(body, k, JsonView::Arr(w));
    }
}

proof fn lemma_text_block_well_formed(t: Seq<char>)
    ensures
        json::well_formed(json::text_block_of(t)),
{
    lemma_names();
    let v = json::text_block_of(t);
    let o = v->Obj_0;
    json::lemma_well_formed(v);
    assert forall|i: int| 0 <= i < o.len() implies json::well_formed((#[trigger] o[i]).1) by {
        assert(i == 0 || i == 1);
        json::lemma_well_formed(o[i].1);
    }
}

proof fn lemma_message_well_formed(m: JsonView, ttl: Seq<char>)
    requires
        json::well_formed(m),
    ensures
        json::well_formed(cache::message_marked(m, ttl)),
{
    broadcast use json::group_json_fields;

    let n = cache::normalized(m);
    if let Some(JsonView::Str(s)) = json::field(m, "content"@) {
        if s.len() > 0 {
            let a = seq![json::text_block_of(s)];
            lemma_text_block_well_formed(s);
            lemma_items_well_formed(a);
            json::law_with_field_is_well_formed(m, "content"@, JsonView::Arr(a));
        }
    }
    if cache::open_message(m) {
        let bs = cache::blocks_of(m);
        cache::lemma_last_cacheable(bs);
        let i = cache::last_cacheable(m)->0;
        lemma_under_well_formed(n, "content"@);
        assert(json::well_formed(bs[i]));
        lemma_marked_well_formed(bs[i], ttl);
        let w = bs.update(i, cache::marked_for(bs[i], ttl));
        assert(json::well_formed_items(w)) by {
            assert forall|j: int| 0 <= j < w.len() implies json::well_formed(#[trigger] w[j]) by {
                if j != i {
                    assert(w[j] == bs[j]);
                }
            }
        }
        lemma_items_well_formed(w);
        json::law_with_field_is_well_formed(n, "content"@, JsonView::Arr(w));
    }
}

proof fn lemma_one_message_well_formed(body: JsonView, i: int, ttl: Seq<char>)
    requires
        json::well_formed(body),
        json::arr_field(body, "messages"@) matches Some(ms) && 0 <= i < ms.len(),
    ensures
        ({
            let ms = json::arr_field(body, "messages"@)->0;
            json::well_formed(
                json::with_field(
                    body,
                    "messages"@,
                    JsonView::Arr(ms.update(i, cache::message_marked(ms[i], ttl))),
                ),
            )
        }),
{
    lemma_under_well_formed(body, "messages"@);
    let ms = json::arr_field(body, "messages"@)->0;
    assert(json::well_formed(ms[i]));
    lemma_message_well_formed(ms[i], ttl);
    let w = ms.update(i, cache::message_marked(ms[i], ttl));
    assert(json::well_formed_items(w)) by {
        assert forall|j: int| 0 <= j < w.len() implies json::well_formed(#[trigger] w[j]) by {
            if j != i {
                assert(w[j] == ms[j]);
            }
        }
    }
    lemma_items_well_formed(w);
    json::law_with_field_is_well_formed(body, "messages"@, JsonView::Arr(w));
}

/// Placing breakpoints keeps a body well formed.
pub proof fn law_injection_keeps_the_form(body: JsonView, tail: Seq<char>)
    requires
        json::well_formed(body),
    ensures
        json::well_formed(cache::injected(body, tail)),
{
    lemma_under_well_formed(body, "system"@);
    if let Some(bs) = json::arr_field(body, "system"@) {
        let cs = bs.map_values(|b: JsonView| cache::small_unmarked(b));
        assert(json::well_formed_items(cs)) by {
            assert forall|i: int| 0 <= i < cs.len() implies json::well_formed(#[trigger] cs[i]) by {
                assert(json::well_formed(bs[i]));
                json::law_without_field_is_well_formed(bs[i], "cache_control"@);
            }
        }
        lemma_items_well_formed(cs);
        json::law_with_field_is_well_formed(body, "system"@, JsonView::Arr(cs));
    }
    let b1 = cache::small_system_stripped(body);
    lemma_list_marked_well_formed(b1, "tools"@);
    let b2 = cache::list_marked(b1, "tools"@);
    match json::field(b2, "system"@) {
        Some(JsonView::Str(t)) => {
            if t.len() > 0 {
                lemma_marked_text(t);
                let a = seq![cache::marked_text_of(t)];
                lemma_items_well_formed(a);
                json::law_with_field_is_well_formed(b2, "system"@, JsonView::Arr(a));
            }
        },
        _ => {
            lemma_list_marked_well_formed(b2, "system"@);
        },
    }
    let b3 = cache::system_marked(b2);
    if cache::first_is_open(b3) {
        lemma_one_message_well_formed(b3, 0, "1h"@);
    }
    let b4 = cache::first_marked(b3);
    if let Some(i) = cache::tail_target(b4) {
        cache::lemma_tail_index(json::arr_field(b4, "messages"@)->0);
        lemma_one_message_well_formed(b4, i, tail);
    }
}

/// Stripping intermediate messages keeps a body well formed.
pub proof fn law_stripping_keeps_the_form(body: JsonView)
    requires
        json::well_formed(body),
    ensures
        json::well_formed(cache::intermediate_stripped(body)),
{
    lemma_under_well_formed(body, "messages"@);
    if let Some(ms) = json::arr_field(body, "messages"@) {
        let rs = cache::middle_unmarked(ms);
        assert(json::well_formed_items(rs)) by {
            assert forall|i: int| 0 <= i < rs.len() implies json::well_formed(#[trigger] rs[i]) by {
                let m = ms[i];
                assert(json::well_formed(m));
                lemma_under_well_formed(m, "content"@);
                if let Some(bs) = json::arr_field(m, "content"@) {
                    let cs = bs.map_values(|b: JsonView| cache::unmarked(b));
                    assert(json::well_formed_items(cs)) by {
                        assert forall|j: int| 0 <= j < cs.len() implies json::well_formed(
                            #[trigger] cs[j],
                        ) by {
                            assert(json::well_formed(bs[j]));
                            json::law_without_field_is_well_formed(bs[j], "cache_control"@);
                        }
                    }
                    lemma_items_well_formed(cs);
                    json::law_with_field_is_well_formed(m, "content"@, JsonView::Arr(cs));
                }
            }
        }
        lemma_items_well_formed(rs);
        json::law_with_field_is_well_formed(body, "messages"@, JsonView::Arr(rs));
    }
}

/// Giving breakpoints a lifetime adds none.
pub proof fn law_retiming_adds_no_breakpoint(v: JsonView, ttl: Seq<char>)
    ensures
        cache::count_of(cache::retimed(v, ttl)) <= cache::count_of(v),
        cache::is_marked(cache::retimed(v, ttl)) == cache::is_marked(v),
    decreases v,
{
    broadcast use json::group_json_fields;

    let w = cache::retimed(v, ttl);
    cache::lemma_retimed(v, ttl);
    cache::lemma_count(v);
    cache::lemma_count(w);
    lemma_names();
    match v {
        JsonView::Arr(a) => {
            let b = cache::retimed_items(a, ttl);
            assert forall|i: int| 0 <= i < a.len() implies #[trigger] cache::counts(b)[i]
                <= cache::counts(a)[i] by {
                law_retiming_adds_no_breakpoint(a[i], ttl);
            }
            lemma_total_bounded(cache::counts(b), cache::counts(a));
        },
        JsonView::Obj(o) => {
            let b = cache::retimed_entries(o, ttl);
            cache::lemma_index_retimed(o, ttl, "cache_control"@);
            json::lemma_index_of(o, "cache_control"@, 0);
            if let Some(i) = json::index_of(o, "cache_control"@, 0) {
                lemma_retimed_control(o[i].1, ttl);
            }
            assert forall|i: int| 0 <= i < o.len() implies #[trigger] cache::entry_counts(b)[i]
                <= cache::entry_counts(o)[i] by {
                let c = o[i].1;
                if o[i].0 == "cache_control"@ {
                    if cache::ephemeral(c) {
                        lemma_count_with(c, "ttl"@, JsonView::Str(ttl));
                        cache::lemma_count(JsonView::Str(ttl));
                    }
                } else {
                    law_retiming_adds_no_breakpoint(c, ttl);
                }
            }
            lemma_total_bounded(cache::entry_counts(b), cache::entry_counts(o));
        },
        _ => {},
    }
}

/// The breakpoints of an array are those of its head and of its last item.
proof fn lemma_count_last(a: Seq<JsonView>)
    requires
        a.len() > 0,
    ensures
        cache::count_of(JsonView::Arr(a)) == cache::count_of(JsonView::Arr(a.drop_last()))
            + cache::count_of(a.last()),
{
    cache::lemma_count(JsonView::Arr(a));
    cache::lemma_count(JsonView::Arr(a.drop_last()));
    assert(cache::counts(a).drop_last() =~= cache::counts(a.drop_last()));
}

/// Setting lifetimes adds no breakpoint to a body.
pub proof fn law_ttls_add_no_breakpoint(body: JsonView, tail: Seq<char>)
    ensures
        cache::count_of(cache::ttls_applied(body, tail)) <= cache::count_of(body),
{
    broadcast use json::group_json_fields;

    lemma_keys();
    cache::lemma_ttls(body, tail);
    match cache::last_message(body) {
        Some(m) => {
            let ms = json::arr_field(body, "messages"@)->0;
            let head = ms.drop_last();
            let w = cache::without_last(body);
            let r = cache::retimed(w, "1h"@);
            let rs = cache::retimed_items(head, "1h"@);
            let all = rs.push(cache::retimed(m, tail));
            lemma_count_with(body, "messages"@, JsonView::Arr(head));
            lemma_count_last(ms);
            law_retiming_adds_no_breakpoint(w, "1h"@);
            law_retiming_adds_no_breakpoint(m, tail);
            cache::lemma_field_retimed(w, "1h"@, "messages"@);
            cache::lemma_retimed(JsonView::Arr(head), "1h"@);
            cache::lemma_retimed(w, "1h"@);
            lemma_count_with(r, "messages"@, JsonView::Arr(all));
            assert(all.drop_last() =~= rs);
            lemma_count_last(all);
        },
        None => {
            law_retiming_adds_no_breakpoint(body, "1h"@);
        },
    }
}

/// Taking the control value off a block adds no breakpoint.
proof fn lemma_count_unmarked(v: JsonView)
    requires
        json::well_formed(v),
    ensures
        cache::count_of(cache::unmarked(v)) <= cache::count_of(v),
{
    if cache::has_control(v) {
        let w = cache::unmarked(v);
        let o = v->Obj_0;
        json::law_without_field_is_well_formed(v, "cache_control"@);
        cache::lemma_count(v);
        cache::lemma_count(w);
        json::lemma_index_of(o, "cache_control"@, 0);
        let n = json::index_of(o, "cache_control"@, 0)->0;
        assert(cache::entry_counts(o.remove(n)) =~= cache::entry_counts(o).remove(n));
        lemma_total_remove(cache::entry_counts(o), n);
    }
}

/// A value under a key gives way to one with no more breakpoints.
proof fn lemma_count_replaced(v: JsonView, k: Seq<char>, x: JsonView)
    requires
        k != "cache_control"@,
        json::field(v, k) matches Some(y) && cache::count_of(x) <= cache::count_of(y),
    ensures
        cache::count_of(json::with_field(v, k, x)) <= cache::count_of(v),
{
    broadcast use json::group_json_fields;

    lemma_count_with(v, k, x);
}

/// Items give way to as many with no more breakpoints each.
proof fn lemma_count_items(a: Seq<JsonView>, b: Seq<JsonView>)
    requires
        a.len() == b.len(),
        forall|i: int|
            0 <= i < a.len() ==> cache::count_of(#[trigger] b[i]) <= cache::count_of(a[i]),
    ensures
        cache::count_of(JsonView::Arr(b)) <= cache::count_of(JsonView::Arr(a)),
{
    cache::lemma_count(JsonView::Arr(a));
    cache::lemma_count(JsonView::Arr(b));
    assert forall|i: int| 0 <= i < a.len() implies #[trigger] cache::counts(b)[i]
        <= cache::counts(a)[i] by {
        assert(cache::count_of(b[i]) <= cache::count_of(a[i]));
    }
    lemma_total_bounded(cache::counts(b), cache::counts(a));
}

/// Stripping intermediate messages adds no breakpoint.
pub proof fn law_stripping_adds_no_breakpoint(body: JsonView)
    requires
        json::well_formed(body),
    ensures
        cache::count_of(cache::intermediate_stripped(body)) <= cache::count_of(body),
{
    lemma_keys();
    lemma_under_well_formed(body, "messages"@);
    if let Some(ms) = json::arr_field(body, "messages"@) {
        let rs = cache::middle_unmarked(ms);
        assert forall|i: int| 0 <= i < ms.len() implies cache::count_of(#[trigger] rs[i])
            <= cache::count_of(ms[i]) by {
            let m = ms[i];
            assert(json::well_formed(m));
            lemma_under_well_formed(m, "content"@);
            if let Some(bs) = json::arr_field(m, "content"@) {
                let cs = bs.map_values(|b: JsonView| cache::unmarked(b));
                assert forall|j: int| 0 <= j < bs.len() implies cache::count_of(#[trigger] cs[j])
                    <= cache::count_of(bs[j]) by {
                    assert(json::well_formed(bs[j]));
                    lemma_count_unmarked(bs[j]);
                }
                lemma_count_items(bs, cs);
                lemma_count_replaced(m, "content"@, JsonView::Arr(cs));
            }
        }
        lemma_count_items(ms, rs);
        lemma_count_replaced(body, "messages"@, JsonView::Arr(rs));
    }
}

/// A message that was marked once stays as it is.
proof fn lemma_message_marked_once(m: JsonView, first: Seq<char>, again: Seq<char>)
    ensures
        cache::message_marked(cache::message_marked(m, first), again) == cache::message_marked(
            m,
            first,
        ),
{
    broadcast use json::group_json_fields;

    let w = cache::message_marked(m, first);
    if cache::last_cacheable(m) is Some {
        lemma_message_is_marked(m, first);
        lemma_count_normalized(m);
        let n = cache::normalized(m);
        cache::lemma_last_cacheable(cache::blocks_of(m));
        assert(json::field(n, "content"@) == Some(JsonView::Arr(cache::blocks_of(m))));
        assert(cache::normalized(w) == w);
    } else {
        cache::lemma_not_cacheable(m, first);
        cache::lemma_not_cacheable(m, again);
    }
}

/// The messages have the breakpoints that they are to get, where a slot is free.
pub open spec fn messages_done(body: JsonView, tail: Seq<char>) -> bool {
    json::arr_field(body, "messages"@) matches Some(ms) ==> cache::has_slot(body) ==> {
        &&& ms.len() > 1 ==> cache::message_marked(ms[0], "1h"@) == ms[0]
        &&& cache::tail_index(ms) matches Some(i) ==> cache::message_marked(ms[i], tail) == ms[i]
    }
}

/// A body whose messages have their breakpoints gets none in them.
proof fn lemma_messages_done(body: JsonView, tail: Seq<char>)
    requires
        messages_done(body, tail),
    ensures
        cache::tail_marked(cache::first_marked(body), tail) == body,
{
    broadcast use json::group_json_fields;

    if let Some(ms) = json::arr_field(body, "messages"@) {
        if cache::has_slot(body) {
            if ms.len() > 1 {
                assert(ms.update(0, ms[0]) =~= ms);
            }
            assert(cache::first_marked(body) == body);
            cache::lemma_tail_index(ms);
            if let Some(i) = cache::tail_index(ms) {
                assert(ms.update(i, ms[i]) =~= ms);
            }
        }
    }
}

/// Marking the messages leaves them with the breakpoints that they are to get.
proof fn lemma_marking_is_done(body: JsonView, tail: Seq<char>)
    ensures
        messages_done(cache::tail_marked(cache::first_marked(body), tail), tail),
{
    broadcast use json::group_json_fields;

    let b4 = cache::first_marked(body);
    let b5 = cache::tail_marked(b4, tail);
    lemma_count_first(body);
    lemma_count_tail(b4, tail);
    if cache::has_slot(b5) {
        if let Some(ms) = json::arr_field(body, "messages"@) {
            let m4 = json::arr_field(b4, "messages"@)->0;
            if ms.len() > 1 {
                lemma_message_marked_once(ms[0], "1h"@, "1h"@);
                lemma_message_marked_once(ms[0], "1h"@, tail);
            }
            cache::lemma_tail_index(m4);
            law_rolling_tail_is_marked(b4, tail);
            if let Some(i) = cache::tail_index(m4) {
                lemma_message_marked_once(m4[i], tail, tail);
            }
        }
    }
}

/// The system prompt has the breakpoint that it is to get, where a slot is free, and none on a small
/// block but for one of an hour on its last block, which is then its only one.
pub open spec fn system_done(body: JsonView) -> bool {
    match json::field(body, "system"@) {
        Some(JsonView::Str(t)) => t.len() == 0 || !cache::has_slot(body),
        Some(JsonView::Arr(a)) => {
            &&& a.len() > 0 && a.last() is Obj && !cache::any_marked(a) ==> !cache::has_slot(body)
            &&& forall|i: int|
                0 <= i < a.len() && cache::small_mark(#[trigger] a[i]) ==> {
                    &&& i == a.len() - 1
                    &&& json::field(a[i], "cache_control"@) == Some(cache::control_of("1h"@))
                    &&& forall|j: int| 0 <= j < i ==> !cache::is_marked(#[trigger] a[j])
                }
        },
        _ => true,
    }
}

/// A block that loses its hour's breakpoint and gets it back holds the same as before.
proof fn lemma_marked_again(x: JsonView)
    requires
        json::well_formed(x),
        json::field(x, "cache_control"@) == Some(cache::control_of("1h"@)),
    ensures
        ({
            let y = cache::marked_for(cache::unmarked(x), "1h"@);
            &&& json::alike(y, x)
            &&& cache::count_of(y) == cache::count_of(x)
            &&& cache::count_of(cache::unmarked(x)) + 1 == cache::count_of(x)
            &&& !cache::is_marked(cache::unmarked(x))
        }),
{
    let k = "cache_control"@;
    let u = cache::unmarked(x);
    let c = cache::control_of("1h"@);
    let y = cache::marked_for(u, "1h"@);
    let o = x->Obj_0;
    lemma_control("1h"@);
    json::law_without_field_is_well_formed(x, k);
    json::lemma_index_of(o, k, 0);
    let n = json::index_of(o, k, 0)->0;
    cache::lemma_count(x);
    cache::lemma_count(u);
    assert(cache::entry_counts(o.remove(n)) =~= cache::entry_counts(o).remove(n));
    lemma_total_remove(cache::entry_counts(o), n);
    lemma_count_marked(u, "1h"@);
    json::lemma_well_formed(x);
    json::lemma_alike(y, x);
    let p = y->Obj_0;
    assert(p == o.remove(n).push((k, c)));
    assert forall|i: int| 0 <= i < p.len() implies json::entry_in(#[trigger] p[i], x) by {
        if i == p.len() - 1 {
            json::lemma_alike_self(c);
        } else {
            let m = if i < n {
                i
            } else {
                i + 1
            };
            assert(p[i] == o[m]);
            assert forall|l: int| 0 <= l < m implies (#[trigger] o[l]).0 != o[m].0 by {}
            json::lemma_index_is(o, o[m].0, 0, m);
            json::lemma_alike_self(o[m].1);
        }
    }
}

/// A list of tools that has its breakpoint, or cannot have one, stays.
pub open spec fn tools_done(body: JsonView) -> bool {
    json::arr_field(body, "tools"@) matches Some(a) ==> a.len() > 0 && a.last() is Obj
        ==> cache::any_marked(a)
}

/// A body that has its breakpoints holds the same after they are placed again.
proof fn lemma_placed_again(body: JsonView, tail: Seq<char>)
    requires
        json::well_formed(body),
        cache::count_of(body) <= BREAKPOINT_CEILING,
        tools_done(body),
        system_done(body),
        messages_done(body, tail),
    ensures
        json::alike(cache::injected(body, tail), body),
{
    broadcast use json::group_json_fields;

    lemma_keys();
    json::lemma_alike_self(body);
    let b1 = cache::small_system_stripped(body);
    match json::field(body, "system"@) {
        Some(JsonView::Arr(a)) => {
            let n = a.len() - 1;
            let f = |b: JsonView| cache::small_unmarked(b);
            if a.len() > 0 && cache::small_mark(a[n]) {
                let x = a[n];
                let u = cache::unmarked(x);
                let y = cache::marked_for(u, "1h"@);
                lemma_under_well_formed(body, "system"@);
                lemma_marked_again(x);
                let a1 = a.update(n, u);
                let a3 = a.update(n, y);
                assert forall|i: int| 0 <= i < n implies !cache::small_mark(#[trigger] a[i])
                    && !cache::is_marked(a[i]) by {}
                assert(a.map_values(f) =~= a1);
                assert(b1 == json::with_field(body, "system"@, JsonView::Arr(a1)));
                lemma_count_update(a, n, u);
                lemma_count_with(body, "system"@, JsonView::Arr(a1));
                assert(cache::has_slot(b1));
                assert(!cache::open_list(b1, "tools"@));
                assert forall|i: int| 0 <= i < a1.len() implies !cache::is_marked(
                    #[trigger] a1[i],
                ) by {
                    if i < n {
                        assert(a1[i] == a[i]);
                        assert(!cache::is_marked(a[i]));
                    }
                }
                assert(cache::open_list(b1, "system"@));
                assert(a1.update(n, y) =~= a3);
                json::lemma_with_twice(body, "system"@, JsonView::Arr(a1), JsonView::Arr(a3));
                let b3 = json::with_field(body, "system"@, JsonView::Arr(a3));
                assert(cache::system_marked(b1) == b3);
                lemma_count_update(a, n, y);
                lemma_count_with(body, "system"@, JsonView::Arr(a3));
                assert(messages_done(b3, tail));
                lemma_messages_done(b3, tail);
                json::lemma_alike(JsonView::Arr(a3), JsonView::Arr(a));
                assert forall|i: int| 0 <= i < a3.len() implies json::alike(
                    #[trigger] a3[i],
                    a[i],
                ) by {
                    if i < n {
                        assert(a3[i] == a[i]);
                        json::lemma_alike_self(a[i]);
                    }
                }
                json::lemma_alike_with(body, "system"@, JsonView::Arr(a3));
            } else {
                assert forall|i: int| 0 <= i < a.len() implies !cache::small_mark(
                    #[trigger] a[i],
                ) by {}
                assert(a.map_values(f) =~= a);
                assert(b1 == body);
                lemma_messages_done(body, tail);
            }
        },
        _ => {
            assert(b1 == body);
            lemma_messages_done(body, tail);
        },
    }
}

/// Placing breakpoints twice is placing them once, but for the order of entries.
pub proof fn law_injection_is_idempotent(body: JsonView, tail: Seq<char>)
    requires
        json::well_formed(body),
    ensures
        json::alike(
            cache::injected(cache::injected(body, tail), tail),
            cache::injected(body, tail),
        ),
{
    broadcast use json::group_json_fields;

    lemma_keys();
    let b1 = cache::small_system_stripped(body);
    let b2 = cache::list_marked(b1, "tools"@);
    let b3 = cache::system_marked(b2);
    let b5 = cache::injected(body, tail);
    law_injection_keeps_the_form(body, tail);
    json::lemma_alike_self(b5);
    if let Some(a) = json::arr_field(b1, "system"@) {
        assert forall|i: int| 0 <= i < a.len() implies !cache::small_mark(#[trigger] a[i]) by {
            law_small_system_breakpoints_are_gone(body, i);
        }
        assert(a.map_values(|b: JsonView| cache::small_unmarked(b)) =~= a);
    }
    assert(cache::small_system_stripped(b1) == b1);
    if !cache::has_slot(b1) {
        law_full_bodies_get_no_more(body, tail);
        law_full_bodies_get_no_more(b1, tail);
    } else {
        lemma_count_list_marked(b1, "tools"@);
        lemma_count_system(b2);
        lemma_count_first(b3);
        lemma_count_tail(cache::first_marked(b3), tail);
        law_tools_are_cached(body, tail);
        lemma_only_messages(b3, tail, "system"@);
        lemma_marking_is_done(b3, tail);
        match json::field(b2, "system"@) {
            Some(JsonView::Str(t)) => {
                if t.len() > 0 && cache::has_slot(b2) {
                    lemma_marked_text(t);
                    let x = cache::marked_text_of(t);
                    lemma_names();
                    json::lemma_index_is(x->Obj_0, "cache_control"@, 0, 2);
                    assert(cache::is_marked(seq![x][0]));
                }
            },
            Some(JsonView::Arr(a)) => {
                if cache::open_list(b2, "system"@) {
                    let n = a.len() - 1;
                    let x = cache::marked_for(a.last(), "1h"@);
                    let a3 = a.update(n, x);
                    lemma_count_marked(a.last(), "1h"@);
                    assert(cache::is_marked(a3[n]));
                    assert forall|i: int| 0 <= i < n implies !cache::is_marked(
                        #[trigger] a3[i],
                    ) by {
                        assert(a3[i] == a[i]);
                    }
                }
            },
            _ => {},
        }
        assert(system_done(b5));
        lemma_placed_again(b5, tail);
    }
}

} // verus!
