//! How long the breakpoints of a request live once their lifetimes are set, and what else that leaves
//! alone.

use vstd::prelude::*;

use crate::cache;
use crate::cache_laws;
use crate::json;
use crate::json::JsonView;

verus! {

/// The control value makes a breakpoint.
pub open spec fn ephemeral(c: JsonView) -> bool {
    json::text_field(c, "type"@) == Some("ephemeral"@)
}

/// Every breakpoint in `v` lives for `ttl`.
pub open spec fn timed(v: JsonView, ttl: Seq<char>) -> bool
    decreases v,
{
    match v {
        JsonView::Arr(a) => forall|i: int| 0 <= i < a.len() ==> timed(#[trigger] a[i], ttl),
        JsonView::Obj(o) => forall|i: int|
            0 <= i < o.len() ==> if (#[trigger] o[i]).0 == "cache_control"@ {
                ephemeral(o[i].1) ==> json::text_field(o[i].1, "ttl"@) == Some(ttl)
            } else {
                timed(o[i].1, ttl)
            },
        _ => true,
    }
}

/// `w` is `v` with perhaps other lifetimes for its breakpoints.
pub open spec fn same_but_for_lifetimes(v: JsonView, w: JsonView) -> bool
    decreases v,
{
    match v {
        JsonView::Arr(a) => w matches JsonView::Arr(b) && a.len() == b.len() && forall|i: int|
            0 <= i < a.len() ==> same_but_for_lifetimes(#[trigger] a[i], b[i]),
        JsonView::Obj(o) => w matches JsonView::Obj(p) && o.len() == p.len() && forall|i: int|
            0 <= i < o.len() ==> p[i].0 == (#[trigger] o[i]).0 && if o[i].0 == "cache_control"@ {
                &&& !ephemeral(o[i].1) ==> p[i].1 == o[i].1
                &&& forall|q: Seq<char>|
                    q != "ttl"@ ==> #[trigger] json::field(p[i].1, q) == json::field(o[i].1, q)
            } else {
                same_but_for_lifetimes(o[i].1, p[i].1)
            },
        _ => w == v,
    }
}

proof fn lemma_retimed_is_timed(v: JsonView, ttl: Seq<char>)
    ensures
        timed(cache::retimed(v, ttl), ttl),
        same_but_for_lifetimes(v, cache::retimed(v, ttl)),
    decreases v,
{
    broadcast use json::group_json_fields;

    let w = cache::retimed(v, ttl);
    cache::lemma_retimed(v, ttl);
    reveal_with_fuel(timed, 2);
    reveal_with_fuel(same_but_for_lifetimes, 2);
    match v {
        JsonView::Arr(a) => {
            let b = cache::retimed_items(a, ttl);
            assert forall|i: int| 0 <= i < b.len() implies timed(#[trigger] b[i], ttl) by {
                lemma_retimed_is_timed(a[i], ttl);
            }
            assert forall|i: int| 0 <= i < a.len() implies same_but_for_lifetimes(
                #[trigger] a[i],
                b[i],
            ) by {
                lemma_retimed_is_timed(a[i], ttl);
            }
        },
        JsonView::Obj(o) => {
            let p = cache::retimed_entries(o, ttl);
            assert forall|i: int| 0 <= i < p.len() implies if (#[trigger] p[i]).0
                == "cache_control"@ {
                ephemeral(p[i].1) ==> json::text_field(p[i].1, "ttl"@) == Some(ttl)
            } else {
                timed(p[i].1, ttl)
            } by {
                if o[i].0 == "cache_control"@ {
                    cache_laws::lemma_retimed_control(o[i].1, ttl);
                } else {
                    lemma_retimed_is_timed(o[i].1, ttl);
                }
            }
            assert forall|i: int| 0 <= i < o.len() implies p[i].0 == (#[trigger] o[i]).0 && if o[i].0
                == "cache_control"@ {
                &&& !ephemeral(o[i].1) ==> p[i].1 == o[i].1
                &&& forall|q: Seq<char>|
                    q != "ttl"@ ==> #[trigger] json::field(p[i].1, q) == json::field(o[i].1, q)
            } else {
                same_but_for_lifetimes(o[i].1, p[i].1)
            } by {
                if o[i].0 != "cache_control"@ {
                    lemma_retimed_is_timed(o[i].1, ttl);
                }
            }
        },
        _ => {},
    }
}

/// Once lifetimes are set, every breakpoint outside the messages lives an hour. Nothing else changes.
pub proof fn law_breakpoints_outside_the_messages_live_an_hour(
    body: JsonView,
    tail: Seq<char>,
    k: Seq<char>,
)
    requires
        k != "cache_control"@,
        k != "messages"@ || json::arr_field(body, "messages"@) is None,
    ensures
        match json::field(body, k) {
            Some(x) => json::field(cache::ttls_applied(body, tail), k) matches Some(y) && timed(
                y,
                "1h"@,
            ) && same_but_for_lifetimes(x, y),
            None => json::field(cache::ttls_applied(body, tail), k) is None,
        },
{
    broadcast use json::group_json_fields;

    cache::lemma_field_retimed(body, "1h"@, k);
    if let Some(x) = json::field(body, k) {
        lemma_retimed_is_timed(x, "1h"@);
    }
}

/// Once lifetimes are set, every breakpoint in a message lives an hour, but for those in the last
/// message, which live as long as the rolling tail. Nothing else changes.
pub proof fn law_breakpoints_in_messages_live_by_their_place(
    body: JsonView,
    tail: Seq<char>,
    i: int,
)
    requires
        json::arr_field(body, "messages"@) matches Some(ms) && 0 <= i < ms.len(),
    ensures
        ({
            let ms = json::arr_field(body, "messages"@)->0;
            json::arr_field(cache::ttls_applied(body, tail), "messages"@) matches Some(rs)
                && rs.len() == ms.len() && same_but_for_lifetimes(ms[i], rs[i]) && timed(
                rs[i],
                if i == ms.len() - 1 {
                    tail
                } else {
                    "1h"@
                },
            )
        }),
{
    broadcast use json::group_json_fields;

    let ms = json::arr_field(body, "messages"@)->0;
    lemma_retimed_is_timed(ms[i], "1h"@);
    lemma_retimed_is_timed(ms[i], tail);
    cache::lemma_retimed(body, "1h"@);
    assert(cache::retimed(body, "1h"@) is Obj);
}

/// The breakpoint that a control value makes, where it lives an hour (`hour`) or does not.
pub open spec fn one_of(c: JsonView, hour: bool) -> nat {
    if ephemeral(c) && hour == (json::text_field(c, "ttl"@) == Some("1h"@)) {
        1
    } else {
        0
    }
}

/// Breakpoints that live an hour and breakpoints that do not are tallied apart, each once.
pub proof fn law_each_breakpoint_is_tallied_once(
    a: Seq<JsonView>,
    o: Seq<(Seq<char>, JsonView)>,
    k: Seq<char>,
    x: JsonView,
    hour: bool,
)
    ensures
        cache::tally(JsonView::Arr(Seq::empty()), hour) == 0,
        cache::tally(JsonView::Obj(Seq::empty()), hour) == 0,
        !(x is Arr) && !(x is Obj) ==> cache::tally(x, hour) == 0,
        cache::tally(JsonView::Arr(a.push(x)), hour) == cache::tally(JsonView::Arr(a), hour)
            + cache::tally(x, hour),
        cache::tally(JsonView::Obj(o.push((k, x))), hour) == cache::tally(JsonView::Obj(o), hour)
            + (if k == "cache_control"@ {
            one_of(x, hour)
        } else {
            cache::tally(x, hour)
        }),
{
    cache::lemma_tally(JsonView::Arr(Seq::empty()), hour);
    cache::lemma_tally(JsonView::Obj(Seq::empty()), hour);
    cache::lemma_tally(x, hour);
    cache::lemma_tally(JsonView::Arr(a), hour);
    cache::lemma_tally(JsonView::Arr(a.push(x)), hour);
    cache::lemma_tally(JsonView::Obj(o), hour);
    cache::lemma_tally(JsonView::Obj(o.push((k, x))), hour);
    assert(cache::tallies(a.push(x), hour).drop_last() =~= cache::tallies(a, hour));
    assert(cache::entry_tallies(o.push((k, x)), hour).drop_last() =~= cache::entry_tallies(o, hour));
}

/// The counters of a request add up: those in the last message are told apart from those that are set
/// to an hour or have one already, and none is left out.
pub proof fn law_every_breakpoint_is_accounted_for(body: JsonView, hour: bool)
    ensures
        match json::arr_field(body, "messages"@) {
            Some(ms) => if ms.len() > 0 {
                &&& cache::head_tally(body, hour) + cache::tally(ms.last(), hour) == cache::tally(
                    body,
                    hour,
                )
                &&& cache::tail_tally(body) == cache::tally(ms.last(), true) + cache::tally(
                    ms.last(),
                    false,
                )
            } else {
                cache::head_tally(body, hour) == cache::tally(body, hour) && cache::tail_tally(body)
                    == 0
            },
            None => cache::head_tally(body, hour) == cache::tally(body, hour) && cache::tail_tally(
                body,
            ) == 0,
        },
{
    if let Some(ms) = json::arr_field(body, "messages"@) {
        if ms.len() > 0 {
            let o = body->Obj_0;
            let short = JsonView::Arr(ms.drop_last());
            reveal_strlit("messages");
            reveal_strlit("cache_control");
            assert("messages"@.len() != "cache_control"@.len());
            json::lemma_index_of(o, "messages"@, 0);
            let i = json::index_of(o, "messages"@, 0)->0;
            let w = o.update(i, (o[i].0, short));
            cache::lemma_tally(body, hour);
            cache::lemma_tally(JsonView::Obj(w), hour);
            cache::lemma_tally(JsonView::Arr(ms), hour);
            cache::lemma_tally(short, hour);
            assert(cache::tallies(ms, hour).drop_last() =~= cache::tallies(ms.drop_last(), hour));
            assert(cache::entry_tallies(w, hour) =~= cache::entry_tallies(o, hour).update(
                i,
                cache::tally(short, hour),
            ));
            cache_laws::lemma_total_update(
                cache::entry_tallies(o, hour),
                i,
                cache::tally(short, hour),
            );
        }
    }
}

/// One more message in front of the last adds its blocks with a control value to what stripping takes
/// off; a conversation of two messages has none.
pub proof fn law_stripped_blocks_are_counted(ms: Seq<JsonView>, m: JsonView)
    requires
        ms.len() >= 2,
    ensures
        cache::middle_count(ms.insert(ms.len() - 1, m)) == cache::middle_count(ms)
            + cache::control_count(m),
        ms.len() == 2 ==> cache::middle_count(ms) == 0,
        json::arr_field(m, "content"@) is None ==> cache::control_count(m) == 0,
        json::arr_field(m, "content"@) matches Some(bs) ==> cache::control_count(m) == bs.filter(
            |b: JsonView| json::field(b, "cache_control"@) is Some,
        ).len(),
{
    let n = ms.len() as int;
    let ns = ms.insert(n - 1, m);
    let a = Seq::new(
        ms.len(),
        |i: int|
            if 0 < i < ms.len() - 1 {
                cache::control_count(ms[i])
            } else {
                0nat
            },
    );
    let b = Seq::new(
        ns.len(),
        |i: int|
            if 0 < i < ns.len() - 1 {
                cache::control_count(ns[i])
            } else {
                0nat
            },
    );
    assert(a.drop_last() =~= b.drop_last().drop_last()) by {
        assert forall|i: int| 0 <= i < n - 1 implies #[trigger] a[i] == b[i] by {
            assert(ns[i] == ms[i]);
        }
    }
    assert(b.drop_last().last() == cache::control_count(m));
    assert(b.last() == 0 && a.last() == 0);
    assert(cache::total(b) == cache::total(b.drop_last()));
    if n == 2 {
        reveal_with_fuel(cache::total, 3);
    }
    if let Some(bs) = json::arr_field(m, "content"@) {
        lemma_how_many(
            bs,
            |b: JsonView| cache::has_control(b),
            |b: JsonView| json::field(b, "cache_control"@) is Some,
        );
    }
}

pub proof fn lemma_how_many(
    s: Seq<JsonView>,
    p: spec_fn(JsonView) -> bool,
    q: spec_fn(JsonView) -> bool,
)
    requires
        forall|b: JsonView| #[trigger] p(b) == q(b),
    ensures
        cache::how_many(s, p) == s.filter(q).len(),
    decreases s.len(),
{
    reveal(Seq::filter);
    if s.len() > 0 {
        lemma_how_many(s.drop_last(), p, q);
        assert(p(s.last()) == q(s.last()));
    }
}

} // verus!
