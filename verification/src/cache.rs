//! Prompt-cache breakpoints: counting them, placing them and setting how long they live.
//!
//! A breakpoint is an object whose `cache_control` entry has the type `ephemeral`. Every breakpoint
//! outside the last message is given an hour; those in the last message, the rolling tail, are given
//! the tail's own lifetime.

use vstd::prelude::*;

use crate::cache_laws;
use crate::config::{BREAKPOINT_CEILING, MIN_SYSTEM_CACHE_CHARS};
use crate::json;
use crate::json::{Json, JsonView};
use crate::text;
use crate::text::same;

verus! {

broadcast use crate::json::group_json_view;

/// The control value `c` makes the object that carries it a breakpoint.
pub open spec fn ephemeral(c: JsonView) -> bool {
    json::text_field(c, "type"@) == Some("ephemeral"@)
}

/// `v` carries a breakpoint itself.
pub open spec fn is_marked(v: JsonView) -> bool {
    match json::field(v, "cache_control"@) {
        Some(c) => ephemeral(c),
        None => false,
    }
}

/// The sum of the numbers.
pub open spec fn total(s: Seq<nat>) -> nat
    decreases s.len(),
{
    if s.len() == 0 {
        0
    } else {
        total(s.drop_last()) + s.last()
    }
}

/// The sum of `f` over the first `n` positions.
pub open spec fn total_of(n: nat, f: spec_fn(int) -> nat) -> nat {
    total(Seq::new(n, f))
}

/// A sum depends on the summands alone.
proof fn lemma_total_of(n: nat)
    ensures
        forall|f: spec_fn(int) -> nat, g: spec_fn(int) -> nat|
            #![trigger total_of(n, f), total_of(n, g)]
            (forall|i: int| 0 <= i < n ==> #[trigger] f(i) == g(i)) ==> total_of(n, f) == total_of(
                n,
                g,
            ),
{
    assert forall|f: spec_fn(int) -> nat, g: spec_fn(int) -> nat|
        #![trigger total_of(n, f), total_of(n, g)]
        (forall|i: int| 0 <= i < n ==> #[trigger] f(i) == g(i)) implies total_of(n, f) == total_of(
        n,
        g,
    ) by {
        assert(Seq::new(n, f) =~= Seq::new(n, g));
    }
}

/// The breakpoints anywhere in `v`.
pub open spec fn count_of(v: JsonView) -> nat
    decreases v,
{
    match v {
        JsonView::Arr(a) => total_of(
            a.len(),
            |i: int|
                if 0 <= i < a.len() {
                    count_of(a[i])
                } else {
                    0
                },
        ),
        JsonView::Obj(o) => (if is_marked(v) {
            1nat
        } else {
            0nat
        }) + total_of(
            o.len(),
            |i: int|
                if 0 <= i < o.len() {
                    count_of(o[i].1)
                } else {
                    0
                },
        ),
        _ => 0,
    }
}

/// The breakpoints in each item.
pub open spec fn counts(a: Seq<JsonView>) -> Seq<nat> {
    Seq::new(a.len(), |i: int| count_of(a[i]))
}

/// The breakpoints under each entry.
pub open spec fn entry_counts(o: Seq<(Seq<char>, JsonView)>) -> Seq<nat> {
    Seq::new(o.len(), |i: int| count_of(o[i].1))
}

/// The number that a machine counter shows for `n`: `n`, or the largest it can show.
pub open spec fn shown(n: nat) -> nat {
    if n <= usize::MAX {
        n
    } else {
        usize::MAX as nat
    }
}

pub proof fn lemma_count(v: JsonView)
    ensures
        count_of(v) == (match v {
            JsonView::Arr(a) => total(counts(a)),
            JsonView::Obj(o) => (if is_marked(v) {
                1nat
            } else {
                0nat
            }) + total(entry_counts(o)),
            _ => 0,
        }),
{
    reveal_with_fuel(count_of, 2);
    match v {
        JsonView::Arr(a) => {
            lemma_total_of(a.len());
            assert(counts(a) =~= Seq::new(a.len(), |i: int| counts(a)[i]));
            assert(total_of(a.len(), |i: int| counts(a)[i]) == total(counts(a)));
        },
        JsonView::Obj(o) => {
            lemma_total_of(o.len());
            assert(entry_counts(o) =~= Seq::new(o.len(), |i: int| entry_counts(o)[i]));
            assert(total_of(o.len(), |i: int| entry_counts(o)[i]) == total(entry_counts(o)));
        },
        _ => {},
    }
}

/// Whether the node carries a breakpoint itself.
fn marked(node: &Json) -> (r: bool)
    ensures
        r == is_marked(node@),
{
    match node.get("cache_control") {
        Some(c) => c.has_text("type", "ephemeral"),
        None => false,
    }
}

/// Counts the breakpoints anywhere in the value.
pub fn count_cache_breakpoints(node: &Json) -> (r: usize)
    ensures
        r == shown(count_of(node@)),
    decreases node,
{
    proof {
        lemma_count(node@);
    }
    match node {
        Json::Arr(a) => {
            let n: usize = a.len();
            let mut sum: usize = 0;
            let mut i: usize = 0;
            while i < n
                invariant
                    n == a@.len(),
                    i <= n,
                    *node matches Json::Arr(w) && w@ == a@,
                    sum == shown(total(counts(json::arr_view(a@)).take(i as int))),
                decreases n - i,
            {
                assert(decreases_to!(*node => a@[i as int]));
                proof {
                    let cs = counts(json::arr_view(a@));
                    assert(cs.take(i + 1).drop_last() =~= cs.take(i as int));
                }
                sum = sum.saturating_add(count_cache_breakpoints(&a[i]));
                i += 1;
            }
            assert(counts(json::arr_view(a@)).take(n as int) =~= counts(json::arr_view(a@)));
            sum
        },
        Json::Obj(o) => {
            let n: usize = o.len();
            let mut sum: usize = 0;
            let mut i: usize = 0;
            while i < n
                invariant
                    n == o@.len(),
                    i <= n,
                    *node matches Json::Obj(w) && w@ == o@,
                    sum == shown(total(entry_counts(json::obj_view(o@)).take(i as int))),
                decreases n - i,
            {
                assert(decreases_to!(*node => o@[i as int].1));
                proof {
                    let cs = entry_counts(json::obj_view(o@));
                    assert(cs.take(i + 1).drop_last() =~= cs.take(i as int));
                }
                sum = sum.saturating_add(count_cache_breakpoints(&o[i].1));
                i += 1;
            }
            assert(entry_counts(json::obj_view(o@)).take(n as int) =~= entry_counts(json::obj_view(o@)));
            if marked(node) {
                sum.saturating_add(1)
            } else {
                sum
            }
        },
        _ => 0,
    }
}

/// `v` after every breakpoint in it was given the lifetime `ttl`.
pub open spec fn retimed(v: JsonView, ttl: Seq<char>) -> JsonView
    decreases v,
{
    match v {
        JsonView::Arr(a) => JsonView::Arr(
            Seq::new(
                a.len(),
                |i: int|
                    if 0 <= i < a.len() {
                        retimed(a[i], ttl)
                    } else {
                        JsonView::Null
                    },
            ),
        ),
        JsonView::Obj(o) => JsonView::Obj(
            Seq::new(
                o.len(),
                |i: int|
                    if 0 <= i < o.len() {
                        if o[i].0 == "cache_control"@ {
                            (o[i].0, retimed_control(o[i].1, ttl))
                        } else {
                            (o[i].0, retimed(o[i].1, ttl))
                        }
                    } else {
                        (Seq::empty(), JsonView::Null)
                    },
            ),
        ),
        _ => v,
    }
}

/// The control value `c` with the lifetime `ttl`, where it makes a breakpoint.
pub open spec fn retimed_control(c: JsonView, ttl: Seq<char>) -> JsonView {
    if ephemeral(c) {
        json::with_field(c, "ttl"@, JsonView::Str(ttl))
    } else {
        c
    }
}

/// The items after every breakpoint in them was given the lifetime `ttl`.
pub open spec fn retimed_items(a: Seq<JsonView>, ttl: Seq<char>) -> Seq<JsonView> {
    Seq::new(a.len(), |i: int| retimed(a[i], ttl))
}

/// The entry after every breakpoint that it makes or holds was given the lifetime `ttl`.
pub open spec fn retimed_entry(e: (Seq<char>, JsonView), ttl: Seq<char>) -> (Seq<char>, JsonView) {
    if e.0 == "cache_control"@ {
        (e.0, retimed_control(e.1, ttl))
    } else {
        (e.0, retimed(e.1, ttl))
    }
}

/// The entries after every breakpoint that they make or hold was given the lifetime `ttl`.
pub open spec fn retimed_entries(o: Seq<(Seq<char>, JsonView)>, ttl: Seq<char>) -> Seq<
    (Seq<char>, JsonView),
> {
    Seq::new(o.len(), |i: int| retimed_entry(o[i], ttl))
}

pub proof fn lemma_retimed(v: JsonView, ttl: Seq<char>)
    ensures
        retimed(v, ttl) == (match v {
            JsonView::Arr(a) => JsonView::Arr(retimed_items(a, ttl)),
            JsonView::Obj(o) => JsonView::Obj(retimed_entries(o, ttl)),
            _ => v,
        }),
{
    reveal_with_fuel(retimed, 2);
    match v {
        JsonView::Arr(a) => {
            assert(retimed(v, ttl)->Arr_0 =~= retimed_items(a, ttl));
        },
        JsonView::Obj(o) => {
            assert(retimed(v, ttl)->Obj_0 =~= retimed_entries(o, ttl));
        },
        _ => {},
    }
}

/// One breakpoint made by a control value that lives an hour (`hour`) or does not (`!hour`).
pub open spec fn control_tally(c: JsonView, hour: bool) -> nat {
    if ephemeral(c) && (json::text_field(c, "ttl"@) == Some("1h"@)) == hour {
        1
    } else {
        0
    }
}

/// The breakpoints in `v`, not counting inside control values, that live an hour (`hour`) or do
/// not (`!hour`).
pub open spec fn tally(v: JsonView, hour: bool) -> nat
    decreases v,
{
    match v {
        JsonView::Arr(a) => total_of(
            a.len(),
            |i: int|
                if 0 <= i < a.len() {
                    tally(a[i], hour)
                } else {
                    0
                },
        ),
        JsonView::Obj(o) => total_of(
            o.len(),
            |i: int|
                if 0 <= i < o.len() {
                    if o[i].0 == "cache_control"@ {
                        control_tally(o[i].1, hour)
                    } else {
                        tally(o[i].1, hour)
                    }
                } else {
                    0
                },
        ),
        _ => 0,
    }
}

/// The tally of each item.
pub open spec fn tallies(a: Seq<JsonView>, hour: bool) -> Seq<nat> {
    Seq::new(a.len(), |i: int| tally(a[i], hour))
}

/// The tally of one entry.
pub open spec fn entry_tally(e: (Seq<char>, JsonView), hour: bool) -> nat {
    if e.0 == "cache_control"@ {
        control_tally(e.1, hour)
    } else {
        tally(e.1, hour)
    }
}

/// The tally of each entry.
pub open spec fn entry_tallies(o: Seq<(Seq<char>, JsonView)>, hour: bool) -> Seq<nat> {
    Seq::new(o.len(), |i: int| entry_tally(o[i], hour))
}

pub proof fn lemma_tally(v: JsonView, hour: bool)
    ensures
        tally(v, hour) == (match v {
            JsonView::Arr(a) => total(tallies(a, hour)),
            JsonView::Obj(o) => total(entry_tallies(o, hour)),
            _ => 0,
        }),
{
    reveal_with_fuel(tally, 2);
    match v {
        JsonView::Arr(a) => {
            lemma_total_of(a.len());
            assert(tallies(a, hour) =~= Seq::new(a.len(), |i: int| tallies(a, hour)[i]));
            assert(total_of(a.len(), |i: int| tallies(a, hour)[i]) == total(tallies(a, hour)));
        },
        JsonView::Obj(o) => {
            lemma_total_of(o.len());
            assert(entry_tallies(o, hour) =~= Seq::new(o.len(), |i: int| entry_tallies(o, hour)[i]));
            assert(total_of(o.len(), |i: int| entry_tallies(o, hour)[i]) == total(entry_tallies(o, hour)));
        },
        _ => {},
    }
}

/// Gives every breakpoint in the value the lifetime `ttl`. Returns how many had not lived an hour
/// before and how many had.
fn retime(node: &mut Json, ttl: &str) -> (r: (usize, usize))
    ensures
        final(node)@ == retimed(old(node)@, ttl@),
        r.0 == shown(tally(old(node)@, false)),
        r.1 == shown(tally(old(node)@, true)),
    decreases *old(node),
{
    proof {
        lemma_retimed(node@, ttl@);
        lemma_tally(node@, false);
        lemma_tally(node@, true);
    }
    match node {
        Json::Arr(a) => {
            let ghost a0 = a@;
            let n: usize = a.len();
            let mut fresh: usize = 0;
            let mut kept: usize = 0;
            let mut i: usize = 0;
            while i < n
                invariant
                    n == a@.len(),
                    n == a0.len(),
                    i <= n,
                    *old(node) matches Json::Arr(w) && w@ == a0,
                    forall|j: int| 0 <= j < i ==> (#[trigger] a@[j])@ == retimed(a0[j]@, ttl@),
                    forall|j: int| i <= j < n ==> #[trigger] a@[j] == a0[j],
                    fresh == shown(total(tallies(json::arr_view(a0), false).take(i as int))),
                    kept == shown(total(tallies(json::arr_view(a0), true).take(i as int))),
                decreases n - i,
            {
                proof {
                    assert(decreases_to!(*old(node) => a0[i as int]));
                    let f = tallies(json::arr_view(a0), false);
                    let k = tallies(json::arr_view(a0), true);
                    assert(f.take(i + 1).drop_last() =~= f.take(i as int));
                    assert(k.take(i + 1).drop_last() =~= k.take(i as int));
                }
                let (f, k): (usize, usize) = retime(&mut a[i], ttl);
                fresh = fresh.saturating_add(f);
                kept = kept.saturating_add(k);
                i += 1;
            }
            proof {
                assert(json::arr_view(a@) =~= retimed_items(json::arr_view(a0), ttl@));
                let f = tallies(json::arr_view(a0), false);
                let k = tallies(json::arr_view(a0), true);
                assert(f.take(n as int) =~= f);
                assert(k.take(n as int) =~= k);
            }
            (fresh, kept)
        },
        Json::Obj(o) => {
            let ghost o0 = o@;
            let n: usize = o.len();
            let mut fresh: usize = 0;
            let mut kept: usize = 0;
            let mut i: usize = 0;
            while i < n
                invariant
                    n == o@.len(),
                    n == o0.len(),
                    i <= n,
                    *old(node) matches Json::Obj(w) && w@ == o0,
                    forall|j: int|
                        0 <= j < i ==> (#[trigger] json::obj_view(o@)[j]) == retimed_entry(
                            json::obj_view(o0)[j],
                            ttl@,
                        ),
                    forall|j: int| i <= j < n ==> #[trigger] o@[j] == o0[j],
                    fresh == shown(total(entry_tallies(json::obj_view(o0), false).take(i as int))),
                    kept == shown(total(entry_tallies(json::obj_view(o0), true).take(i as int))),
                decreases n - i,
            {
                let ghost o1 = o@;
                proof {
                    assert(decreases_to!(*old(node) => o0[i as int].1));
                    let f = entry_tallies(json::obj_view(o0), false);
                    let k = entry_tallies(json::obj_view(o0), true);
                    assert(f.take(i + 1).drop_last() =~= f.take(i as int));
                    assert(k.take(i + 1).drop_last() =~= k.take(i as int));
                }
                if same(o[i].0.as_str(), "cache_control") {
                    if o[i].1.has_text("type", "ephemeral") {
                        if o[i].1.has_text("ttl", "1h") {
                            kept = kept.saturating_add(1);
                        } else {
                            fresh = fresh.saturating_add(1);
                        }
                        o[i].1.set("ttl", Json::Str(ttl.to_owned()));
                    }
                } else {
                    let (f, k): (usize, usize) = retime(&mut o[i].1, ttl);
                    fresh = fresh.saturating_add(f);
                    kept = kept.saturating_add(k);
                }
                proof {
                    assert(o@ =~= o1.update(i as int, o@[i as int]));
                }
                i += 1;
            }
            proof {
                assert(json::obj_view(o@) =~= retimed_entries(json::obj_view(o0), ttl@));
                let f = entry_tallies(json::obj_view(o0), false);
                let k = entry_tallies(json::obj_view(o0), true);
                assert(f.take(n as int) =~= f);
                assert(k.take(n as int) =~= k);
            }
            (fresh, kept)
        },
        _ => (0, 0),
    }
}

/// Giving breakpoints a lifetime keeps every entry in its place.
pub proof fn lemma_index_retimed(o: Seq<(Seq<char>, JsonView)>, ttl: Seq<char>, k: Seq<char>)
    ensures
        json::index_of(retimed_entries(o, ttl), k, 0) == json::index_of(o, k, 0),
{
    let b = retimed_entries(o, ttl);
    json::lemma_index_of(o, k, 0);
    assert forall|m: int| 0 <= m < o.len() implies (#[trigger] b[m]).0 == o[m].0 by {}
    match json::index_of(o, k, 0) {
        Some(i) => {
            assert forall|m: int| 0 <= m < i implies (#[trigger] b[m]).0 != k by {
                assert(o[m].0 != k);
            }
            json::lemma_index_is(b, k, 0, i);
        },
        None => {
            assert forall|m: int| 0 <= m < b.len() implies (#[trigger] b[m]).0 != k by {
                assert(o[m].0 != k);
            }
            json::lemma_index_none(b, k, 0);
        },
    }
}

/// What stands under a key after the breakpoints were given a lifetime.
pub proof fn lemma_field_retimed(v: JsonView, ttl: Seq<char>, k: Seq<char>)
    ensures
        json::field(retimed(v, ttl), k) == (match json::field(v, k) {
            Some(x) => Some(
                if k == "cache_control"@ {
                    retimed_control(x, ttl)
                } else {
                    retimed(x, ttl)
                },
            ),
            None => None,
        }),
{
    lemma_retimed(v, ttl);
    if let JsonView::Obj(o) = v {
        lemma_index_retimed(o, ttl, k);
        json::lemma_index_of(o, k, 0);
    }
}

/// A value can be put under a key before or after the breakpoints are given a lifetime.
pub proof fn lemma_retimed_with(v: JsonView, k: Seq<char>, x: JsonView, ttl: Seq<char>)
    requires
        k != "cache_control"@,
    ensures
        retimed(json::with_field(v, k, x), ttl) == json::with_field(
            retimed(v, ttl),
            k,
            retimed(x, ttl),
        ),
{
    lemma_retimed(v, ttl);
    lemma_retimed(json::with_field(v, k, x), ttl);
    if let JsonView::Obj(o) = v {
        lemma_index_retimed(o, ttl, k);
        json::lemma_index_of(o, k, 0);
        assert(retimed(json::with_field(v, k, x), ttl)->Obj_0 =~= json::with_field(
            retimed(v, ttl),
            k,
            retimed(x, ttl),
        )->Obj_0);
    }
}

/// The messages after the breakpoints of the last one were given the lifetime `tail` and all others
/// an hour.
pub open spec fn retimed_messages(ms: Seq<JsonView>, tail: Seq<char>) -> Seq<JsonView> {
    Seq::new(
        ms.len(),
        |i: int|
            retimed(
                ms[i],
                if i + 1 == ms.len() {
                    tail
                } else {
                    "1h"@
                },
            ),
    )
}

/// The request body after every breakpoint in it was given an hour, but for those in the last
/// message, which were given the lifetime `tail`.
pub open spec fn ttls_applied(body: JsonView, tail: Seq<char>) -> JsonView {
    let b = retimed(body, "1h"@);
    match json::arr_field(body, "messages"@) {
        Some(ms) => json::with_field(b, "messages"@, JsonView::Arr(retimed_messages(ms, tail))),
        None => b,
    }
}

/// The request body without its last message.
pub open spec fn without_last(body: JsonView) -> JsonView {
    match json::arr_field(body, "messages"@) {
        Some(ms) => if ms.len() > 0 {
            json::with_field(body, "messages"@, JsonView::Arr(ms.drop_last()))
        } else {
            body
        },
        None => body,
    }
}

/// The last message of the request body.
pub open spec fn last_message(body: JsonView) -> Option<JsonView> {
    match json::arr_field(body, "messages"@) {
        Some(ms) => if ms.len() > 0 {
            Some(ms.last())
        } else {
            None
        },
        None => None,
    }
}

/// The tally of everything but the last message.
pub open spec fn head_tally(body: JsonView, hour: bool) -> nat {
    tally(without_last(body), hour)
}

/// The breakpoints in the last message.
pub open spec fn tail_tally(body: JsonView) -> nat {
    match last_message(body) {
        Some(m) => tally(m, false) + tally(m, true),
        None => 0,
    }
}

/// How many breakpoints were given an hour, how many already had one, and how many stand in the
/// last message.
#[derive(Clone, Copy, Debug, PartialEq, Eq, Structural)]
pub struct TtlCounter {
    pub rewritten: usize,
    pub already: usize,
    pub skipped: usize,
}

/// Setting lifetimes is giving the body without its last message an hour and putting that message
/// back with the lifetime of the tail.
pub proof fn lemma_ttls(body: JsonView, tail: Seq<char>)
    ensures
        without_last(ttls_applied(body, tail)) == retimed(without_last(body), "1h"@),
        last_message(ttls_applied(body, tail)) == (match last_message(body) {
            Some(m) => Some(retimed(m, tail)),
            None => None,
        }),
        match json::arr_field(body, "messages"@) {
            Some(ms) => ms.len() > 0 ==> ttls_applied(body, tail) == json::with_field(
                retimed(without_last(body), "1h"@),
                "messages"@,
                JsonView::Arr(
                    retimed_items(ms.drop_last(), "1h"@).push(retimed(ms.last(), tail)),
                ),
            ),
            None => true,
        },
        last_message(body) is None ==> ttls_applied(body, tail) == retimed(body, "1h"@),
{
    broadcast use json::group_json_fields;

    reveal_strlit("messages");
    reveal_strlit("cache_control");
    assert("messages"@.len() != "cache_control"@.len());
    let r = retimed(body, "1h"@);
    lemma_retimed(body, "1h"@);
    lemma_field_retimed(body, "1h"@, "messages"@);
    match json::field(body, "messages"@) {
        Some(JsonView::Arr(ms)) => {
            let rs = retimed_messages(ms, tail);
            lemma_retimed(JsonView::Arr(ms), "1h"@);
            if ms.len() > 0 {
                let head = JsonView::Arr(ms.drop_last());
                lemma_retimed(head, "1h"@);
                lemma_retimed_with(body, "messages"@, head, "1h"@);
                assert(rs =~= retimed_items(ms.drop_last(), "1h"@).push(retimed(ms.last(), tail)));
                assert(rs.drop_last() =~= retimed_items(ms.drop_last(), "1h"@));
                json::lemma_with_twice(r, "messages"@, JsonView::Arr(rs), retimed(head, "1h"@));
                json::lemma_with_twice(r, "messages"@, retimed(head, "1h"@), JsonView::Arr(rs));
            } else {
                assert(rs =~= retimed_items(ms, "1h"@));
            }
        },
        Some(x) => {
            lemma_retimed(x, "1h"@);
        },
        None => {},
    }
}

/// Gives every breakpoint an hour, except those in the last message, which get `tail_ttl`.
pub fn apply_ttls(body: &mut Json, tail_ttl: &str) -> (r: TtlCounter)
    ensures
        final(body)@ == ttls_applied(old(body)@, tail_ttl@),
        r.rewritten == shown(head_tally(old(body)@, false)),
        r.already == shown(head_tally(old(body)@, true)),
        r.skipped == shown(tail_tally(old(body)@)),
{
    broadcast use json::group_json_fields;

    let ghost b0 = body@;
    proof {
        reveal_strlit("messages");
        reveal_strlit("cache_control");
        assert("messages"@.len() != "cache_control"@.len());
        lemma_ttls(b0, tail_ttl@);
    }
    let last: Option<Json> = match body.get_mut("messages") {
        Some(Json::Arr(ms)) => {
            let ghost m0 = json::arr_view(ms@);
            let last: Option<Json> = ms.pop();
            assert(m0.len() > 0 ==> json::arr_view(ms@) =~= m0.drop_last());
            assert(m0.len() == 0 ==> json::arr_view(ms@) =~= m0);
            last
        },
        _ => None,
    };
    assert(body@ == without_last(b0));
    let (rewritten, already): (usize, usize) = retime(body, "1h");
    let skipped: usize = match last {
        Some(m) => {
            let mut m: Json = m;
            let (f, k): (usize, usize) = retime(&mut m, tail_ttl);
            proof {
                let head = JsonView::Arr(json::arr_field(b0, "messages"@)->0.drop_last());
                lemma_field_retimed(without_last(b0), "1h"@, "messages"@);
                lemma_retimed(head, "1h"@);
            }
            match body.get_mut("messages") {
                Some(Json::Arr(ms)) => {
                    let ghost m1 = json::arr_view(ms@);
                    ms.push(m);
                    assert(json::arr_view(ms@) =~= m1.push(m@));
                },
                _ => {},
            }
            f.saturating_add(k)
        },
        None => 0,
    };
    TtlCounter { rewritten, already, skipped }
}

/// How many of the values satisfy `p`.
pub open spec fn how_many(s: Seq<JsonView>, p: spec_fn(JsonView) -> bool) -> nat
    decreases s.len(),
{
    if s.len() == 0 {
        0
    } else {
        how_many(s.drop_last(), p) + (if p(s.last()) {
            1nat
        } else {
            0nat
        })
    }
}

/// `v` is a breakpoint on less text than is worth a slot.
pub open spec fn small_mark(v: JsonView) -> bool {
    is_marked(v) && (match json::text_field(v, "text"@) {
        Some(t) => t.len(),
        None => 0,
    }) < MIN_SYSTEM_CACHE_CHARS
}

/// `v` without its control value.
pub open spec fn unmarked(v: JsonView) -> JsonView {
    json::without_field(v, "cache_control"@)
}

/// `v` without its control value, where that is a breakpoint on too little text.
pub open spec fn small_unmarked(v: JsonView) -> JsonView {
    if small_mark(v) {
        unmarked(v)
    } else {
        v
    }
}

/// `body` without the breakpoints on small system blocks.
pub open spec fn small_system_stripped(body: JsonView) -> JsonView {
    match json::arr_field(body, "system"@) {
        Some(bs) => json::with_field(
            body,
            "system"@,
            JsonView::Arr(bs.map_values(|b: JsonView| small_unmarked(b))),
        ),
        None => body,
    }
}

/// The breakpoints on small system blocks.
pub open spec fn small_system_count(body: JsonView) -> nat {
    match json::arr_field(body, "system"@) {
        Some(bs) => how_many(bs, |b: JsonView| small_mark(b)),
        None => 0,
    }
}

/// Takes the control value off the block where it is a breakpoint on too little text.
fn unmark_small(block: &mut Json) -> (r: bool)
    ensures
        final(block)@ == small_unmarked(old(block)@),
        r == small_mark(old(block)@),
{
    if !marked(block) {
        return false;
    }
    let len: usize = match block.get_text("text") {
        Some(t) => t.unicode_len(),
        None => 0,
    };
    if len < MIN_SYSTEM_CACHE_CHARS {
        block.remove("cache_control");
        true
    } else {
        false
    }
}

/// Takes the breakpoints off the system blocks that are too small to be worth one.
fn strip_small_system_breakpoints(body: &mut Json) -> (r: usize)
    ensures
        final(body)@ == small_system_stripped(old(body)@),
        r == small_system_count(old(body)@),
{
    broadcast use json::group_json_fields;

    match body.get_mut("system") {
        Some(Json::Arr(bs)) => {
            let ghost b0 = bs@;
            let ghost p = |b: JsonView| small_mark(b);
            let n: usize = bs.len();
            let mut stripped: usize = 0;
            let mut i: usize = 0;
            while i < n
                invariant
                    n == bs@.len(),
                    n == b0.len(),
                    i <= n,
                    stripped <= i,
                    p == (|b: JsonView| small_mark(b)),
                    forall|j: int| 0 <= j < i ==> (#[trigger] bs@[j])@ == small_unmarked(b0[j]@),
                    forall|j: int| i <= j < n ==> #[trigger] bs@[j] == b0[j],
                    stripped == how_many(json::arr_view(b0).take(i as int), p),
                decreases n - i,
            {
                assert(json::arr_view(b0).take(i + 1).drop_last() =~= json::arr_view(b0).take(
                    i as int,
                ));
                if unmark_small(&mut bs[i]) {
                    stripped += 1;
                }
                i += 1;
            }
            proof {
                assert(json::arr_view(b0).take(n as int) =~= json::arr_view(b0));
                assert(json::arr_view(bs@) =~= json::arr_view(b0).map_values(
                    |b: JsonView| small_unmarked(b),
                ));
            }
            stripped
        },
        _ => 0,
    }
}

/// `v` is a block that a breakpoint can stand on.
pub open spec fn cacheable(v: JsonView) -> bool {
    let t = json::text_field(v, "type"@);
    t == Some("text"@) || t == Some("tool_result"@) || t == Some("image"@)
}

/// The position of the last block that a breakpoint can stand on.
pub open spec fn last_cacheable_in(bs: Seq<JsonView>) -> Option<int>
    decreases bs.len(),
{
    if bs.len() == 0 {
        None
    } else if cacheable(bs.last()) {
        Some(bs.len() - 1)
    } else {
        last_cacheable_in(bs.drop_last())
    }
}

/// The message `m` with a text for content turned into one block of that text.
pub open spec fn normalized(m: JsonView) -> JsonView {
    match json::field(m, "content"@) {
        Some(JsonView::Str(s)) => if s.len() > 0 {
            json::with_field(m, "content"@, JsonView::Arr(seq![json::text_block_of(s)]))
        } else {
            m
        },
        _ => m,
    }
}

/// The blocks of the message `m`, a text for content counting as one block.
pub open spec fn blocks_of(m: JsonView) -> Seq<JsonView> {
    match json::arr_field(normalized(m), "content"@) {
        Some(bs) => bs,
        None => Seq::empty(),
    }
}

/// The position of the last block of the message that a breakpoint can stand on.
pub open spec fn last_cacheable(m: JsonView) -> Option<int> {
    last_cacheable_in(blocks_of(m))
}

fn is_cacheable(b: &Json) -> (r: bool)
    ensures
        r == cacheable(b@),
{
    match b.get_text("type") {
        Some(t) => same(t, "text") || same(t, "tool_result") || same(t, "image"),
        None => false,
    }
}

pub proof fn lemma_last_cacheable(bs: Seq<JsonView>)
    ensures
        match last_cacheable_in(bs) {
            Some(i) => 0 <= i < bs.len() && cacheable(bs[i]) && forall|j: int|
                i < j < bs.len() ==> !cacheable(#[trigger] bs[j]),
            None => forall|j: int| 0 <= j < bs.len() ==> !cacheable(#[trigger] bs[j]),
        },
    decreases bs.len(),
{
    if bs.len() > 0 && !cacheable(bs.last()) {
        let short = bs.drop_last();
        lemma_last_cacheable(short);
        assert forall|j: int|
            0 <= j < bs.len() && (last_cacheable_in(short) matches Some(i) ==> i < j) implies !cacheable(
            #[trigger] bs[j],
        ) by {
            if j < short.len() {
                assert(short[j] == bs[j]);
            }
        }
    }
}

/// Turns a text for content into one block and finds the last block that a breakpoint can stand on.
fn last_cacheable_block_idx(message: &mut Json) -> (r: Option<usize>)
    ensures
        final(message)@ == normalized(old(message)@),
        match r {
            Some(i) => last_cacheable(old(message)@) == Some(i as int) && i < blocks_of(
                old(message)@,
            ).len(),
            None => last_cacheable(old(message)@) is None,
        },
{
    broadcast use json::group_json_fields;

    let ghost m0 = message@;
    proof {
        lemma_last_cacheable(blocks_of(m0));
    }
    let mut lone: Option<String> = None;
    match message.get("content") {
        Some(Json::Arr(bs)) => {
            let mut n: usize = bs.len();
            assert(json::arr_view(bs@) == blocks_of(m0));
            assert(blocks_of(m0).take(n as int) =~= blocks_of(m0));
            while n > 0
                invariant
                    n <= bs@.len(),
                    json::arr_view(bs@) == blocks_of(m0),
                    last_cacheable_in(blocks_of(m0).take(n as int)) == last_cacheable(m0),
                    m0 == message@,
                    m0 == old(message)@,
                    normalized(m0) == m0,
                decreases n,
            {
                assert(blocks_of(m0).take(n as int).drop_last() =~= blocks_of(m0).take(n - 1));
                if is_cacheable(&bs[n - 1]) {
                    return Some(n - 1);
                }
                n -= 1;
            }
            assert(blocks_of(m0).take(0).len() == 0);
            return None;
        },
        Some(Json::Str(s)) => {
            if !s.as_str().is_empty() {
                lone = Some(s.clone());
            }
        },
        _ => {},
    }
    match lone {
        Some(t) => {
            let mut bs: Vec<Json> = Vec::new();
            let ghost tv = t@;
            bs.push(json::text_block(t));
            assert(json::arr_view(bs@) =~= seq![json::text_block_of(tv)]);
            message.set("content", Json::Arr(bs));
            proof {
                json::lemma_text_block(tv);
                assert(blocks_of(m0) =~= seq![json::text_block_of(tv)]);
                assert(last_cacheable_in(blocks_of(m0)) == Some(0int));
            }
            Some(0)
        },
        None => None,
    }
}

/// The control value of a breakpoint that lives for `ttl`.
pub open spec fn control_of(ttl: Seq<char>) -> JsonView {
    JsonView::Obj(seq![("type"@, JsonView::Str("ephemeral"@)), ("ttl"@, JsonView::Str(ttl))])
}

/// The object `v` as a breakpoint that lives for `ttl`.
pub open spec fn marked_for(v: JsonView, ttl: Seq<char>) -> JsonView {
    json::with_field(v, "cache_control"@, control_of(ttl))
}

/// Makes an object a breakpoint that lives for `ttl`.
fn set_cc(node: &mut Json, ttl: &str)
    ensures
        final(node)@ == marked_for(old(node)@, ttl@),
{
    let control: Json = control(ttl);
    node.set("cache_control", control);
}

/// The control value of a breakpoint that lives for `ttl`.
fn control(ttl: &str) -> (r: Json)
    ensures
        r@ == control_of(ttl@),
{
    let mut o: Vec<(String, Json)> = Vec::new();
    o.push(("type".to_owned(), Json::Str("ephemeral".to_owned())));
    o.push(("ttl".to_owned(), Json::Str(ttl.to_owned())));
    assert(json::obj_view(o@) =~= control_of(ttl@)->Obj_0);
    Json::Obj(o)
}

/// Some item carries a breakpoint.
pub open spec fn any_marked(a: Seq<JsonView>) -> bool {
    exists|i: int| 0 <= i < a.len() && is_marked(#[trigger] a[i])
}

/// Whether some item carries a breakpoint.
fn has_breakpoint(a: &Vec<Json>) -> (r: bool)
    ensures
        r == any_marked(json::arr_view(a@)),
{
    let n: usize = a.len();
    let mut i: usize = 0;
    while i < n
        invariant
            n == a@.len(),
            i <= n,
            forall|j: int| 0 <= j < i ==> !is_marked(#[trigger] json::arr_view(a@)[j]),
        decreases n - i,
    {
        if marked(&a[i]) {
            assert(is_marked(json::arr_view(a@)[i as int]));
            return true;
        }
        i += 1;
    }
    false
}

/// A slot for a breakpoint is free.
pub open spec fn has_slot(body: JsonView) -> bool {
    count_of(body) < BREAKPOINT_CEILING
}

/// Whether a slot for a breakpoint is free.
fn slot_is_free(body: &Json) -> (r: bool)
    ensures
        r == has_slot(body@),
{
    count_cache_breakpoints(body) < BREAKPOINT_CEILING
}

/// A list of items under the key `k` that carries no breakpoint and ends in an object, while a slot
/// is free.
pub open spec fn open_list(body: JsonView, k: Seq<char>) -> bool {
    match json::arr_field(body, k) {
        Some(a) => a.len() > 0 && !any_marked(a) && a.last() is Obj && has_slot(body),
        None => false,
    }
}

/// `body` with the last item under the key `k` made an hour's breakpoint, where the list carries
/// none and a slot is free.
pub open spec fn list_marked(body: JsonView, k: Seq<char>) -> JsonView {
    if open_list(body, k) {
        let a = json::arr_field(body, k)->0;
        json::with_field(
            body,
            k,
            JsonView::Arr(a.update(a.len() - 1, marked_for(a.last(), "1h"@))),
        )
    } else {
        body
    }
}

/// Makes the last item under the key `k` an hour's breakpoint, where the list carries none and a slot
/// is free.
fn mark_list(body: &mut Json, k: &str) -> (r: bool)
    ensures
        final(body)@ == list_marked(old(body)@, k@),
        r == open_list(old(body)@, k@),
{
    broadcast use json::group_json_fields;

    if !slot_is_free(body) {
        return false;
    }
    match body.get_mut(k) {
        Some(Json::Arr(a)) => {
            let n: usize = a.len();
            if n == 0 || has_breakpoint(a) {
                return false;
            }
            let is_obj: bool = match &a[n - 1] {
                Json::Obj(_) => true,
                _ => false,
            };
            if is_obj {
                set_cc(&mut a[n - 1], "1h");
            }
            is_obj
        },
        _ => false,
    }
}

/// A block of text as an hour's breakpoint.
pub open spec fn marked_text_of(t: Seq<char>) -> JsonView {
    JsonView::Obj(
        seq![
            ("type"@, JsonView::Str("text"@)),
            ("text"@, JsonView::Str(t)),
            ("cache_control"@, control_of("1h"@)),
        ],
    )
}

/// A block of text as an hour's breakpoint.
fn marked_text(t: String) -> (r: Json)
    ensures
        r@ == marked_text_of(t@),
{
    let mut o: Vec<(String, Json)> = Vec::new();
    o.push(("type".to_owned(), Json::Str("text".to_owned())));
    o.push(("text".to_owned(), Json::Str(t)));
    o.push(("cache_control".to_owned(), control("1h")));
    assert(json::obj_view(o@) =~= marked_text_of(t@)->Obj_0);
    Json::Obj(o)
}

/// `body` with a breakpoint at the end of its system prompt, where that carries none and a slot is
/// free. A prompt that is a text becomes one block then.
pub open spec fn system_marked(body: JsonView) -> JsonView {
    match json::field(body, "system"@) {
        Some(JsonView::Str(t)) => if t.len() > 0 && has_slot(body) {
            json::with_field(body, "system"@, JsonView::Arr(seq![marked_text_of(t)]))
        } else {
            body
        },
        _ => list_marked(body, "system"@),
    }
}

/// What the log says of the system prompt's breakpoint.
pub open spec fn system_tag(body: JsonView) -> Seq<Seq<char>> {
    match json::field(body, "system"@) {
        Some(JsonView::Str(t)) => if t.len() > 0 && has_slot(body) {
            seq!["system-string"@]
        } else {
            seq![]
        },
        _ => if open_list(body, "system"@) {
            seq!["system"@]
        } else {
            seq![]
        },
    }
}

/// Places a breakpoint at the end of the system prompt, where that carries none and a slot is free.
fn mark_system(body: &mut Json, tags: &mut Vec<String>)
    ensures
        final(body)@ == system_marked(old(body)@),
        text::texts(final(tags)@) == text::texts(old(tags)@) + system_tag(old(body)@),
{
    broadcast use json::group_json_fields;

    let ghost t0 = text::texts(tags@);
    let lone: Option<String> = match body.get_text("system") {
        Some(s) => if s.is_empty() || !slot_is_free(body) {
            None
        } else {
            Some(s.to_owned())
        },
        None => None,
    };
    match lone {
        Some(t) => {
            let mut bs: Vec<Json> = Vec::new();
            let ghost tv = t@;
            bs.push(marked_text(t));
            assert(json::arr_view(bs@) =~= seq![marked_text_of(tv)]);
            body.set("system", Json::Arr(bs));
            tags.push("system-string".to_owned());
            assert(text::texts(tags@) =~= t0 + seq!["system-string"@]);
        },
        None => {
            if mark_list(body, "system") {
                tags.push("system".to_owned());
                assert(text::texts(tags@) =~= t0 + seq!["system"@]);
            } else {
                assert(text::texts(tags@) =~= t0 + Seq::<Seq<char>>::empty());
            }
        },
    }
}

/// The last block of the message that a breakpoint can stand on carries no control value.
pub open spec fn open_message(m: JsonView) -> bool {
    match last_cacheable(m) {
        Some(i) => json::field(blocks_of(m)[i], "cache_control"@) is None,
        None => false,
    }
}

/// The message with a breakpoint that lives for `ttl` on its last block that can carry one, where
/// that block carries no control value yet.
pub open spec fn message_marked(m: JsonView, ttl: Seq<char>) -> JsonView {
    if open_message(m) {
        let i = last_cacheable(m)->0;
        let bs = blocks_of(m);
        json::with_field(
            normalized(m),
            "content"@,
            JsonView::Arr(bs.update(i, marked_for(bs[i], ttl))),
        )
    } else {
        normalized(m)
    }
}

/// Places a breakpoint that lives for `ttl` on the last block of the message that can carry one.
/// Returns whether there is such a block, and whether it got one.
fn mark_message(m: &mut Json, ttl: &str) -> (r: (bool, bool))
    ensures
        final(m)@ == message_marked(old(m)@, ttl@),
        r.0 == (last_cacheable(old(m)@) is Some),
        r.1 == open_message(old(m)@),
{
    broadcast use json::group_json_fields;

    let ghost m0 = m@;
    match last_cacheable_block_idx(m) {
        Some(i) => {
            match m.get_mut("content") {
                Some(Json::Arr(bs)) => {
                    let free: bool = bs[i].get("cache_control").is_none();
                    if free {
                        set_cc(&mut bs[i], ttl);
                    }
                    (true, free)
                },
                _ => (true, false),
            }
        },
        None => (false, false),
    }
}

/// The first message has room for a breakpoint of its own.
pub open spec fn first_is_open(body: JsonView) -> bool {
    match json::arr_field(body, "messages"@) {
        Some(ms) => ms.len() > 1 && has_slot(body),
        None => false,
    }
}

/// `body` with an hour's breakpoint in its first message, where another follows and a slot is free.
pub open spec fn first_marked(body: JsonView) -> JsonView {
    if first_is_open(body) {
        let ms = json::arr_field(body, "messages"@)->0;
        json::with_field(
            body,
            "messages"@,
            JsonView::Arr(ms.update(0, message_marked(ms[0], "1h"@))),
        )
    } else {
        body
    }
}

/// What the log says of the first message's breakpoint.
pub open spec fn first_tag(body: JsonView) -> Seq<Seq<char>> {
    if first_is_open(body) && open_message(json::arr_field(body, "messages"@)->0[0]) {
        seq!["msg0"@]
    } else {
        seq![]
    }
}

fn mark_first(body: &mut Json, tags: &mut Vec<String>)
    ensures
        final(body)@ == first_marked(old(body)@),
        text::texts(final(tags)@) == text::texts(old(tags)@) + first_tag(old(body)@),
{
    broadcast use json::group_json_fields;

    let ghost t0 = text::texts(tags@);
    let several: bool = match body.get_items("messages") {
        Some(ms) => ms.len() > 1,
        None => false,
    };
    let mut placed: bool = false;
    if several && slot_is_free(body) {
        match body.get_mut("messages") {
            Some(Json::Arr(ms)) => {
                let (_, p): (bool, bool) = mark_message(&mut ms[0], "1h");
                placed = p;
            },
            _ => {},
        }
    }
    if placed {
        tags.push("msg0".to_owned());
        assert(text::texts(tags@) =~= t0 + seq!["msg0"@]);
    } else {
        assert(text::texts(tags@) =~= t0 + Seq::<Seq<char>>::empty());
    }
}

/// The position of the last message with a block that a breakpoint can stand on.
pub open spec fn tail_index(ms: Seq<JsonView>) -> Option<int>
    decreases ms.len(),
{
    if ms.len() == 0 {
        None
    } else if last_cacheable(ms.last()) is Some {
        Some(ms.len() - 1)
    } else {
        tail_index(ms.drop_last())
    }
}

/// The message that the rolling tail's breakpoint goes to, where a slot is free.
pub open spec fn tail_target(body: JsonView) -> Option<int> {
    match json::arr_field(body, "messages"@) {
        Some(ms) => if has_slot(body) {
            tail_index(ms)
        } else {
            None
        },
        None => None,
    }
}

/// `body` with a breakpoint that lives for `ttl` on the last block of all messages that can carry
/// one, where a slot is free.
pub open spec fn tail_marked(body: JsonView, ttl: Seq<char>) -> JsonView {
    match tail_target(body) {
        Some(i) => {
            let ms = json::arr_field(body, "messages"@)->0;
            json::with_field(
                body,
                "messages"@,
                JsonView::Arr(ms.update(i, message_marked(ms[i], ttl))),
            )
        },
        None => body,
    }
}

/// What the log says of the rolling tail's breakpoint.
pub open spec fn tail_tag(body: JsonView, ttl: Seq<char>) -> Seq<Seq<char>> {
    match tail_target(body) {
        Some(i) => if open_message(json::arr_field(body, "messages"@)->0[i]) {
            seq!["tail:"@ + ttl]
        } else {
            seq![]
        },
        None => seq![],
    }
}

pub proof fn lemma_tail_index(ms: Seq<JsonView>)
    ensures
        match tail_index(ms) {
            Some(i) => 0 <= i < ms.len() && last_cacheable(ms[i]) is Some && forall|j: int|
                i < j < ms.len() ==> last_cacheable(#[trigger] ms[j]) is None,
            None => forall|j: int| 0 <= j < ms.len() ==> last_cacheable(#[trigger] ms[j]) is None,
        },
    decreases ms.len(),
{
    if ms.len() > 0 && last_cacheable(ms.last()) is None {
        let short = ms.drop_last();
        lemma_tail_index(short);
        assert forall|j: int|
            0 <= j < ms.len() && (tail_index(short) matches Some(i) ==> i < j) implies last_cacheable(
            #[trigger] ms[j],
        ) is None by {
            if j < short.len() {
                assert(short[j] == ms[j]);
            }
        }
    }
}

/// A message without a block that a breakpoint can stand on stays as it is.
pub proof fn lemma_not_cacheable(m: JsonView, ttl: Seq<char>)
    requires
        last_cacheable(m) is None,
    ensures
        message_marked(m, ttl) == m,
{
    broadcast use json::group_json_fields;

    if let Some(JsonView::Str(s)) = json::field(m, "content"@) {
        if s.len() > 0 {
            json::lemma_text_block(s);
            assert(blocks_of(m).last() == json::text_block_of(s));
            assert(cacheable(blocks_of(m).last()));
        }
    }
}

/// Places the rolling tail's breakpoint among the messages.
fn mark_tail_in(ms: &mut Vec<Json>, ttl: &str) -> (r: bool)
    ensures
        match tail_index(json::arr_view(old(ms)@)) {
            Some(i) => {
                let v = json::arr_view(old(ms)@);
                &&& 0 <= i < v.len()
                &&& json::arr_view(final(ms)@) == v.update(i, message_marked(v[i], ttl@))
                &&& r == open_message(v[i])
            },
            None => json::arr_view(final(ms)@) == json::arr_view(old(ms)@) && !r,
        },
{
    let ghost v = json::arr_view(ms@);
    let mut n: usize = ms.len();
    proof {
        lemma_tail_index(v);
        assert(v.take(n as int) =~= v);
    }
    while n > 0
        invariant
            n <= ms@.len(),
            json::arr_view(ms@) == v,
            v == json::arr_view(old(ms)@),
            tail_index(v) == tail_index(v.take(n as int)),
        decreases n,
    {
        let ghost m0 = ms@;
        proof {
            lemma_tail_index(v);
            assert(v.take(n as int).drop_last() =~= v.take(n - 1));
        }
        let (found, placed): (bool, bool) = mark_message(&mut ms[n - 1], ttl);
        proof {
            assert(json::arr_view(ms@) =~= v.update(n - 1, message_marked(v[n - 1], ttl@)));
        }
        if found {
            return placed;
        }
        proof {
            lemma_not_cacheable(v[n - 1], ttl@);
            assert(json::arr_view(ms@) =~= v);
        }
        n -= 1;
    }
    assert(v.take(0).len() == 0);
    false
}

fn mark_tail(body: &mut Json, ttl: &str, tags: &mut Vec<String>)
    ensures
        final(body)@ == tail_marked(old(body)@, ttl@),
        text::texts(final(tags)@) == text::texts(old(tags)@) + tail_tag(old(body)@, ttl@),
{
    broadcast use json::group_json_fields;

    let ghost t0 = text::texts(tags@);
    let mut placed: bool = false;
    if slot_is_free(body) {
        match body.get_mut("messages") {
            Some(Json::Arr(ms)) => {
                placed = mark_tail_in(ms, ttl);
            },
            _ => {},
        }
    }
    if placed {
        tags.push(text::glue("tail:", ttl));
        assert(text::texts(tags@) =~= t0 + seq!["tail:"@ + ttl@]);
    } else {
        assert(text::texts(tags@) =~= t0 + Seq::<Seq<char>>::empty());
    }
}

/// What the log says of the small system blocks.
pub open spec fn small_system_tag(body: JsonView) -> Seq<Seq<char>> {
    let n = small_system_count(body);
    if n > 0 {
        seq!["strip-sys:"@ + text::decimal_of(n)]
    } else {
        seq![]
    }
}

/// What the log says of the tools' breakpoint.
pub open spec fn tools_tag(body: JsonView) -> Seq<Seq<char>> {
    if open_list(body, "tools"@) {
        seq!["tools"@]
    } else {
        seq![]
    }
}

/// The request body with small system breakpoints taken off and with breakpoints placed on the last
/// tool, on the system prompt, in the first message and on the rolling tail, each where none stands
/// yet and while a slot is free.
pub open spec fn injected(body: JsonView, tail: Seq<char>) -> JsonView {
    tail_marked(
        first_marked(system_marked(list_marked(small_system_stripped(body), "tools"@))),
        tail,
    )
}

/// The log's words for each of the edits that were made, in order.
pub open spec fn inject_tags(body: JsonView, tail: Seq<char>) -> Seq<Seq<char>> {
    let b1 = small_system_stripped(body);
    let b2 = list_marked(b1, "tools"@);
    let b3 = system_marked(b2);
    let b4 = first_marked(b3);
    small_system_tag(body) + tools_tag(b1) + system_tag(b2) + first_tag(b3) + tail_tag(b4, tail)
}

/// The log's note on the edits.
pub open spec fn inject_note(tags: Seq<Seq<char>>) -> Seq<char> {
    if tags.len() == 0 {
        "none"@
    } else {
        text::join_of(tags, "+"@)
    }
}

/// Places up to four breakpoints, as far as slots are free, and returns the log's note on them.
pub fn inject_breakpoint_if_absent(body: &mut Json, tail_ttl: &str) -> (r: String)
    ensures
        final(body)@ == injected(old(body)@, tail_ttl@),
        count_of(old(body)@) <= BREAKPOINT_CEILING ==> count_of(final(body)@)
            <= BREAKPOINT_CEILING,
        r@ == inject_note(inject_tags(old(body)@, tail_ttl@)),
{
    let mut tags: Vec<String> = Vec::new();
    let ghost body0 = body@;
    proof {
        cache_laws::law_injection_keeps_the_ceiling(body0, tail_ttl@);
    }
    let stripped: usize = strip_small_system_breakpoints(body);
    assert(text::texts(tags@) =~= Seq::<Seq<char>>::empty());
    if stripped > 0 {
        tags.push(text::glue("strip-sys:", text::decimal(stripped as u64).as_str()));
    }
    assert(text::texts(tags@) =~= small_system_tag(body0));
    let ghost t1 = text::texts(tags@);
    if mark_list(body, "tools") {
        tags.push("tools".to_owned());
        assert(text::texts(tags@) =~= t1 + seq!["tools"@]);
    } else {
        assert(text::texts(tags@) =~= t1 + Seq::<Seq<char>>::empty());
    }
    mark_system(body, &mut tags);
    mark_first(body, &mut tags);
    mark_tail(body, tail_ttl, &mut tags);
    if tags.len() == 0 {
        assert(text::texts(tags@).len() == 0);
        "none".to_owned()
    } else {
        assert(text::texts(tags@).len() > 0);
        text::join(&tags, "+")
    }
}

/// `v` carries a control value of any kind.
pub open spec fn has_control(v: JsonView) -> bool {
    json::field(v, "cache_control"@) is Some
}

/// The message without the control values of its blocks.
pub open spec fn message_unmarked(m: JsonView) -> JsonView {
    match json::arr_field(m, "content"@) {
        Some(bs) => json::with_field(
            m,
            "content"@,
            JsonView::Arr(bs.map_values(|b: JsonView| unmarked(b))),
        ),
        None => m,
    }
}

/// The blocks of the message that carry a control value.
pub open spec fn control_count(m: JsonView) -> nat {
    match json::arr_field(m, "content"@) {
        Some(bs) => how_many(bs, |b: JsonView| has_control(b)),
        None => 0,
    }
}

/// The messages without the control values on the blocks of all but the first and the last.
pub open spec fn middle_unmarked(ms: Seq<JsonView>) -> Seq<JsonView> {
    Seq::new(
        ms.len(),
        |i: int|
            if 0 < i < ms.len() - 1 {
                message_unmarked(ms[i])
            } else {
                ms[i]
            },
    )
}

/// The control values on the blocks of all messages but the first and the last.
pub open spec fn middle_count(ms: Seq<JsonView>) -> nat {
    total(
        Seq::new(
            ms.len(),
            |i: int|
                if 0 < i < ms.len() - 1 {
                    control_count(ms[i])
                } else {
                    0
                },
        ),
    )
}

/// The request body without the control values in its intermediate messages.
pub open spec fn intermediate_stripped(body: JsonView) -> JsonView {
    match json::arr_field(body, "messages"@) {
        Some(ms) => json::with_field(body, "messages"@, JsonView::Arr(middle_unmarked(ms))),
        None => body,
    }
}

/// The control values in the intermediate messages.
pub open spec fn intermediate_count(body: JsonView) -> nat {
    match json::arr_field(body, "messages"@) {
        Some(ms) => middle_count(ms),
        None => 0,
    }
}

/// Takes the control values off the blocks of a message. Returns how many there were.
fn unmark_message(m: &mut Json) -> (r: usize)
    ensures
        final(m)@ == message_unmarked(old(m)@),
        r == control_count(old(m)@),
{
    broadcast use json::group_json_fields;

    match m.get_mut("content") {
        Some(Json::Arr(bs)) => {
            let ghost b0 = bs@;
            let ghost p = |b: JsonView| has_control(b);
            let n: usize = bs.len();
            let mut stripped: usize = 0;
            let mut i: usize = 0;
            while i < n
                invariant
                    n == bs@.len(),
                    n == b0.len(),
                    i <= n,
                    stripped <= i,
                    p == (|b: JsonView| has_control(b)),
                    forall|j: int| 0 <= j < i ==> (#[trigger] bs@[j])@ == unmarked(b0[j]@),
                    forall|j: int| i <= j < n ==> #[trigger] bs@[j] == b0[j],
                    stripped == how_many(json::arr_view(b0).take(i as int), p),
                decreases n - i,
            {
                assert(json::arr_view(b0).take(i + 1).drop_last() =~= json::arr_view(b0).take(
                    i as int,
                ));
                if bs[i].remove("cache_control") {
                    stripped += 1;
                }
                i += 1;
            }
            proof {
                assert(json::arr_view(b0).take(n as int) =~= json::arr_view(b0));
                assert(json::arr_view(bs@) =~= json::arr_view(b0).map_values(
                    |b: JsonView| unmarked(b),
                ));
            }
            stripped
        },
        _ => 0,
    }
}

/// Takes the control values off the blocks of every message but the first and the last. Returns how
/// many there were.
pub fn strip_intermediate_message_breakpoints(body: &mut Json) -> (r: usize)
    ensures
        final(body)@ == intermediate_stripped(old(body)@),
        r == shown(intermediate_count(old(body)@)),
{
    broadcast use json::group_json_fields;

    match body.get_mut("messages") {
        Some(Json::Arr(ms)) => {
            let ghost m0 = ms@;
            let ghost v = json::arr_view(m0);
            let ghost cs = Seq::new(
                v.len(),
                |i: int|
                    if 0 < i < v.len() - 1 {
                        control_count(v[i])
                    } else {
                        0
                    },
            );
            let n: usize = ms.len();
            let mut stripped: usize = 0;
            let mut i: usize = 0;
            assert(cs.take(0).len() == 0);
            while i < n
                invariant
                    n == ms@.len(),
                    n == m0.len(),
                    i <= n,
                    v == json::arr_view(m0),
                    cs.len() == n,
                    forall|j: int|
                        0 <= j < n ==> #[trigger] cs[j] == (if 0 < j < n - 1 {
                            control_count(v[j])
                        } else {
                            0
                        }),
                    forall|j: int|
                        0 <= j < i ==> (#[trigger] ms@[j])@ == middle_unmarked(v)[j],
                    forall|j: int| i <= j < n ==> #[trigger] ms@[j] == m0[j],
                    stripped == shown(total(cs.take(i as int))),
                decreases n - i,
            {
                assert(cs.take(i + 1).drop_last() =~= cs.take(i as int));
                if 0 < i && i < n - 1 {
                    stripped = stripped.saturating_add(unmark_message(&mut ms[i]));
                }
                i += 1;
            }
            proof {
                assert(cs.take(n as int) =~= cs);
                assert(json::arr_view(ms@) =~= middle_unmarked(v));
            }
            stripped
        },
        _ => 0,
    }
}

} // verus!
