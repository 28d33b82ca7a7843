//! Which breakpoints a request leaves with: what is placed, what is taken off and what is left alone,
//! block by block.

use vstd::prelude::*;

use crate::cache;
use crate::cache_laws;
use crate::json;
use crate::json::JsonView;
use crate::lifetime_laws;
use crate::text;

verus! {

/// The object is a breakpoint: its `cache_control` has the type `ephemeral`.
pub open spec fn breakpoint(v: JsonView) -> bool {
    json::field(v, "cache_control"@) matches Some(c) && json::text_field(c, "type"@) == Some(
        "ephemeral"@,
    )
}

/// The block's text has at least 500 characters.
pub open spec fn long(v: JsonView) -> bool {
    json::text_field(v, "text"@) matches Some(t) && t.len() >= 500
}

/// The control value of a breakpoint that was placed here.
pub open spec fn fresh(ttl: Seq<char>) -> JsonView {
    JsonView::Obj(seq![("type"@, JsonView::Str("ephemeral"@)), ("ttl"@, JsonView::Str(ttl))])
}

/// `w` is the object `v` with a fresh breakpoint on it.
pub open spec fn placed(v: JsonView, w: JsonView, ttl: Seq<char>) -> bool {
    &&& json::field(w, "cache_control"@) == Some(fresh(ttl))
    &&& forall|q: Seq<char>| q != "cache_control"@ ==> #[trigger] json::field(w, q) == json::field(
        v,
        q,
    )
}

/// The list of tools can get a breakpoint: its last tool is an object, and none is a breakpoint.
pub open spec fn bare_tools(body: JsonView) -> bool {
    json::arr_field(body, "tools"@) matches Some(a) && a.len() > 0 && a.last() is Obj && forall|
        i: int,
    |
        0 <= i < a.len() ==> !breakpoint(#[trigger] a[i])
}

/// The system prompt can get a breakpoint: it is a text, or its last block is an object and no long
/// block is a breakpoint.
pub open spec fn bare_system(body: JsonView) -> bool {
    match json::field(body, "system"@) {
        Some(JsonView::Str(t)) => t.len() > 0,
        Some(JsonView::Arr(bs)) => bs.len() > 0 && bs.last() is Obj && forall|i: int|
            0 <= i < bs.len() && breakpoint(#[trigger] bs[i]) ==> !long(bs[i]),
        _ => false,
    }
}

/// One slot, where the condition holds.
pub open spec fn slot(b: bool) -> nat {
    if b {
        1
    } else {
        0
    }
}

/// The breakpoints on system blocks of fewer than 500 characters.
pub open spec fn short_breakpoints(body: JsonView) -> nat {
    match json::arr_field(body, "system"@) {
        Some(bs) => bs.filter(|b: JsonView| breakpoint(b) && !long(b)).len(),
        None => 0,
    }
}

/// The breakpoints that a request comes with, but for those on short system blocks.
pub open spec fn standing(body: JsonView) -> int {
    cache::count_of(body) - short_breakpoints(body)
}

/// Breakpoints are counted wherever they stand, each once: an array holds those of its items, and an
/// object those of its entries and one more where it is a breakpoint itself.
pub proof fn law_each_breakpoint_counts_once(
    a: Seq<JsonView>,
    o: Seq<(Seq<char>, JsonView)>,
    k: Seq<char>,
    x: JsonView,
)
    requires
        json::field(JsonView::Obj(o), k) is None,
    ensures
        cache::count_of(JsonView::Arr(Seq::empty())) == 0,
        cache::count_of(JsonView::Obj(Seq::empty())) == 0,
        !(x is Arr) && !(x is Obj) ==> cache::count_of(x) == 0,
        cache::count_of(JsonView::Arr(a.push(x))) == cache::count_of(JsonView::Arr(a))
            + cache::count_of(x),
        cache::count_of(JsonView::Obj(o.push((k, x)))) == cache::count_of(JsonView::Obj(o))
            + cache::count_of(x) + slot(
            k == "cache_control"@ && json::text_field(x, "type"@) == Some("ephemeral"@),
        ),
{
    broadcast use json::group_json_fields;

    cache::lemma_count(JsonView::Arr(Seq::empty()));
    cache::lemma_count(JsonView::Obj(Seq::empty()));
    cache::lemma_count(x);
    cache::lemma_count(JsonView::Arr(a));
    cache::lemma_count(JsonView::Arr(a.push(x)));
    assert(cache::counts(a.push(x)).drop_last() =~= cache::counts(a));
    let v = JsonView::Obj(o);
    assert(json::with_field(v, k, x) == JsonView::Obj(o.push((k, x))));
    cache_laws::lemma_count_with(v, k, x);
    assert(cache::count_of(JsonView::Arr(Seq::empty())) == 0);
    json::lemma_index_none(Seq::<(Seq<char>, JsonView)>::empty(), "cache_control"@, 0);
}

/// What stands under the other keys stays when one is taken out.
proof fn lemma_field_without(v: JsonView, k: Seq<char>, q: Seq<char>)
    requires
        q != k,
    ensures
        json::field(json::without_field(v, k), q) == json::field(v, q),
{
    if let JsonView::Obj(o) = v {
        json::lemma_index_of(o, k, 0);
        json::lemma_index_of(o, q, 0);
        if let Some(i) = json::index_of(o, k, 0) {
            let w = o.remove(i);
            match json::index_of(o, q, 0) {
                Some(j) => {
                    let n = if j < i {
                        j
                    } else {
                        j - 1
                    };
                    assert forall|m: int| 0 <= m < n implies (#[trigger] w[m]).0 != q by {
                        if m < i {
                            assert(w[m] == o[m]);
                        } else {
                            assert(w[m] == o[m + 1]);
                        }
                    }
                    json::lemma_index_is(w, q, 0, n);
                },
                None => {
                    assert forall|m: int| 0 <= m < w.len() implies (#[trigger] w[m]).0 != q by {
                        if m < i {
                            assert(w[m] == o[m]);
                        } else {
                            assert(w[m] == o[m + 1]);
                        }
                    }
                    json::lemma_index_none(w, q, 0);
                },
            }
        }
    }
}

/// A well-formed object has nothing under a key that was taken out.
proof fn lemma_gone(v: JsonView, k: Seq<char>)
    requires
        json::well_formed(v),
    ensures
        json::field(json::without_field(v, k), k) is None,
{
    json::law_without_field_is_well_formed(v, k);
}

/// Each breakpoint that is taken off a short system block is one less.
proof fn lemma_standing(body: JsonView)
    requires
        json::well_formed(body),
    ensures
        cache::count_of(cache::small_system_stripped(body)) <= standing(body),
{
    broadcast use json::group_json_fields;

    cache_laws::lemma_keys();
    if let Some(bs) = json::arr_field(body, "system"@) {
        let cs = bs.map_values(|b: JsonView| cache::small_unmarked(b));
        json::law_field_is_well_formed(body, "system"@);
        json::lemma_well_formed(JsonView::Arr(bs));
        lemma_fewer(bs);
        cache_laws::lemma_count_with(body, "system"@, JsonView::Arr(cs));
    }
}

proof fn lemma_fewer(bs: Seq<JsonView>)
    requires
        forall|i: int| 0 <= i < bs.len() ==> json::well_formed(#[trigger] bs[i]),
    ensures
        cache::count_of(JsonView::Arr(bs.map_values(|b: JsonView| cache::small_unmarked(b))))
            + bs.filter(|b: JsonView| breakpoint(b) && !long(b)).len() <= cache::count_of(
            JsonView::Arr(bs),
        ),
    decreases bs.len(),
{
    reveal(Seq::filter);
    let cs = bs.map_values(|b: JsonView| cache::small_unmarked(b));
    cache::lemma_count(JsonView::Arr(bs));
    cache::lemma_count(JsonView::Arr(cs));
    if bs.len() > 0 {
        let short = bs.drop_last();
        let less = short.map_values(|b: JsonView| cache::small_unmarked(b));
        lemma_fewer(short);
        cache::lemma_count(JsonView::Arr(short));
        cache::lemma_count(JsonView::Arr(less));
        assert(cache::counts(bs).drop_last() =~= cache::counts(short));
        assert(cache::counts(cs).drop_last() =~= cache::counts(less));
        let v = bs.last();
        if breakpoint(v) && !long(v) {
            assert(bs[bs.len() - 1] == v);
            lemma_marked_count(v);
        }
    }
}

/// An object without its first control value counts for at least one less, where that made it a
/// breakpoint.
proof fn lemma_marked_count(v: JsonView)
    requires
        breakpoint(v),
        json::well_formed(v),
    ensures
        cache::count_of(cache::unmarked(v)) < cache::count_of(v),
{
    lemma_gone(v, "cache_control"@);
    let o = v->Obj_0;
    let w = cache::unmarked(v);
    cache::lemma_count(v);
    cache::lemma_count(w);
    json::lemma_index_of(o, "cache_control"@, 0);
    let n = json::index_of(o, "cache_control"@, 0)->0;
    assert(cache::entry_counts(o.remove(n)) =~= cache::entry_counts(o).remove(n));
    cache_laws::lemma_total_remove(cache::entry_counts(o), n);
}

/// The steps that lead to the breakpoints of the system prompt.
proof fn lemma_system_steps(body: JsonView, tail: Seq<char>)
    ensures
        ({
            let b1 = cache::small_system_stripped(body);
            let b2 = cache::list_marked(b1, "tools"@);
            let b3 = cache::system_marked(b2);
            &&& json::field(cache::injected(body, tail), "system"@) == json::field(b3, "system"@)
            &&& json::field(b2, "system"@) == json::field(b1, "system"@)
            &&& json::field(cache::injected(body, tail), "tools"@) == json::field(b2, "tools"@)
            &&& json::field(b1, "tools"@) == json::field(body, "tools"@)
            &&& json::field(b3, "messages"@) == json::field(body, "messages"@)
            &&& cache::open_list(b1, "tools"@) ==> bare_tools(body)
            &&& bare_tools(body) && cache::has_slot(b1) ==> cache::open_list(b1, "tools"@)
            &&& json::well_formed(body) ==> cache::count_of(b1) <= standing(body)
            &&& json::well_formed(body) ==> cache::count_of(b2) <= standing(body) + slot(
                bare_tools(body),
            )
        }),
{
    broadcast use json::group_json_fields;

    cache_laws::lemma_keys();
    let b1 = cache::small_system_stripped(body);
    let b2 = cache::list_marked(b1, "tools"@);
    if json::well_formed(body) {
        lemma_standing(body);
    }
    cache_laws::lemma_count_list_marked(b1, "tools"@);
    if let Some(a) = json::arr_field(body, "tools"@) {
        assert(cache::any_marked(a) <==> exists|i: int|
            0 <= i < a.len() && breakpoint(#[trigger] a[i])) by {
            if cache::any_marked(a) {
                let i = choose|i: int| 0 <= i < a.len() && cache::is_marked(#[trigger] a[i]);
                assert(breakpoint(a[i]));
            }
            if exists|i: int| 0 <= i < a.len() && breakpoint(#[trigger] a[i]) {
                let i = choose|i: int| 0 <= i < a.len() && breakpoint(#[trigger] a[i]);
                assert(cache::is_marked(a[i]));
            }
        }
    }
}

/// The system blocks before one more is marked: short breakpoints are off.
proof fn lemma_stripped_blocks(body: JsonView, bs: Seq<JsonView>)
    requires
        json::arr_field(body, "system"@) == Some(bs),
    ensures
        ({
            let cs = bs.map_values(|b: JsonView| cache::small_unmarked(b));
            &&& json::field(cache::small_system_stripped(body), "system"@) == Some(
                JsonView::Arr(cs),
            )
            &&& forall|i: int|
                0 <= i < bs.len() ==> (#[trigger] cs[i]) == (if breakpoint(bs[i]) && !long(bs[i]) {
                    json::without_field(bs[i], "cache_control"@)
                } else {
                    bs[i]
                })
        }),
{
    broadcast use json::group_json_fields;

}

/// A client's breakpoint on a system block of at least 500 characters stays as it is, and with it
/// every other block that is no breakpoint: no other block gets one.
pub proof fn law_long_system_breakpoints_stay(body: JsonView, tail: Seq<char>, i: int)
    requires
        json::arr_field(body, "system"@) matches Some(bs) && 0 <= i < bs.len() && breakpoint(bs[i])
            && long(bs[i]),
    ensures
        ({
            let bs = json::arr_field(body, "system"@)->0;
            json::arr_field(cache::injected(body, tail), "system"@) matches Some(rs) && rs.len()
                == bs.len() && rs[i] == bs[i] && forall|j: int|
                0 <= j < bs.len() && (!breakpoint(bs[j]) || long(bs[j])) ==> #[trigger] rs[j]
                    == bs[j]
        }),
{
    let bs = json::arr_field(body, "system"@)->0;
    let cs = bs.map_values(|b: JsonView| cache::small_unmarked(b));
    lemma_system_steps(body, tail);
    lemma_stripped_blocks(body, bs);
    assert(cs[i] == bs[i]);
    assert(cache::is_marked(cs[i]));
    assert(cache::any_marked(cs));
}

/// A client's breakpoint on a shorter system block is taken off, unless the block is the last and gets
/// one of an hour instead.
pub proof fn law_short_system_breakpoints_go(body: JsonView, tail: Seq<char>, i: int)
    requires
        json::well_formed(body),
        json::arr_field(body, "system"@) matches Some(bs) && 0 <= i < bs.len() && breakpoint(bs[i])
            && !long(bs[i]),
    ensures
        json::arr_field(cache::injected(body, tail), "system"@) matches Some(rs) && (json::field(
            rs[i],
            "cache_control"@,
        ) is None || (i == rs.len() - 1 && json::field(rs[i], "cache_control"@) == Some(
            fresh("1h"@),
        ))),
{
    broadcast use json::group_json_fields;

    let bs = json::arr_field(body, "system"@)->0;
    let cs = bs.map_values(|b: JsonView| cache::small_unmarked(b));
    lemma_system_steps(body, tail);
    lemma_stripped_blocks(body, bs);
    json::law_field_is_well_formed(body, "system"@);
    json::lemma_well_formed(JsonView::Arr(bs));
    lemma_gone(bs[i], "cache_control"@);
    assert(json::field(cs[i], "cache_control"@) is None);
}

/// Whatever happens to the breakpoints of the system blocks, the blocks stay as many and say what they
/// said.
pub proof fn law_system_blocks_keep_their_contents(
    body: JsonView,
    tail: Seq<char>,
    i: int,
    q: Seq<char>,
)
    requires
        json::arr_field(body, "system"@) matches Some(bs) && 0 <= i < bs.len(),
        q != "cache_control"@,
    ensures
        ({
            let bs = json::arr_field(body, "system"@)->0;
            json::arr_field(cache::injected(body, tail), "system"@) matches Some(rs) && rs.len()
                == bs.len() && json::field(rs[i], q) == json::field(bs[i], q)
        }),
{
    broadcast use json::group_json_fields;

    let bs = json::arr_field(body, "system"@)->0;
    let cs = bs.map_values(|b: JsonView| cache::small_unmarked(b));
    lemma_system_steps(body, tail);
    lemma_stripped_blocks(body, bs);
    lemma_field_without(bs[i], "cache_control"@, q);
    assert(json::field(cs[i], q) == json::field(bs[i], q));
}

/// Where a slot is left, a system prompt without a breakpoint worth keeping leaves with one of an hour:
/// on its last block, or on the block that its text becomes.
pub proof fn law_system_prompts_are_marked(body: JsonView, tail: Seq<char>)
    requires
        json::well_formed(body),
        standing(body) + slot(bare_tools(body)) <= 3,
        bare_system(body),
    ensures
        json::field(body, "system"@) matches Some(JsonView::Str(t)) ==> json::field(
            cache::injected(body, tail),
            "system"@,
        ) == Some(
            JsonView::Arr(
                seq![
                    JsonView::Obj(
                        seq![
                            ("type"@, JsonView::Str("text"@)),
                            ("text"@, JsonView::Str(t)),
                            ("cache_control"@, fresh("1h"@)),
                        ],
                    ),
                ],
            ),
        ),
        json::arr_field(body, "system"@) matches Some(bs) ==> (json::arr_field(
            cache::injected(body, tail),
            "system"@,
        ) matches Some(rs) && rs.len() == bs.len() && json::field(rs.last(), "cache_control"@)
            == Some(fresh("1h"@)) && forall|j: int|
            0 <= j < bs.len() - 1 && !breakpoint(bs[j]) ==> #[trigger] rs[j] == bs[j]),
{
    broadcast use json::group_json_fields;

    lemma_system_steps(body, tail);
    cache_laws::lemma_keys();
    if let Some(bs) = json::arr_field(body, "system"@) {
        let cs = bs.map_values(|b: JsonView| cache::small_unmarked(b));
        lemma_stripped_blocks(body, bs);
        assert(!cache::any_marked(cs)) by {
            if cache::any_marked(cs) {
                let i = choose|i: int| 0 <= i < cs.len() && cache::is_marked(#[trigger] cs[i]);
                json::law_field_is_well_formed(body, "system"@);
                json::lemma_well_formed(JsonView::Arr(bs));
                lemma_gone(bs[i], "cache_control"@);
                assert(breakpoint(cs[i]));
                assert(cs[i] == bs[i]);
            }
        }
        assert(cs.last() is Obj) by {
            assert(cs[bs.len() - 1] is Obj);
        }
    } else {
        assert(json::field(cache::small_system_stripped(body), "system"@) == json::field(
            body,
            "system"@,
        ));
    }
}

/// Where a slot is left, a list of tools without a breakpoint leaves with one of an hour on its last
/// tool; in any other case, and of any other tool, nothing changes.
pub proof fn law_the_last_tool_is_marked(body: JsonView, tail: Seq<char>)
    ensures
        json::well_formed(body) && bare_tools(body) && standing(body) <= 3 ==> {
            let a = json::arr_field(body, "tools"@)->0;
            json::arr_field(cache::injected(body, tail), "tools"@) matches Some(rs) && rs.len()
                == a.len() && placed(a.last(), rs.last(), "1h"@) && forall|i: int|
                0 <= i < a.len() - 1 ==> #[trigger] rs[i] == a[i]
        },
        !bare_tools(body) ==> json::field(cache::injected(body, tail), "tools"@) == json::field(
            body,
            "tools"@,
        ),
{
    broadcast use json::group_json_fields;

    lemma_system_steps(body, tail);
}

/// Placing breakpoints touches nothing but the tools, the system prompt and the messages.
pub proof fn law_the_rest_of_the_body_stays(body: JsonView, tail: Seq<char>, k: Seq<char>)
    requires
        k != "tools"@,
        k != "system"@,
        k != "messages"@,
    ensures
        json::field(cache::injected(body, tail), k) == json::field(body, k),
        json::field(cache::intermediate_stripped(body), k) == json::field(body, k),
{
    broadcast use json::group_json_fields;

}

/// A request that comes with four breakpoints or more, none of them on a short system block, leaves as
/// it came.
pub proof fn law_four_are_enough(body: JsonView, tail: Seq<char>)
    requires
        cache::count_of(body) >= 4,
        json::arr_field(body, "system"@) matches Some(bs) ==> forall|i: int|
            0 <= i < bs.len() && breakpoint(#[trigger] bs[i]) ==> long(bs[i]),
    ensures
        cache::injected(body, tail) == body,
        cache::inject_note(cache::inject_tags(body, tail)) == "none"@,
{
    broadcast use json::group_json_fields;

    let b1 = cache::small_system_stripped(body);
    if let Some(bs) = json::arr_field(body, "system"@) {
        let cs = bs.map_values(|b: JsonView| cache::small_unmarked(b));
        lemma_stripped_blocks(body, bs);
        assert(cs =~= bs);
        lemma_none_small(bs);
    }
    assert(b1 == body);
}

proof fn lemma_none_small(bs: Seq<JsonView>)
    requires
        forall|i: int| 0 <= i < bs.len() && breakpoint(#[trigger] bs[i]) ==> long(bs[i]),
    ensures
        cache::how_many(bs, |b: JsonView| cache::small_mark(b)) == 0,
    decreases bs.len(),
{
    if bs.len() > 0 {
        assert(bs.last() == bs[bs.len() - 1]);
        lemma_none_small(bs.drop_last());
    }
}

/// However many breakpoints are placed, there are at most four, or no more than there were.
pub proof fn law_no_more_than_four(body: JsonView, tail: Seq<char>)
    ensures
        cache::count_of(cache::injected(body, tail)) <= 4 || cache::count_of(
            cache::injected(body, tail),
        ) <= cache::count_of(body),
{
    cache_laws::law_injection_keeps_the_ceiling(body, tail);
}

/// A breakpoint can stand on the block: it is a text, an image or the result of a tool.
pub open spec fn carrier(b: JsonView) -> bool {
    json::text_field(b, "type"@) matches Some(t) && (t == "text"@ || t == "image"@ || t
        == "tool_result"@)
}

/// The block `j` is the last one that a breakpoint can stand on.
pub open spec fn last_carrier(bs: Seq<JsonView>, j: int) -> bool {
    &&& 0 <= j < bs.len()
    &&& carrier(bs[j])
    &&& forall|l: int| j < l < bs.len() ==> !carrier(#[trigger] bs[l])
}

/// A breakpoint can stand somewhere in the message.
pub open spec fn carries(m: JsonView) -> bool {
    match json::field(m, "content"@) {
        Some(JsonView::Str(s)) => s.len() > 0,
        Some(JsonView::Arr(bs)) => exists|j: int| 0 <= j < bs.len() && carrier(#[trigger] bs[j]),
        _ => false,
    }
}

/// `w` is the message `m` after a breakpoint for `ttl` was put on its last block that one can stand
/// on, unless that block came with a control value. A text is one block for this.
pub open spec fn marked_at_its_end(m: JsonView, w: JsonView, ttl: Seq<char>) -> bool {
    &&& forall|q: Seq<char>|
        q != "content"@ ==> #[trigger] json::field(w, q) == json::field(m, q)
    &&& match json::field(m, "content"@) {
        Some(JsonView::Str(s)) => if s.len() > 0 {
            json::arr_field(w, "content"@) matches Some(cs) && cs.len() == 1 && json::text_field(
                cs[0],
                "type"@,
            ) == Some("text"@) && json::text_field(cs[0], "text"@) == Some(s) && json::field(
                cs[0],
                "cache_control"@,
            ) == Some(fresh(ttl))
        } else {
            w == m
        },
        Some(JsonView::Arr(bs)) => json::arr_field(w, "content"@) matches Some(cs) && cs.len()
            == bs.len() && forall|j: int|
            0 <= j < bs.len() ==> if last_carrier(bs, j) && json::field(
                bs[j],
                "cache_control"@,
            ) is None {
                placed(bs[j], #[trigger] cs[j], ttl)
            } else {
                cs[j] == bs[j]
            },
        _ => w == m,
    }
}

proof fn lemma_last_carrier(bs: Seq<JsonView>)
    ensures
        match cache::last_cacheable_in(bs) {
            Some(i) => last_carrier(bs, i) && forall|j: int| #[trigger]
                last_carrier(bs, j) ==> j == i,
            None => forall|j: int| 0 <= j < bs.len() ==> !carrier(#[trigger] bs[j]),
        },
{
    cache::lemma_last_cacheable(bs);
    assert forall|j: int| 0 <= j < bs.len() implies carrier(#[trigger] bs[j]) == cache::cacheable(
        bs[j],
    ) by {}
    if let Some(i) = cache::last_cacheable_in(bs) {
        assert forall|j: int| #[trigger] last_carrier(bs, j) implies j == i by {
            if j < i {
                assert(carrier(bs[i]));
            } else if j > i {
                assert(!cache::cacheable(bs[j]));
            }
        }
        assert forall|l: int| i < l < bs.len() implies !carrier(#[trigger] bs[l]) by {
            assert(!cache::cacheable(bs[l]));
        }
    }
}

proof fn lemma_carries(m: JsonView)
    ensures
        carries(m) == (cache::last_cacheable(m) is Some),
{
    broadcast use json::group_json_fields;

    match json::field(m, "content"@) {
        Some(JsonView::Str(s)) => {
            if s.len() > 0 {
                json::lemma_text_block(s);
                assert(cache::blocks_of(m) =~= seq![json::text_block_of(s)]);
                lemma_last_carrier(cache::blocks_of(m));
                assert(carrier(cache::blocks_of(m)[0]));
            } else {
                assert(cache::blocks_of(m) =~= Seq::empty());
            }
        },
        Some(JsonView::Arr(bs)) => {
            lemma_last_carrier(bs);
            if let Some(i) = cache::last_cacheable_in(bs) {
                assert(carrier(bs[i]));
            }
        },
        _ => {
            assert(cache::blocks_of(m) =~= Seq::empty());
        },
    }
}

proof fn lemma_placed(v: JsonView, ttl: Seq<char>)
    requires
        v is Obj,
    ensures
        placed(v, cache::marked_for(v, ttl), ttl),
{
    broadcast use json::group_json_fields;

}

proof fn lemma_marked_at_its_end(m: JsonView, ttl: Seq<char>)
    ensures
        marked_at_its_end(m, cache::message_marked(m, ttl), ttl),
{
    broadcast use json::group_json_fields;

    cache_laws::lemma_keys();
    cache_laws::lemma_names();
    let w = cache::message_marked(m, ttl);
    match json::field(m, "content"@) {
        Some(JsonView::Str(s)) => {
            if s.len() > 0 {
                let b = json::text_block_of(s);
                json::lemma_text_block(s);
                assert(cache::blocks_of(m) =~= seq![b]);
                lemma_last_carrier(cache::blocks_of(m));
                assert(carrier(cache::blocks_of(m)[0]));
                let cs = seq![b].update(0, cache::marked_for(b, ttl));
                assert(json::arr_field(w, "content"@) == Some(cs));
            } else {
                assert(cache::blocks_of(m) =~= Seq::empty());
            }
        },
        Some(JsonView::Arr(bs)) => {
            lemma_last_carrier(bs);
            assert(cache::normalized(m) == m);
            assert(cache::blocks_of(m) == bs);
            if cache::open_message(m) {
                let i = cache::last_cacheable_in(bs)->0;
                assert(last_carrier(bs, i));
                assert(bs[i] is Obj);
                lemma_placed(bs[i], ttl);
                let cs = bs.update(i, cache::marked_for(bs[i], ttl));
                assert(json::arr_field(w, "content"@) == Some(cs));
                assert forall|j: int| 0 <= j < bs.len() implies if last_carrier(bs, j)
                    && json::field(bs[j], "cache_control"@) is None {
                    placed(bs[j], #[trigger] cs[j], ttl)
                } else {
                    cs[j] == bs[j]
                } by {
                    if j == i {
                        assert(cs[j] == cache::marked_for(bs[i], ttl));
                    }
                }
            } else {
                assert(w == m);
            }
        },
        _ => {
            assert(cache::blocks_of(m) =~= Seq::empty());
        },
    }
}

/// The message `i` is the last one that a breakpoint can stand in.
pub open spec fn last_carrying(ms: Seq<JsonView>, i: int) -> bool {
    &&& 0 <= i < ms.len()
    &&& carries(ms[i])
    &&& forall|l: int| i < l < ms.len() ==> !carries(#[trigger] ms[l])
}

proof fn lemma_last_carrying(ms: Seq<JsonView>)
    ensures
        match cache::tail_index(ms) {
            Some(i) => last_carrying(ms, i) && forall|j: int| #[trigger]
                last_carrying(ms, j) ==> j == i,
            None => forall|j: int| 0 <= j < ms.len() ==> !carries(#[trigger] ms[j]),
        },
{
    cache::lemma_tail_index(ms);
    assert forall|j: int| 0 <= j < ms.len() implies carries(#[trigger] ms[j]) == (
    cache::last_cacheable(ms[j]) is Some) by {
        lemma_carries(ms[j]);
    }
    if let Some(i) = cache::tail_index(ms) {
        assert(carries(ms[i]));
        assert forall|l: int| i < l < ms.len() implies !carries(#[trigger] ms[l]) by {
            assert(cache::last_cacheable(ms[l]) is None);
        }
        assert forall|j: int| #[trigger] last_carrying(ms, j) implies j == i by {
            if j < i {
                assert(carries(ms[i]));
            } else if j > i {
                assert(!carries(ms[j]));
            }
        }
    }
}

/// The last block of the message that a breakpoint can stand on has no control value yet.
pub open spec fn free_at_its_end(m: JsonView) -> bool {
    match json::field(m, "content"@) {
        Some(JsonView::Str(s)) => s.len() > 0,
        Some(JsonView::Arr(bs)) => exists|j: int| #[trigger]
            last_carrier(bs, j) && json::field(bs[j], "cache_control"@) is None,
        _ => false,
    }
}

proof fn lemma_free_at_its_end(m: JsonView)
    ensures
        free_at_its_end(m) == cache::open_message(m),
{
    broadcast use json::group_json_fields;

    match json::field(m, "content"@) {
        Some(JsonView::Str(s)) => {
            if s.len() > 0 {
                json::lemma_text_block(s);
                assert(cache::blocks_of(m) =~= seq![json::text_block_of(s)]);
                lemma_last_carrier(cache::blocks_of(m));
                assert(carrier(cache::blocks_of(m)[0]));
            } else {
                assert(cache::blocks_of(m) =~= Seq::empty());
            }
        },
        Some(JsonView::Arr(bs)) => {
            lemma_last_carrier(bs);
            assert(cache::blocks_of(m) == bs);
            if free_at_its_end(m) {
                let j = choose|j: int| #[trigger]
                    last_carrier(bs, j) && json::field(bs[j], "cache_control"@) is None;
                assert(cache::last_cacheable_in(bs) is Some) by {
                    assert(carrier(bs[j]));
                }
            }
        },
        _ => {
            assert(cache::blocks_of(m) =~= Seq::empty());
        },
    }
}

/// The steps that lead to the breakpoints of the messages.
proof fn lemma_message_steps(body: JsonView, tail: Seq<char>, ms: Seq<JsonView>)
    requires
        json::arr_field(body, "messages"@) == Some(ms),
    ensures
        ({
            let b3 = cache::system_marked(
                cache::list_marked(cache::small_system_stripped(body), "tools"@),
            );
            let b4 = cache::first_marked(b3);
            let m4 = if ms.len() > 1 && cache::has_slot(b3) {
                ms.update(0, cache::message_marked(ms[0], "1h"@))
            } else {
                ms
            };
            &&& json::well_formed(body) ==> cache::count_of(b3) <= standing(body) + slot(
                bare_tools(body),
            ) + slot(bare_system(body))
            &&& cache::count_of(b4) <= cache::count_of(b3) + slot(
                ms.len() > 1 && free_at_its_end(ms[0]),
            )
            &&& json::arr_field(b4, "messages"@) == Some(m4)
            &&& json::arr_field(cache::injected(body, tail), "messages"@) == Some(
                if cache::has_slot(b4) && cache::tail_index(m4) is Some {
                    m4.update(
                        cache::tail_index(m4)->0,
                        cache::message_marked(m4[cache::tail_index(m4)->0], tail),
                    )
                } else {
                    m4
                },
            )
        }),
{
    broadcast use json::group_json_fields;

    cache_laws::lemma_keys();
    lemma_system_steps(body, tail);
    let b1 = cache::small_system_stripped(body);
    let b2 = cache::list_marked(b1, "tools"@);
    let b3 = cache::system_marked(b2);
    cache_laws::lemma_count_system(b2);
    if cache::system_tag(b2).len() > 0 {
        assert(bare_system(body)) by {
            if let Some(bs) = json::arr_field(body, "system"@) {
                let cs = bs.map_values(|b: JsonView| cache::small_unmarked(b));
                lemma_stripped_blocks(body, bs);
                assert forall|i: int| 0 <= i < bs.len() && breakpoint(
                    #[trigger] bs[i],
                ) implies !long(bs[i]) by {
                    if long(bs[i]) {
                        assert(cs[i] == bs[i]);
                        assert(cache::is_marked(cs[i]));
                    }
                }
                assert(cs[bs.len() - 1] is Obj);
            } else {
                assert(json::field(b1, "system"@) == json::field(body, "system"@));
            }
        }
    }
    if ms.len() > 1 {
        cache_laws::lemma_count_one_message(b3, 0, "1h"@);
        lemma_free_at_its_end(ms[0]);
    }
}

/// Where a slot is left and another message follows, the first message leaves with a breakpoint of an
/// hour on its last block that one can stand on.
pub proof fn law_the_first_message_is_marked(body: JsonView, tail: Seq<char>)
    requires
        json::well_formed(body),
        standing(body) + slot(bare_tools(body)) + slot(bare_system(body)) <= 3,
        json::arr_field(body, "messages"@) matches Some(ms) && ms.len() > 1,
    ensures
        ({
            let ms = json::arr_field(body, "messages"@)->0;
            json::arr_field(cache::injected(body, tail), "messages"@) matches Some(rs) && rs.len()
                == ms.len() && marked_at_its_end(ms[0], rs[0], "1h"@)
        }),
{
    let ms = json::arr_field(body, "messages"@)->0;
    lemma_message_steps(body, tail, ms);
    lemma_marked_at_its_end(ms[0], "1h"@);
    let m4 = ms.update(0, cache::message_marked(ms[0], "1h"@));
    cache::lemma_tail_index(m4);
    if cache::tail_index(m4) == Some(0int) {
        lemma_marked_stays(ms[0], "1h"@, tail);
    }
}

/// A message that was marked is not marked again.
proof fn lemma_marked_stays(m: JsonView, ttl: Seq<char>, tail: Seq<char>)
    ensures
        cache::message_marked(cache::message_marked(m, ttl), tail) == cache::message_marked(
            m,
            ttl,
        ),
{
    broadcast use json::group_json_fields;

    let w = cache::message_marked(m, ttl);
    if cache::last_cacheable(m) is Some {
        cache_laws::lemma_message_is_marked(m, ttl);
        assert(!cache::open_message(w));
    } else {
        cache::lemma_not_cacheable(m, ttl);
        cache::lemma_not_cacheable(m, tail);
    }
    if cache::last_cacheable(m) is Some {
        cache_laws::lemma_count_normalized(m);
        let n = cache::normalized(m);
        assert(cache::normalized(n) == n);
        assert(cache::normalized(w) == w);
    }
}

/// Where a slot is left, the last message that a breakpoint can stand in leaves with the rolling
/// tail's breakpoint on its last block that one can stand on.
pub proof fn law_the_rolling_tail_is_marked(body: JsonView, tail: Seq<char>, i: int)
    requires
        json::well_formed(body),
        json::arr_field(body, "messages"@) matches Some(ms) && last_carrying(ms, i) && (i > 0
            || ms.len() == 1) && standing(body) + slot(bare_tools(body)) + slot(
            bare_system(body),
        ) + slot(ms.len() > 1 && free_at_its_end(ms[0])) <= 3,
    ensures
        ({
            let ms = json::arr_field(body, "messages"@)->0;
            json::arr_field(cache::injected(body, tail), "messages"@) matches Some(rs) && rs.len()
                == ms.len() && marked_at_its_end(ms[i], rs[i], tail)
        }),
{
    let ms = json::arr_field(body, "messages"@)->0;
    lemma_message_steps(body, tail, ms);
    lemma_marked_at_its_end(ms[i], tail);
    let b3 = cache::system_marked(
        cache::list_marked(cache::small_system_stripped(body), "tools"@),
    );
    let m4 = if ms.len() > 1 && cache::has_slot(b3) {
        ms.update(0, cache::message_marked(ms[0], "1h"@))
    } else {
        ms
    };
    assert forall|l: int| i < l < m4.len() implies !carries(#[trigger] m4[l]) by {
        assert(m4[l] == ms[l]);
    }
    assert(m4[i] == ms[i]);
    assert(last_carrying(m4, i));
    lemma_last_carrying(m4);
}

/// No message changes but the first and the last one that a breakpoint can stand in, and none comes or
/// goes.
pub proof fn law_other_messages_stay(body: JsonView, tail: Seq<char>, i: int)
    requires
        json::arr_field(body, "messages"@) matches Some(ms) && 0 <= i < ms.len() && !last_carrying(
            ms,
            i,
        ) && (i > 0 || ms.len() == 1),
    ensures
        ({
            let ms = json::arr_field(body, "messages"@)->0;
            json::arr_field(cache::injected(body, tail), "messages"@) matches Some(rs) && rs.len()
                == ms.len() && rs[i] == ms[i]
        }),
{
    let ms = json::arr_field(body, "messages"@)->0;
    lemma_message_steps(body, tail, ms);
    let m = cache::message_marked(ms[0], "1h"@);
    lemma_last_carrying(ms);
    lemma_last_carrying(ms.update(0, m));
    if ms.len() > 1 {
        let m4 = ms.update(0, m);
        if last_carrying(m4, i) {
            assert(m4[i] == ms[i]);
            assert forall|l: int| i < l < ms.len() implies !carries(#[trigger] ms[l]) by {
                assert(m4[l] == ms[l]);
            }
            assert(last_carrying(ms, i));
        }
    }
}

/// Blocks of the messages between the first and the last lose their control values, whatever those are,
/// and nothing else.
pub proof fn law_middle_messages_lose_their_breakpoints(body: JsonView, i: int)
    requires
        json::well_formed(body),
        json::arr_field(body, "messages"@) matches Some(ms) && 0 < i < ms.len() - 1,
    ensures
        ({
            let ms = json::arr_field(body, "messages"@)->0;
            json::arr_field(cache::intermediate_stripped(body), "messages"@) matches Some(rs)
                && rs.len() == ms.len() && {
                &&& forall|q: Seq<char>|
                    q != "content"@ ==> #[trigger] json::field(rs[i], q) == json::field(ms[i], q)
                &&& json::arr_field(ms[i], "content"@) is None ==> rs[i] == ms[i]
                &&& json::arr_field(ms[i], "content"@) matches Some(bs) ==> (json::arr_field(
                    rs[i],
                    "content"@,
                ) matches Some(cs) && cs.len() == bs.len() && forall|j: int, q: Seq<char>|
                    0 <= j < bs.len() ==> #[trigger] json::field(cs[j], q) == (if q
                        == "cache_control"@ {
                        None
                    } else {
                        json::field(bs[j], q)
                    }))
            }
        }),
{
    broadcast use json::group_json_fields;

    let ms = json::arr_field(body, "messages"@)->0;
    let rs = cache::middle_unmarked(ms);
    assert(json::arr_field(cache::intermediate_stripped(body), "messages"@) == Some(rs));
    json::law_field_is_well_formed(body, "messages"@);
    json::lemma_well_formed(JsonView::Arr(ms));
    json::law_field_is_well_formed(ms[i], "content"@);
    if let Some(bs) = json::arr_field(ms[i], "content"@) {
        json::lemma_well_formed(JsonView::Arr(bs));
        let cs = bs.map_values(|b: JsonView| cache::unmarked(b));
        assert(json::arr_field(rs[i], "content"@) == Some(cs));
        assert forall|j: int, q: Seq<char>| 0 <= j < bs.len() implies #[trigger] json::field(
            cs[j],
            q,
        ) == (if q == "cache_control"@ {
            None
        } else {
            json::field(bs[j], q)
        }) by {
            if q == "cache_control"@ {
                lemma_gone(bs[j], q);
            } else {
                lemma_field_without(bs[j], "cache_control"@, q);
            }
        }
    }
}

/// The first message, the last one and everything but messages go through stripping as they came.
pub proof fn law_the_ends_keep_their_breakpoints(body: JsonView, i: int)
    requires
        json::arr_field(body, "messages"@) matches Some(ms) && (i == 0 || i == ms.len() - 1) && 0
            <= i < ms.len(),
    ensures
        json::arr_field(cache::intermediate_stripped(body), "messages"@) matches Some(rs) && rs[i]
            == json::arr_field(body, "messages"@)->0[i],
{
    broadcast use json::group_json_fields;

}

/// `t` alone, where the condition holds.
pub open spec fn said(b: bool, t: Seq<char>) -> Seq<Seq<char>> {
    if b {
        seq![t]
    } else {
        seq![]
    }
}

/// Where slots are left, the note says in this order how many breakpoints were taken off the system
/// prompt and which were placed: on the tools, on the system prompt, in the first message and on the
/// rolling tail.
pub proof fn law_the_note_tells_what_was_done(body: JsonView, tail: Seq<char>)
    requires
        json::well_formed(body),
        json::arr_field(body, "messages"@) is Some,
        standing(body) + slot(bare_tools(body)) + slot(bare_system(body)) + slot(
            json::arr_field(body, "messages"@)->0.len() > 1 && free_at_its_end(
                json::arr_field(body, "messages"@)->0[0],
            ),
        ) <= 3,
    ensures
        ({
            let ms = json::arr_field(body, "messages"@)->0;
            let n = short_breakpoints(body);
            cache::inject_tags(body, tail) == said(n > 0, "strip-sys:"@ + text::decimal_of(n))
                + said(bare_tools(body), "tools"@) + said(
                bare_system(body),
                if json::field(body, "system"@)->0 is Str {
                    "system-string"@
                } else {
                    "system"@
                },
            ) + said(ms.len() > 1 && free_at_its_end(ms[0]), "msg0"@) + said(
                exists|i: int| #[trigger]
                    last_carrying(ms, i) && (i > 0 || ms.len() == 1) && free_at_its_end(ms[i]),
                "tail:"@ + tail,
            )
        }),
{
    broadcast use json::group_json_fields;

    let ms = json::arr_field(body, "messages"@)->0;
    lemma_system_steps(body, tail);
    lemma_message_steps(body, tail, ms);
    cache_laws::lemma_keys();
    let b1 = cache::small_system_stripped(body);
    let b2 = cache::list_marked(b1, "tools"@);
    let b3 = cache::system_marked(b2);
    let b4 = cache::first_marked(b3);
    // What is taken off.
    if let Some(bs) = json::arr_field(body, "system"@) {
        lifetime_laws::lemma_how_many(
            bs,
            |b: JsonView| cache::small_mark(b),
            |b: JsonView| breakpoint(b) && !long(b),
        );
    }
    assert(cache::small_system_count(body) == short_breakpoints(body));
    // The system prompt.
    assert(cache::system_tag(b2) == said(
        bare_system(body),
        if json::field(body, "system"@)->0 is Str {
            "system-string"@
        } else {
            "system"@
        },
    )) by {
        if let Some(bs) = json::arr_field(body, "system"@) {
            let cs = bs.map_values(|b: JsonView| cache::small_unmarked(b));
            lemma_stripped_blocks(body, bs);
            json::law_field_is_well_formed(body, "system"@);
            json::lemma_well_formed(JsonView::Arr(bs));
            if bare_system(body) {
                if cache::any_marked(cs) {
                    let i = choose|i: int| 0 <= i < cs.len() && cache::is_marked(#[trigger] cs[i]);
                    lemma_gone(bs[i], "cache_control"@);
                    assert(breakpoint(cs[i]));
                    assert(cs[i] == bs[i]);
                }
                assert(cs[bs.len() - 1] is Obj);
            } else if cache::open_list(b2, "system"@) {
                assert(cs[bs.len() - 1] is Obj);
                assert forall|i: int| 0 <= i < bs.len() && breakpoint(
                    #[trigger] bs[i],
                ) implies !long(bs[i]) by {
                    if long(bs[i]) {
                        assert(cs[i] == bs[i]);
                        assert(cache::is_marked(cs[i]));
                    }
                }
            }
        } else {
            assert(json::field(b1, "system"@) == json::field(body, "system"@));
        }
    }
    // The messages.
    lemma_free_at_its_end(ms[0]);
    let m0 = cache::message_marked(ms[0], "1h"@);
    let m4 = if ms.len() > 1 && cache::has_slot(b3) {
        ms.update(0, m0)
    } else {
        ms
    };
    lemma_last_carrying(m4);
    lemma_last_carrying(ms);
    match cache::tail_index(m4) {
        Some(i) => {
            lemma_free_at_its_end(m4[i]);
            if i > 0 || ms.len() == 1 {
                assert(m4[i] == ms[i]);
                assert forall|l: int| i < l < ms.len() implies !carries(#[trigger] ms[l]) by {
                    assert(m4[l] == ms[l]);
                }
                assert(last_carrying(ms, i));
            } else {
                if cache::last_cacheable(ms[0]) is Some {
                    cache_laws::lemma_message_is_marked(ms[0], "1h"@);
                } else {
                    cache::lemma_not_cacheable(ms[0], "1h"@);
                }
                assert(!cache::open_message(m0));
                assert forall|j: int| #[trigger] last_carrying(ms, j) implies j == 0 by {
                    if j > 0 {
                        assert(m4[j] == ms[j]);
                        assert(!carries(m4[j]));
                    }
                }
            }
        },
        None => {
            assert forall|j: int| #[trigger] last_carrying(ms, j) implies j == 0 && ms.len() > 1 by {
                if j > 0 || ms.len() == 1 {
                    assert(m4[j] == ms[j]);
                    assert(!carries(m4[j]));
                }
            }
        },
    }
}

/// A note names its parts with plus signs between them, or says that there are none.
pub proof fn law_notes_are_joined(tags: Seq<Seq<char>>, t: Seq<char>)
    ensures
        cache::inject_note(Seq::empty()) == "none"@,
        cache::inject_note(seq![t]) == t,
        tags.len() > 0 ==> cache::inject_note(tags.push(t)) == cache::inject_note(tags) + "+"@ + t,
{
    assert(tags.push(t).drop_last() =~= tags);
}

/// However many slots are left, the tools stay as they are or gain the one breakpoint that is meant for
/// them, and a system prompt that is a text stays or becomes one block with a breakpoint.
pub proof fn law_tools_and_text_gain_at_most_one(body: JsonView, tail: Seq<char>)
    ensures
        ({
            let b = cache::injected(body, tail);
            &&& json::field(b, "tools"@) == json::field(body, "tools"@) || (bare_tools(body) && (
            json::arr_field(b, "tools"@) matches Some(rs) && rs.len() == json::arr_field(
                body,
                "tools"@,
            )->0.len() && placed(json::arr_field(body, "tools"@)->0.last(), rs.last(), "1h"@)))
            &&& json::arr_field(body, "system"@) is None ==> json::field(b, "system"@)
                == json::field(body, "system"@) || (json::text_field(body, "system"@) matches Some(t)
                && t.len() > 0 && (json::arr_field(b, "system"@) matches Some(rs) && rs.len() == 1
                && json::text_field(rs[0], "text"@) == Some(t) && json::text_field(rs[0], "type"@)
                == Some("text"@) && json::field(rs[0], "cache_control"@) == Some(fresh("1h"@))))
        }),
{
    broadcast use json::group_json_fields;

    lemma_system_steps(body, tail);
    cache_laws::lemma_keys();
    let b1 = cache::small_system_stripped(body);
    if cache::open_list(b1, "tools"@) {
        let a = json::arr_field(body, "tools"@)->0;
        lemma_placed(a.last(), "1h"@);
    }
    if json::arr_field(body, "system"@) is None {
        assert(json::field(b1, "system"@) == json::field(body, "system"@));
        if let Some(t) = json::text_field(body, "system"@) {
            lemma_text_mark(t);
        }
    }
}

/// However many slots are left, a message stays as it is or gains the one breakpoint that is meant for
/// it, and no message comes or goes.
pub proof fn law_messages_gain_at_most_one(body: JsonView, tail: Seq<char>, i: int)
    requires
        json::arr_field(body, "messages"@) matches Some(ms) && 0 <= i < ms.len(),
    ensures
        ({
            let ms = json::arr_field(body, "messages"@)->0;
            json::arr_field(cache::injected(body, tail), "messages"@) matches Some(rs) && rs.len()
                == ms.len() && (rs[i] == ms[i] || marked_at_its_end(ms[i], rs[i], "1h"@)
                || marked_at_its_end(ms[i], rs[i], tail))
        }),
{
    let ms = json::arr_field(body, "messages"@)->0;
    lemma_message_steps(body, tail, ms);
    lemma_marked_at_its_end(ms[i], "1h"@);
    lemma_marked_at_its_end(ms[i], tail);
    lemma_marked_stays(ms[0], "1h"@, tail);
    let b3 = cache::system_marked(
        cache::list_marked(cache::small_system_stripped(body), "tools"@),
    );
    let m4 = if ms.len() > 1 && cache::has_slot(b3) {
        ms.update(0, cache::message_marked(ms[0], "1h"@))
    } else {
        ms
    };
    cache::lemma_tail_index(m4);
}

proof fn lemma_text_mark(t: Seq<char>)
    ensures
        json::text_field(cache::marked_text_of(t), "text"@) == Some(t),
        json::text_field(cache::marked_text_of(t), "type"@) == Some("text"@),
        json::field(cache::marked_text_of(t), "cache_control"@) == Some(fresh("1h"@)),
{
    cache_laws::lemma_names();
    let o = cache::marked_text_of(t)->Obj_0;
    json::lemma_index_is(o, "type"@, 0, 0);
    json::lemma_index_is(o, "text"@, 0, 1);
    json::lemma_index_is(o, "cache_control"@, 0, 2);
}

} // verus!
