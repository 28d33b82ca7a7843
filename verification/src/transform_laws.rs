//! What holds of the transform whatever the request.

use vstd::prelude::*;

use crate::json;
use crate::json::JsonView;
use crate::text;
use crate::transform;
use crate::transform::{Pass, Transform};

verus! {

pub proof fn lemma_names()
    ensures
        "tools"@ != "messages"@,
        "name"@ != "description"@,
        "text"@ != "content"@,
        "content"@ != "role"@,
        "type"@ != "text"@,
{
    reveal_strlit("tools");
    reveal_strlit("messages");
    reveal_strlit("name");
    reveal_strlit("description");
    reveal_strlit("text");
    reveal_strlit("content");
    reveal_strlit("role");
    reveal_strlit("type");
    assert("tools"@.len() == 5 && "messages"@.len() == 8 && "name"@.len() == 4
        && "description"@.len() == 11 && "text"@.len() == 4 && "content"@.len() == 7
        && "role"@.len() == 4);
    assert("type"@[1] == 'y' && "text"@[1] == 'e');
}

pub proof fn lemma_filter_holds(a: Seq<JsonView>, p: spec_fn(JsonView) -> bool, x: JsonView)
    ensures
        a.filter(p).contains(x) <==> a.contains(x) && p(x),
    decreases a.len(),
{
    reveal(Seq::filter);
    if a.len() > 0 {
        let head = a.drop_last();
        let f = head.filter(p);
        lemma_filter_holds(head, p, x);
        assert(a =~= head.push(a.last()));
        assert(head.push(a.last()).contains(x) <==> head.contains(x) || a.last() == x) by {
            broadcast use vstd::seq_lib::group_seq_properties;

        }
        assert(f.push(a.last()).contains(x) <==> f.contains(x) || a.last() == x) by {
            broadcast use vstd::seq_lib::group_seq_properties;

        }
    }
}

/// Each item that a filter leaves came from the list and passed.
pub proof fn lemma_filter_at(a: Seq<JsonView>, p: spec_fn(JsonView) -> bool, i: int)
    requires
        0 <= i < a.filter(p).len(),
    ensures
        p(a.filter(p)[i]),
        a.contains(a.filter(p)[i]),
{
    assert(a.filter(p).contains(a.filter(p)[i]));
    lemma_filter_holds(a, p, a.filter(p)[i]);
}

/// What is done to the messages leaves everything else as it is.
pub proof fn lemma_only_tools(t: Transform, body: JsonView, k: Seq<char>)
    requires
        k != "messages"@,
    ensures
        json::field(t.applied(body), k) == json::field(
            transform::with_tools_trimmed(body, t.drops(), t.trims()),
            k,
        ),
{
    broadcast use json::group_json_fields;

}

/// The transform touches the tools and the messages alone.
pub proof fn law_transform_leaves_the_rest(t: Transform, body: JsonView, k: Seq<char>)
    requires
        k != "tools"@,
        k != "messages"@,
    ensures
        json::field(t.applied(body), k) == json::field(body, k),
{
    broadcast use json::group_json_fields;

    lemma_only_tools(t, body, k);
}

proof fn lemma_trimmed_name(x: JsonView)
    ensures
        transform::tool_name(transform::git_trimmed(x)) == transform::tool_name(x),
{
    broadcast use json::group_json_fields;

    lemma_names();
}

/// No tool that is to be dropped is left.
pub proof fn law_dropped_tools_are_gone(t: Transform, body: JsonView, i: int)
    requires
        json::arr_field(t.applied(body), "tools"@) matches Some(a) && 0 <= i < a.len(),
    ensures
        !t.drops().contains(
            transform::tool_name(json::arr_field(t.applied(body), "tools"@)->0[i]),
        ),
{
    broadcast use json::group_json_fields;

    lemma_names();
    lemma_only_tools(t, body, "tools"@);
    let a = json::arr_field(body, "tools"@)->0;
    let p = |x: JsonView| !t.drops().contains(transform::tool_name(x));
    lemma_filter_at(a, p, i);
    lemma_trimmed_name(transform::tools_kept(a, t.drops())[i]);
}

/// Every tool that is not to be dropped stays, but for a shorter description of the Bash tool.
pub proof fn law_other_tools_stay(t: Transform, body: JsonView, x: JsonView)
    requires
        json::arr_field(body, "tools"@) matches Some(a) && a.contains(x),
        !t.drops().contains(transform::tool_name(x)),
    ensures
        json::arr_field(t.applied(body), "tools"@) matches Some(a) && a.contains(
            if t.trims() {
                transform::git_trimmed(x)
            } else {
                x
            },
        ),
{
    broadcast use json::group_json_fields;

    lemma_names();
    lemma_only_tools(t, body, "tools"@);
    let a = json::arr_field(body, "tools"@)->0;
    let p = |y: JsonView| !t.drops().contains(transform::tool_name(y));
    lemma_filter_holds(a, p, x);
    let kept = transform::tools_kept(a, t.drops());
    let i = choose|i: int| 0 <= i < kept.len() && kept[i] == x;
    let m = kept.map_values(|y: JsonView| transform::git_trimmed(y));
    assert(m[i] == transform::git_trimmed(x));
}

/// A transform without tools to drop and without a description to trim leaves the tools as they are.
pub proof fn law_nothing_dropped_leaves_the_tools(t: Transform, body: JsonView)
    requires
        t.drops() == Set::<Seq<char>>::empty(),
        !t.trims(),
    ensures
        json::field(t.applied(body), "tools"@) == json::field(body, "tools"@),
{
    broadcast use json::group_json_fields;

    lemma_names();
    lemma_only_tools(t, body, "tools"@);
    if let Some(a) = json::arr_field(body, "tools"@) {
        let p = |x: JsonView| !t.drops().contains(transform::tool_name(x));
        lemma_filter_everything(a, p);
    }
}

proof fn lemma_filter_everything(a: Seq<JsonView>, p: spec_fn(JsonView) -> bool)
    requires
        forall|i: int| 0 <= i < a.len() ==> p(#[trigger] a[i]),
    ensures
        a.filter(p) == a,
    decreases a.len(),
{
    reveal(Seq::filter);
    if a.len() > 0 {
        assert(p(a[a.len() - 1]));
        lemma_filter_everything(a.drop_last(), p);
        assert(a.drop_last().push(a.last()) =~= a);
    }
}

/// Restructured messages all have something to say.
pub proof fn law_no_message_is_left_empty(ms: Seq<JsonView>, i: int)
    requires
        ms.len() >= 2,
        0 <= i < transform::restructured(ms).len(),
    ensures
        transform::has_content(transform::restructured(ms)[i]),
{
    let listed = ms.map_values(|m: JsonView| transform::as_blocks(m));
    lemma_filter_at(
        transform::hoisted(transform::all_sifted(listed), transform::cores(listed)),
        |m: JsonView| transform::has_content(m),
        i,
    );
}

/// The message holds no static context.
pub open spec fn no_core(m: JsonView) -> bool {
    forall|j: int|
        0 <= j < transform::content_blocks(m).len() ==> !transform::core_block(
            #[trigger] transform::content_blocks(m)[j],
        )
}

pub proof fn lemma_sifted_no_core(m: JsonView, tail: bool)
    requires
        m is Obj || m is Null,
    ensures
        no_core(transform::sifted(m, tail)),
        transform::content_blocks(transform::sifted(m, tail)) == (match json::arr_field(
            m,
            "content"@,
        ) {
            Some(bs) => bs.filter(|b: JsonView| transform::block_stays(b, tail)),
            None => Seq::empty(),
        }),
{
    broadcast use json::group_json_fields;

    let s = transform::sifted(m, tail);
    if m is Null {
        json::lemma_index_is(s->Obj_0, "content"@, 0, 0);
    }
    if let Some(bs) = json::arr_field(m, "content"@) {
        let p = |b: JsonView| transform::block_stays(b, tail);
        assert forall|j: int|
            0 <= j < transform::content_blocks(s).len() implies !transform::core_block(
            #[trigger] transform::content_blocks(s)[j],
        ) by {
            lemma_filter_at(bs, p, j);
        }
    }
}

pub proof fn lemma_firsts_nonempty(bs: Seq<JsonView>)
    ensures
        bs.len() > 0 ==> transform::firsts(bs).len() > 0,
    decreases bs.len(),
{
    if bs.len() > 0 {
        lemma_firsts_nonempty(bs.drop_last());
    }
}

pub proof fn lemma_hoisted_content(m: JsonView, core: Seq<JsonView>)
    requires
        m is Obj || m is Null,
    ensures
        transform::content_blocks(transform::hoisted_into(m, core)) == transform::firsts(core)
            + transform::content_blocks(m),
{
    broadcast use json::group_json_fields;

    lemma_names();
    let a = JsonView::Arr(transform::firsts(core) + transform::content_blocks(m));
    let w = transform::put_at(m, "content"@, a);
    if m is Null {
        json::lemma_index_is(w->Obj_0, "content"@, 0, 0);
    }
}

proof fn lemma_filter_first(a: Seq<JsonView>, p: spec_fn(JsonView) -> bool)
    requires
        a.len() > 0,
    ensures
        a.filter(p) == (if p(a[0]) {
            seq![a[0]] + a.drop_first().filter(p)
        } else {
            a.drop_first().filter(p)
        }),
{
    let one = seq![a[0]];
    assert(a =~= one + a.drop_first());
    Seq::filter_distributes_over_add(one, a.drop_first(), p);
    assert(one.filter(p) =~= (if p(a[0]) {
        one
    } else {
        Seq::empty()
    })) by {
        reveal_with_fuel(Seq::filter, 2);
        assert(one.drop_last() =~= Seq::empty());
    }
    if !p(a[0]) {
        assert(Seq::<JsonView>::empty() + a.drop_first().filter(p) =~= a.drop_first().filter(p));
    }
}

/// After restructuring, static context stands in the first message alone, each text of it once and
/// in front of what the message says itself.
pub proof fn law_static_context_is_hoisted(ms: Seq<JsonView>)
    requires
        ms.len() >= 2,
        forall|i: int| 0 <= i < ms.len() ==> (#[trigger] ms[i] is Obj || ms[i] is Null),
    ensures
        ({
            let listed = ms.map_values(|m: JsonView| transform::as_blocks(m));
            let core = transform::cores(listed);
            let rs = transform::restructured(ms);
            &&& core.len() > 0 ==> rs.len() > 0 && transform::content_blocks(rs[0])
                == transform::firsts(core) + transform::content_blocks(
                transform::sifted(listed[0], false),
            )
            &&& forall|i: int| 1 <= i < rs.len() ==> no_core(#[trigger] rs[i])
            &&& core.len() == 0 ==> forall|i: int| 0 <= i < rs.len() ==> no_core(#[trigger] rs[i])
        }),
{
    broadcast use json::group_json_fields;

    let listed = ms.map_values(|m: JsonView| transform::as_blocks(m));
    let core = transform::cores(listed);
    let sifted = transform::all_sifted(listed);
    let hs = transform::hoisted(sifted, core);
    let p = |m: JsonView| transform::has_content(m);
    assert forall|i: int| 0 <= i < listed.len() implies (#[trigger] listed[i] is Obj
        || listed[i] is Null) by {
        assert(ms[i] is Obj || ms[i] is Null);
    }
    assert forall|i: int| 0 <= i < sifted.len() implies no_core(#[trigger] sifted[i]) by {
        assert(listed[i] is Obj || listed[i] is Null);
        lemma_sifted_no_core(listed[i], i == listed.len() - 1);
    }
    lemma_filter_first(hs, p);
    let rest = hs.drop_first();
    assert forall|i: int| 0 <= i < rest.filter(p).len() implies no_core(
        #[trigger] rest.filter(p)[i],
    ) by {
        lemma_filter_at(rest, p, i);
        let k = choose|k: int| 0 <= k < rest.len() && rest[k] == rest.filter(p)[i];
        assert(rest[k] == sifted[k + 1]);
    }
    let rs = transform::restructured(ms);
    if core.len() > 0 {
        assert(listed[0] is Obj || listed[0] is Null);
        assert(sifted[0] == transform::sifted(listed[0], false));
        assert(sifted[0] is Obj) by {
            reveal_strlit("content");
        }
        lemma_hoisted_content(sifted[0], core);
        lemma_firsts_nonempty(core);
        assert(p(hs[0]));
        assert forall|i: int| 1 <= i < rs.len() implies no_core(#[trigger] rs[i]) by {
            assert(rs[i] == rest.filter(p)[i - 1]);
        }
    } else {
        assert(hs == sifted);
        assert forall|i: int| 0 <= i < rs.len() implies no_core(#[trigger] rs[i]) by {
            lemma_filter_at(hs, p, i);
            let k = choose|k: int| 0 <= k < hs.len() && hs[k] == rs[i];
            assert(hs[k] == sifted[k]);
        }
    }
}

/// Of blocks with the same text the first is kept, and no text is lost.
pub proof fn law_hoisted_texts_are_unique(bs: Seq<JsonView>)
    ensures
        forall|t: Seq<char>| #[trigger]
            transform::text_seen(transform::firsts(bs), t) <==> transform::text_seen(bs, t),
        forall|i: int, j: int|
            0 <= i < j < transform::firsts(bs).len() ==> transform::block_text(
                #[trigger] transform::firsts(bs)[i],
            ) != transform::block_text(#[trigger] transform::firsts(bs)[j]),
    decreases bs.len(),
{
    if bs.len() > 0 {
        let short = bs.drop_last();
        let last = bs.last();
        let f = transform::firsts(short);
        law_hoisted_texts_are_unique(short);
        assert forall|t: Seq<char>| #[trigger] transform::text_seen(bs, t) <==> (
        transform::text_seen(short, t) || transform::block_text(last) == t) by {
            if transform::text_seen(short, t) {
                let i = choose|i: int|
                    0 <= i < short.len() && transform::block_text(#[trigger] short[i]) == t;
                assert(transform::block_text(bs[i]) == t);
            }
            if transform::block_text(last) == t {
                assert(transform::block_text(bs[bs.len() - 1]) == t);
            }
            if transform::text_seen(bs, t) {
                let i = choose|i: int|
                    0 <= i < bs.len() && transform::block_text(#[trigger] bs[i]) == t;
                if i < short.len() {
                    assert(transform::block_text(short[i]) == t);
                }
            }
        }
        if !transform::text_seen(short, transform::block_text(last)) {
            let g = f.push(last);
            assert forall|t: Seq<char>| #[trigger] transform::text_seen(g, t) <==> (
            transform::text_seen(f, t) || transform::block_text(last) == t) by {
                if transform::text_seen(f, t) {
                    let i = choose|i: int|
                        0 <= i < f.len() && transform::block_text(#[trigger] f[i]) == t;
                    assert(transform::block_text(g[i]) == t);
                }
                if transform::block_text(last) == t {
                    assert(transform::block_text(g[f.len() as int]) == t);
                }
                if transform::text_seen(g, t) {
                    let i = choose|i: int|
                        0 <= i < g.len() && transform::block_text(#[trigger] g[i]) == t;
                    if i < f.len() {
                        assert(transform::block_text(f[i]) == t);
                    }
                }
            }
            assert forall|i: int, j: int| 0 <= i < j < g.len() implies transform::block_text(
                #[trigger] g[i],
            ) != transform::block_text(#[trigger] g[j]) by {
                if j == f.len() {
                    assert(g[i] == f[i]);
                    if transform::block_text(f[i]) == transform::block_text(last) {
                        assert(transform::text_seen(f, transform::block_text(last)));
                    }
                } else {
                    assert(g[i] == f[i] && g[j] == f[j]);
                }
            }
        }
    }
}

/// Each item but the last that a filter leaves came from before the last of the list.
proof fn lemma_filter_inner(a: Seq<JsonView>, p: spec_fn(JsonView) -> bool, i: int)
    requires
        0 <= i < a.filter(p).len() - 1,
    ensures
        exists|k: int| 0 <= k < a.len() - 1 && #[trigger] a[k] == a.filter(p)[i],
{
    reveal(Seq::filter);
    let head = a.drop_last();
    lemma_filter_at(head, p, i);
    let k = choose|k: int| 0 <= k < head.len() && head[k] == head.filter(p)[i];
    assert(a[k] == a.filter(p)[i]);
}

/// A filter that nothing passes leaves nothing.
proof fn lemma_filter_none(a: Seq<JsonView>, p: spec_fn(JsonView) -> bool)
    requires
        forall|i: int| 0 <= i < a.len() ==> !p(#[trigger] a[i]),
    ensures
        a.filter(p) == Seq::<JsonView>::empty(),
    decreases a.len(),
{
    reveal(Seq::filter);
    if a.len() > 0 {
        lemma_filter_none(a.drop_last(), p);
        assert(!p(a[a.len() - 1]));
    }
}

/// Blocks with distinct texts are all the first with theirs.
proof fn lemma_firsts_distinct(bs: Seq<JsonView>)
    requires
        forall|i: int, j: int|
            0 <= i < j < bs.len() ==> transform::block_text(#[trigger] bs[i])
                != transform::block_text(#[trigger] bs[j]),
    ensures
        transform::firsts(bs) == bs,
    decreases bs.len(),
{
    if bs.len() > 0 {
        let short = bs.drop_last();
        assert forall|i: int, j: int| 0 <= i < j < short.len() implies transform::block_text(
            #[trigger] short[i],
        ) != transform::block_text(#[trigger] short[j]) by {
            assert(short[i] == bs[i] && short[j] == bs[j]);
        }
        lemma_firsts_distinct(short);
        if transform::text_seen(short, transform::block_text(bs.last())) {
            let i = choose|i: int|
                0 <= i < short.len() && transform::block_text(#[trigger] short[i])
                    == transform::block_text(bs.last());
            assert(short[i] == bs[i]);
            assert(bs[bs.len() - 1] == bs.last());
        }
        assert(short.push(bs.last()) =~= bs);
    }
}

/// The first of the blocks with each text are some of the blocks.
pub proof fn lemma_firsts_member(bs: Seq<JsonView>, i: int)
    requires
        0 <= i < transform::firsts(bs).len(),
    ensures
        bs.contains(transform::firsts(bs)[i]),
    decreases bs.len(),
{
    if bs.len() > 0 {
        let short = bs.drop_last();
        let f = transform::firsts(short);
        if i < f.len() {
            lemma_firsts_member(short, i);
            let k = choose|k: int| 0 <= k < short.len() && short[k] == f[i];
            assert(bs[k] == f[i]);
        } else {
            assert(bs[bs.len() - 1] == bs.last());
        }
    }
}

/// What counts as static context is static context.
pub proof fn lemma_cores_are_core(ms: Seq<JsonView>, i: int)
    requires
        0 <= i < transform::cores(ms).len(),
    ensures
        transform::core_block(transform::cores(ms)[i]),
    decreases ms.len(),
{
    if ms.len() > 0 {
        let before = transform::cores(ms.drop_last());
        if i < before.len() {
            lemma_cores_are_core(ms.drop_last(), i);
        } else {
            lemma_filter_at(
                transform::content_blocks(ms.last()),
                |b: JsonView| transform::core_block(b),
                i - before.len(),
            );
        }
    }
}

/// Every block of the message stays in it.
pub open spec fn all_stay(m: JsonView, tail: bool) -> bool {
    forall|j: int|
        0 <= j < transform::content_blocks(m).len() ==> transform::block_stays(
            #[trigger] transform::content_blocks(m)[j],
            tail,
        )
}

/// Messages that restructuring has nothing to do on: none is empty, every block is where it belongs,
/// and the static context `core` stands once in front of the first one's own blocks `own`.
pub open spec fn settled(
    rs: Seq<JsonView>,
    core: Seq<JsonView>,
    own: Seq<JsonView>,
) -> bool {
    &&& rs.len() >= 2
    &&& forall|i: int| 0 <= i < rs.len() ==> transform::has_content(#[trigger] rs[i])
    &&& forall|i: int| 1 <= i < rs.len() ==> all_stay(#[trigger] rs[i], i == rs.len() - 1)
    &&& transform::content_blocks(rs[0]) == core + own
    &&& forall|j: int| 0 <= j < own.len() ==> transform::block_stays(#[trigger] own[j], false)
    &&& forall|j: int| 0 <= j < core.len() ==> transform::core_block(#[trigger] core[j])
    &&& transform::firsts(core) == core
    &&& core.len() > 0 ==> json::text_field(rs[0], "role"@) == Some("user"@)
}

/// The static context of settled messages is that of the first one.
proof fn lemma_settled_cores(
    rs: Seq<JsonView>,
    core: Seq<JsonView>,
    own: Seq<JsonView>,
    n: int,
)
    requires
        settled(rs, core, own),
        1 <= n <= rs.len(),
    ensures
        transform::cores(rs.take(n)) == core,
    decreases n,
{
    let p = |b: JsonView| transform::core_block(b);
    assert(rs.take(n).drop_last() =~= rs.take(n - 1));
    assert(rs.take(n).last() == rs[n - 1]);
    if n == 1 {
        assert(transform::cores(rs.take(0)) =~= Seq::<JsonView>::empty());
        Seq::filter_distributes_over_add(core, own, p);
        text::lemma_filter_all(core, p);
        lemma_filter_none(own, p);
        assert(core + Seq::<JsonView>::empty() =~= core);
        assert(Seq::<JsonView>::empty() + core =~= core);
    } else {
        lemma_settled_cores(rs, core, own, n - 1);
        assert(all_stay(rs[n - 1], n - 1 == rs.len() - 1));
        lemma_filter_none(transform::content_blocks(rs[n - 1]), p);
        assert(core + Seq::<JsonView>::empty() =~= core);
    }
}

/// Restructuring leaves settled messages as they are.
proof fn lemma_settled_stay(rs: Seq<JsonView>, core: Seq<JsonView>, own: Seq<JsonView>)
    requires
        settled(rs, core, own),
    ensures
        transform::restructured(rs) == rs,
{
    broadcast use json::group_json_fields;

    lemma_names();
    let listed = rs.map_values(|m: JsonView| transform::as_blocks(m));
    assert forall|i: int| 0 <= i < rs.len() implies #[trigger] rs[i] is Obj && json::field(
        rs[i],
        "content"@,
    ) == Some(JsonView::Arr(transform::content_blocks(rs[i]))) by {
        assert(transform::has_content(rs[i]));
    }
    assert(listed =~= rs);
    lemma_settled_cores(rs, core, own, rs.len() as int);
    assert(rs.take(rs.len() as int) =~= rs);
    let ss = transform::all_sifted(rs);
    assert forall|i: int| 1 <= i < rs.len() implies #[trigger] ss[i] == rs[i] by {
        let tail = i == rs.len() - 1;
        let bs = transform::content_blocks(rs[i]);
        assert(all_stay(rs[i], tail));
        text::lemma_filter_all(bs, |b: JsonView| transform::block_stays(b, tail));
        assert(rs[i] is Obj);
    }
    let q = |b: JsonView| transform::block_stays(b, false);
    assert(rs[0] is Obj);
    Seq::filter_distributes_over_add(core, own, q);
    lemma_filter_none(core, q);
    text::lemma_filter_all(own, q);
    assert(Seq::<JsonView>::empty() + own =~= own);
    assert(ss[0] == json::with_field(rs[0], "content"@, JsonView::Arr(own)));
    let hs = transform::hoisted(ss, core);
    if core.len() > 0 {
        json::lemma_with_twice(
            rs[0],
            "content"@,
            JsonView::Arr(own),
            JsonView::Arr(core + own),
        );
        assert(transform::content_blocks(ss[0]) == own);
        assert(transform::hoisted_into(ss[0], core) == rs[0]);
    } else {
        assert(core + own =~= own);
        assert(ss[0] == rs[0]);
    }
    assert(hs =~= rs);
    text::lemma_filter_all(rs, |m: JsonView| transform::has_content(m));
}

/// Restructuring twice is restructuring once.
pub proof fn law_restructuring_is_idempotent(ms: Seq<JsonView>)
    requires
        ms.len() < 2 || forall|i: int|
            0 <= i < ms.len() ==> (#[trigger] ms[i] is Obj || ms[i] is Null),
    ensures
        transform::restructured(transform::restructured(ms)) == transform::restructured(ms),
{
    broadcast use json::group_json_fields;

    let rs = transform::restructured(ms);
    if ms.len() >= 2 && rs.len() >= 2 {
        lemma_names();
        let listed = ms.map_values(|m: JsonView| transform::as_blocks(m));
        let cs = transform::cores(listed);
        let ss = transform::all_sifted(listed);
        let hs = transform::hoisted(ss, cs);
        let p = |m: JsonView| transform::has_content(m);
        let n = listed.len() as int;
        law_static_context_is_hoisted(ms);
        assert forall|k: int| 0 <= k < n - 1 implies all_stay(#[trigger] ss[k], false) && ss[k] is
            Obj by {
            assert(ms[k] is Obj || ms[k] is Null);
            lemma_sifted_no_core(listed[k], false);
            if let Some(bs) = json::arr_field(listed[k], "content"@) {
                let q = |b: JsonView| transform::block_stays(b, false);
                assert forall|j: int|
                    0 <= j < transform::content_blocks(ss[k]).len() implies transform::block_stays(
                    #[trigger] transform::content_blocks(ss[k])[j],
                    false,
                ) by {
                    lemma_filter_at(bs, q, j);
                }
            }
        }
        assert forall|i: int| 0 <= i < rs.len() implies transform::has_content(
            #[trigger] rs[i],
        ) by {
            law_no_message_is_left_empty(ms, i);
        }
        let rest = hs.drop_first();
        lemma_filter_first(hs, p);
        if cs.len() > 0 {
            let core = transform::firsts(cs);
            let own = transform::content_blocks(ss[0]);
            assert(all_stay(ss[0], false));
            lemma_hoisted_content(ss[0], cs);
            lemma_firsts_nonempty(cs);
            assert(p(hs[0]));
            assert(rs[0] == hs[0]);
            law_hoisted_texts_are_unique(cs);
            lemma_firsts_distinct(core);
            assert forall|j: int| 0 <= j < core.len() implies transform::core_block(
                #[trigger] core[j],
            ) by {
                lemma_firsts_member(cs, j);
                let k = choose|k: int| 0 <= k < cs.len() && cs[k] == core[j];
                lemma_cores_are_core(listed, k);
            }
            assert forall|i: int| 1 <= i < rs.len() implies all_stay(
                #[trigger] rs[i],
                i == rs.len() - 1,
            ) by {
                assert(no_core(rs[i]));
                assert(rs[i] == rest.filter(p)[i - 1]);
                if i < rs.len() - 1 {
                    lemma_filter_inner(rest, p, i - 1);
                    let k = choose|k: int|
                        0 <= k < rest.len() - 1 && #[trigger] rest[k] == rest.filter(p)[i - 1];
                    assert(rest[k] == ss[k + 1]);
                }
            }
            lemma_settled_stay(rs, core, own);
        } else {
            let core = Seq::<JsonView>::empty();
            let own = transform::content_blocks(rs[0]);
            assert forall|i: int| 0 <= i < rs.len() implies all_stay(
                #[trigger] rs[i],
                i == rs.len() - 1,
            ) by {
                assert(no_core(rs[i]));
                if i < rs.len() - 1 {
                    lemma_filter_inner(hs, p, i);
                    let k = choose|k: int|
                        0 <= k < hs.len() - 1 && #[trigger] hs[k] == hs.filter(p)[i];
                    assert(hs[k] == ss[k]);
                }
            }
            assert(all_stay(rs[0], false));
            assert(core + own =~= own);
            assert(transform::firsts(core) =~= core);
            lemma_settled_stay(rs, core, own);
        }
    }
}

/// Restructuring the messages of a body twice is restructuring them once.
pub proof fn law_bodies_restructure_once(body: JsonView)
    requires
        transform::messages_addressable(body),
    ensures
        transform::messages_addressable(transform::with_restructured(body)),
        transform::with_restructured(transform::with_restructured(body))
            == transform::with_restructured(body),
{
    broadcast use json::group_json_fields;

    if let Some(ms) = json::arr_field(body, "messages"@) {
        let rs = transform::restructured(ms);
        law_restructuring_is_idempotent(ms);
        if ms.len() >= 2 {
            assert forall|i: int| 0 <= i < rs.len() implies #[trigger] rs[i] is Obj by {
                law_no_message_is_left_empty(ms, i);
            }
        }
        json::lemma_with_twice(body, "messages"@, JsonView::Arr(rs), JsonView::Arr(rs));
    }
}

/// The last message keeps its scaffolding: of its blocks only static context leaves it.
pub proof fn law_last_message_keeps_its_scaffolding(b: JsonView)
    ensures
        transform::block_stays(b, true) <==> !transform::core_block(b),
{
}

/// Blocks without text, such as images and tool results, are never moved or dropped.
pub proof fn law_blocks_without_text_stay(b: JsonView, tail: bool)
    requires
        json::text_field(b, "text"@) is None,
    ensures
        transform::block_stays(b, tail),
        !transform::core_block(b),
{
}

/// A request with fewer than two messages is not restructured.
pub proof fn law_single_messages_stay(body: JsonView)
    requires
        json::arr_field(body, "messages"@) matches Some(ms) ==> ms.len() < 2,
    ensures
        transform::with_restructured(body) == body,
{
    broadcast use json::group_json_fields;

}

proof fn lemma_items(a: Seq<JsonView>)
    ensures
        json::well_formed(JsonView::Arr(a)) == json::well_formed_items(a),
{
    json::lemma_well_formed(JsonView::Arr(a));
}

proof fn lemma_under(v: JsonView, k: Seq<char>)
    requires
        json::well_formed(v),
    ensures
        json::arr_field(v, k) matches Some(a) ==> json::well_formed_items(a),
{
    json::law_field_is_well_formed(v, k);
    if let Some(a) = json::arr_field(v, k) {
        lemma_items(a);
    }
}

proof fn lemma_filtered(a: Seq<JsonView>, p: spec_fn(JsonView) -> bool)
    requires
        json::well_formed_items(a),
    ensures
        json::well_formed_items(a.filter(p)),
{
    assert forall|i: int| 0 <= i < a.filter(p).len() implies json::well_formed(
        #[trigger] a.filter(p)[i],
    ) by {
        lemma_filter_at(a, p, i);
        let k = choose|k: int| 0 <= k < a.len() && a[k] == a.filter(p)[i];
        assert(json::well_formed(a[k]));
    }
}

proof fn lemma_text_form(t: Seq<char>)
    ensures
        json::well_formed(JsonView::Str(t)),
{
    json::lemma_well_formed(JsonView::Str(t));
}

proof fn lemma_tools_form(body: JsonView, drops: Set<Seq<char>>, git: bool)
    requires
        json::well_formed(body),
    ensures
        json::well_formed(transform::with_tools_trimmed(body, drops, git)),
{
    lemma_under(body, "tools"@);
    if let Some(a) = json::arr_field(body, "tools"@) {
        let p = |x: JsonView| !drops.contains(transform::tool_name(x));
        lemma_filtered(a, p);
        let kept = transform::tools_kept(a, drops);
        let t = transform::tools_trimmed(a, drops, git);
        if git {
            assert forall|i: int| 0 <= i < t.len() implies json::well_formed(#[trigger] t[i]) by {
                assert(json::well_formed(kept[i]));
                if let Some(d) = json::text_field(kept[i], "description"@) {
                    lemma_text_form(transform::without_git(d));
                    json::law_with_field_is_well_formed(
                        kept[i],
                        "description"@,
                        JsonView::Str(transform::without_git(d)),
                    );
                }
            }
        }
        lemma_items(t);
        json::law_with_field_is_well_formed(body, "tools"@, JsonView::Arr(t));
    }
}

proof fn lemma_text_edited_form(b: JsonView, k: Seq<char>, pass: Pass, drops: Set<Seq<char>>)
    requires
        json::well_formed(b),
    ensures
        json::well_formed(transform::text_edited(b, k, pass, drops)),
{
    if let Some(t) = json::text_field(b, k) {
        let e = transform::edited(t, pass, drops);
        lemma_text_form(e);
        json::law_with_field_is_well_formed(b, k, JsonView::Str(e));
    }
}

proof fn lemma_block_edited_form(b: JsonView, pass: Pass, drops: Set<Seq<char>>)
    requires
        json::well_formed(b),
    ensures
        json::well_formed(transform::block_edited(b, pass, drops)),
{
    lemma_text_edited_form(b, "text"@, pass, drops);
    let b1 = transform::text_edited(b, "text"@, pass, drops);
    lemma_under(b1, "content"@);
    match json::arr_field(b1, "content"@) {
        Some(inner) => {
            let es = inner.map_values(
                |x: JsonView| transform::text_edited(x, "text"@, pass, drops),
            );
            assert forall|i: int| 0 <= i < es.len() implies json::well_formed(#[trigger] es[i]) by {
                assert(json::well_formed(inner[i]));
                lemma_text_edited_form(inner[i], "text"@, pass, drops);
            }
            lemma_items(es);
            json::law_with_field_is_well_formed(b1, "content"@, JsonView::Arr(es));
        },
        None => {
            lemma_text_edited_form(b1, "content"@, pass, drops);
        },
    }
}

proof fn lemma_messages_edited_form(body: JsonView, pass: Pass, drops: Set<Seq<char>>)
    requires
        json::well_formed(body),
    ensures
        json::well_formed(transform::messages_edited(body, pass, drops)),
{
    lemma_under(body, "messages"@);
    if let Some(ms) = json::arr_field(body, "messages"@) {
        let es = ms.map_values(|m: JsonView| transform::message_edited(m, pass, drops));
        assert forall|i: int| 0 <= i < es.len() implies json::well_formed(#[trigger] es[i]) by {
            let m = ms[i];
            assert(json::well_formed(m));
            lemma_under(m, "content"@);
            match json::arr_field(m, "content"@) {
                Some(bs) => {
                    let cs = bs.map_values(|b: JsonView| transform::block_edited(b, pass, drops));
                    assert forall|j: int| 0 <= j < cs.len() implies json::well_formed(
                        #[trigger] cs[j],
                    ) by {
                        assert(json::well_formed(bs[j]));
                        lemma_block_edited_form(bs[j], pass, drops);
                    }
                    lemma_items(cs);
                    json::law_with_field_is_well_formed(m, "content"@, JsonView::Arr(cs));
                },
                None => {
                    lemma_text_edited_form(m, "content"@, pass, drops);
                },
            }
        }
        lemma_items(es);
        json::law_with_field_is_well_formed(body, "messages"@, JsonView::Arr(es));
    }
}

proof fn lemma_put_form(v: JsonView, k: Seq<char>, x: JsonView)
    requires
        json::well_formed(v),
        json::well_formed(x),
    ensures
        json::well_formed(transform::put_at(v, k, x)),
{
    if v is Null {
        let w = transform::put_at(v, k, x);
        json::lemma_well_formed(w);
    } else {
        json::law_with_field_is_well_formed(v, k, x);
    }
}

proof fn lemma_as_blocks_form(m: JsonView)
    requires
        json::well_formed(m),
    ensures
        json::well_formed(transform::as_blocks(m)),
{
    if let Some(t) = json::text_field(m, "content"@) {
        lemma_names();
        let block = json::text_block_of(t);
        json::lemma_well_formed(block);
        lemma_text_form("text"@);
        lemma_text_form(t);
        let o = block->Obj_0;
        assert forall|i: int| 0 <= i < o.len() implies json::well_formed((#[trigger] o[i]).1) by {
            assert(i == 0 || i == 1);
        }
        lemma_items(seq![block]);
        json::law_with_field_is_well_formed(m, "content"@, JsonView::Arr(seq![block]));
    }
}

proof fn lemma_sifted_form(m: JsonView, tail: bool)
    requires
        json::well_formed(m),
    ensures
        json::well_formed(transform::sifted(m, tail)),
{
    lemma_under(m, "content"@);
    json::law_field_is_well_formed(m, "content"@);
    json::lemma_well_formed(JsonView::Null);
    match json::arr_field(m, "content"@) {
        Some(bs) => {
            let p = |b: JsonView| transform::block_stays(b, tail);
            lemma_filtered(bs, p);
            lemma_items(bs.filter(p));
            lemma_put_form(m, "content"@, JsonView::Arr(bs.filter(p)));
        },
        None => {
            lemma_put_form(m, "content"@, transform::at_key(m, "content"@));
        },
    }
}

proof fn lemma_blocks_form(m: JsonView)
    requires
        json::well_formed(m),
    ensures
        json::well_formed_items(transform::content_blocks(m)),
{
    lemma_under(m, "content"@);
}

proof fn lemma_joined_form(a: Seq<JsonView>, b: Seq<JsonView>)
    requires
        json::well_formed_items(a),
        json::well_formed_items(b),
    ensures
        json::well_formed_items(a + b),
{
    assert forall|i: int| 0 <= i < (a + b).len() implies json::well_formed(#[trigger] (a + b)[i]) by {
        if i < a.len() {
            assert(json::well_formed(a[i]));
        } else {
            assert(json::well_formed(b[i - a.len()]));
        }
    }
}

proof fn lemma_cores_form(ms: Seq<JsonView>)
    requires
        json::well_formed_items(ms),
    ensures
        json::well_formed_items(transform::cores(ms)),
    decreases ms.len(),
{
    if ms.len() > 0 {
        assert forall|i: int| 0 <= i < ms.drop_last().len() implies json::well_formed(
            #[trigger] ms.drop_last()[i],
        ) by {
            assert(json::well_formed(ms[i]));
        }
        lemma_cores_form(ms.drop_last());
        assert(json::well_formed(ms[ms.len() - 1]));
        lemma_blocks_form(ms.last());
        let p = |b: JsonView| transform::core_block(b);
        lemma_filtered(transform::content_blocks(ms.last()), p);
        lemma_joined_form(
            transform::cores(ms.drop_last()),
            transform::content_blocks(ms.last()).filter(p),
        );
    }
}

proof fn lemma_firsts_form(bs: Seq<JsonView>)
    requires
        json::well_formed_items(bs),
    ensures
        json::well_formed_items(transform::firsts(bs)),
    decreases bs.len(),
{
    if bs.len() > 0 {
        assert forall|i: int| 0 <= i < bs.drop_last().len() implies json::well_formed(
            #[trigger] bs.drop_last()[i],
        ) by {
            assert(json::well_formed(bs[i]));
        }
        lemma_firsts_form(bs.drop_last());
        assert(json::well_formed(bs[bs.len() - 1]));
    }
}

proof fn lemma_restructured_form(ms: Seq<JsonView>)
    requires
        json::well_formed_items(ms),
    ensures
        json::well_formed_items(transform::restructured(ms)),
{
    if ms.len() >= 2 {
        let listed = ms.map_values(|m: JsonView| transform::as_blocks(m));
        assert forall|i: int| 0 <= i < listed.len() implies json::well_formed(
            #[trigger] listed[i],
        ) by {
            assert(json::well_formed(ms[i]));
            lemma_as_blocks_form(ms[i]);
        }
        let sifted = transform::all_sifted(listed);
        assert forall|i: int| 0 <= i < sifted.len() implies json::well_formed(
            #[trigger] sifted[i],
        ) by {
            assert(json::well_formed(listed[i]));
            lemma_sifted_form(listed[i], i == listed.len() - 1);
        }
        let core = transform::cores(listed);
        lemma_cores_form(listed);
        let hs = transform::hoisted(sifted, core);
        if core.len() > 0 {
            lemma_firsts_form(core);
            assert(json::well_formed(sifted[0]));
            lemma_blocks_form(sifted[0]);
            let blocks = transform::firsts(core) + transform::content_blocks(sifted[0]);
            lemma_joined_form(transform::firsts(core), transform::content_blocks(sifted[0]));
            lemma_items(blocks);
            lemma_put_form(sifted[0], "content"@, JsonView::Arr(blocks));
            lemma_text_form("user"@);
            lemma_put_form(
                transform::put_at(sifted[0], "content"@, JsonView::Arr(blocks)),
                "role"@,
                JsonView::Str("user"@),
            );
            assert forall|i: int| 0 <= i < hs.len() implies json::well_formed(#[trigger] hs[i]) by {
                if i > 0 {
                    assert(hs[i] == sifted[i]);
                }
            }
        }
        lemma_filtered(hs, |m: JsonView| transform::has_content(m));
    }
}

/// The transform keeps a body well formed.
pub proof fn law_transform_keeps_the_form(t: Transform, body: JsonView)
    requires
        json::well_formed(body),
    ensures
        json::well_formed(t.applied(body)),
{
    lemma_tools_form(body, t.drops(), t.trims());
    let b1 = transform::with_tools_trimmed(body, t.drops(), t.trims());
    lemma_messages_edited_form(b1, Pass::Reminders, t.drops());
    let b2 = if t.drops() == Set::<Seq<char>>::empty() {
        b1
    } else {
        transform::messages_edited(b1, Pass::Reminders, t.drops())
    };
    lemma_under(b2, "messages"@);
    if let Some(ms) = json::arr_field(b2, "messages"@) {
        lemma_restructured_form(ms);
        lemma_items(transform::restructured(ms));
        json::law_with_field_is_well_formed(
            b2,
            "messages"@,
            JsonView::Arr(transform::restructured(ms)),
        );
    }
    lemma_messages_edited_form(transform::with_restructured(b2), Pass::Escapes, t.drops());
}

/// Scrubbing a reminder takes out the lines that name dropped tools and leaves the others in order.
pub proof fn law_scrubbed_lines_are_the_named_ones(
    inner: Seq<char>,
    drops: Set<Seq<char>>,
    l: Seq<char>,
)
    ensures
        transform::lines_kept(inner, drops).contains(l) <==> text::split_of(inner, '\n').contains(l)
            && !drops.contains(text::trim_of(l)),
{
    lemma_lines(
        text::split_of(inner, '\n'),
        |x: Seq<char>| !drops.contains(text::trim_of(x)),
        l,
    );
}

proof fn lemma_lines(a: Seq<Seq<char>>, p: spec_fn(Seq<char>) -> bool, x: Seq<char>)
    ensures
        a.filter(p).contains(x) <==> a.contains(x) && p(x),
    decreases a.len(),
{
    reveal(Seq::filter);
    if a.len() > 0 {
        let head = a.drop_last();
        let f = head.filter(p);
        lemma_lines(head, p, x);
        assert(a =~= head.push(a.last()));
        assert(head.push(a.last()).contains(x) <==> head.contains(x) || a.last() == x) by {
            broadcast use vstd::seq_lib::group_seq_properties;

        }
        assert(f.push(a.last()).contains(x) <==> f.contains(x) || a.last() == x) by {
            broadcast use vstd::seq_lib::group_seq_properties;

        }
    }
}

} // verus!
