//! What becomes of the messages of a conversation that is restructured, block by block.

use vstd::prelude::*;

use crate::json;
use crate::json::JsonView;
use crate::text;
use crate::transform;
use crate::transform_laws;

verus! {

/// The text is static context: it speaks of deferred tools, of the project's notes or of the client's
/// directories for projects and plans, and is no output of a local command.
pub open spec fn lasting(t: Seq<char>) -> bool {
    &&& text::holds(t, "ToolSearch"@) || text::holds(t, "claudeMd"@) || text::holds(
        t,
        text::path_of(".claude_projects"@),
    ) || text::holds(t, text::path_of(".claude_plans"@))
    &&& !text::holds(t, "<local-command-stdout>"@)
    &&& !text::holds(t, "<local-command-caveat>"@)
}

/// The text is scaffolding: it begins with the tag of a reminder or of a local command.
pub open spec fn scaffolding(t: Seq<char>) -> bool {
    text::begins(t, "<system-reminder>"@) || text::begins(t, "<local-command-stdout>"@)
        || text::begins(t, "<local-command-caveat>"@) || text::begins(t, "<command-name>"@)
}

/// The block's text is static context.
pub open spec fn core_block(b: JsonView) -> bool {
    json::text_field(b, "text"@) matches Some(t) && lasting(t)
}

/// The block stays in its message, which is the last one or is not: it is no static context, and
/// scaffolding only in the last one.
pub open spec fn stays(b: JsonView, last: bool) -> bool {
    json::text_field(b, "text"@) matches Some(t) ==> !lasting(t) && (last || !scaffolding(t))
}

/// The blocks of a message. A text is one block.
pub open spec fn blocks(m: JsonView) -> Seq<JsonView> {
    match json::field(m, "content"@) {
        Some(JsonView::Arr(bs)) => bs,
        Some(JsonView::Str(t)) => seq![
            JsonView::Obj(seq![("type"@, JsonView::Str("text"@)), ("text"@, JsonView::Str(t))]),
        ],
        _ => seq![],
    }
}

/// The blocks that stay in the message `i`, in order.
pub open spec fn kept(ms: Seq<JsonView>, i: int) -> Seq<JsonView> {
    blocks(ms[i]).filter(|b: JsonView| stays(b, i == ms.len() - 1))
}

/// Some message holds static context.
pub open spec fn has_core(ms: Seq<JsonView>) -> bool {
    exists|i: int, j: int|
        0 <= i < ms.len() && 0 <= j < blocks(ms[i]).len() && core_block(#[trigger] blocks(ms[i])[j])
}

/// The message `i` has something left to say.
pub open spec fn leaves(ms: Seq<JsonView>, i: int) -> bool {
    kept(ms, i).len() > 0 || (i == 0 && has_core(ms))
}

/// The messages that have something left to say, in order.
pub open spec fn leaving(ms: Seq<JsonView>) -> Seq<int> {
    Seq::new(ms.len(), |i: int| i).filter(|i: int| leaves(ms, i))
}

/// Messages that can be restructured.
pub open spec fn addressable(ms: Seq<JsonView>) -> bool {
    ms.len() >= 2 && forall|i: int|
        0 <= i < ms.len() ==> (#[trigger] ms[i] is Obj || ms[i] is Null)
}

/// `w` is what the message `i` becomes: static context for the first message, then the blocks that
/// stay, and everything else as it was, but that static context is said by the user.
pub open spec fn becomes(ms: Seq<JsonView>, i: int, w: JsonView) -> bool {
    json::arr_field(w, "content"@) matches Some(cs) && cs.len() >= kept(ms, i).len() && {
        let lead = cs.len() - kept(ms, i).len();
        &&& cs.skip(lead) == kept(ms, i)
        &&& i > 0 ==> lead == 0
        &&& lead > 0 <==> i == 0 && has_core(ms)
        &&& forall|l: int| 0 <= l < lead ==> core_block(#[trigger] cs[l])
        &&& forall|l: int, k: int|
            0 <= l < k < lead ==> json::text_field(#[trigger] cs[l], "text"@) != json::text_field(
                #[trigger] cs[k],
                "text"@,
            )
        &&& lead > 0 ==> json::text_field(w, "role"@) == Some("user"@)
        &&& forall|q: Seq<char>|
            q != "content"@ && (q != "role"@ || lead == 0) ==> #[trigger] json::field(w, q)
                == json::field(ms[i], q)
    }
}

proof fn lemma_filter_same(
    s: Seq<JsonView>,
    p: spec_fn(JsonView) -> bool,
    q: spec_fn(JsonView) -> bool,
)
    requires
        forall|b: JsonView| #[trigger] p(b) == q(b),
    ensures
        s.filter(p) == s.filter(q),
    decreases s.len(),
{
    reveal(Seq::filter);
    if s.len() > 0 {
        lemma_filter_same(s.drop_last(), p, q);
        assert(p(s.last()) == q(s.last()));
    }
}

/// A filtered list is the list of the items at the positions that pass.
proof fn lemma_filter_positions(
    s: Seq<JsonView>,
    p: spec_fn(JsonView) -> bool,
    f: spec_fn(int) -> bool,
)
    requires
        forall|i: int| 0 <= i < s.len() ==> #[trigger] f(i) == p(s[i]),
    ensures
        ({
            let at = Seq::new(s.len(), |i: int| i).filter(f);
            &&& s.filter(p).len() == at.len()
            &&& forall|r: int|
                0 <= r < at.len() ==> 0 <= #[trigger] at[r] < s.len() && f(at[r]) && s.filter(p)[r]
                    == s[at[r]]
            &&& forall|r: int, t: int|
                0 <= r < t < at.len() ==> #[trigger] at[r] < #[trigger] at[t]
        }),
    decreases s.len(),
{
    reveal(Seq::filter);
    let all = Seq::new(s.len(), |i: int| i);
    if s.len() > 0 {
        let short = s.drop_last();
        assert forall|i: int| 0 <= i < short.len() implies #[trigger] f(i) == p(short[i]) by {
            assert(short[i] == s[i]);
        }
        lemma_filter_positions(short, p, f);
        assert(all.drop_last() =~= Seq::new(short.len(), |i: int| i));
        assert(all.last() == s.len() - 1);
        assert(f(s.len() - 1) == p(s[s.len() - 1]));
    }
}

proof fn lemma_blocks(m: JsonView)
    requires
        m is Obj || m is Null,
    ensures
        transform::content_blocks(transform::as_blocks(m)) == blocks(m),
        transform::as_blocks(m) is Obj || transform::as_blocks(m) is Null,
        forall|q: Seq<char>|
            q != "content"@ ==> #[trigger] json::field(transform::as_blocks(m), q) == json::field(
                m,
                q,
            ),
{
    broadcast use json::group_json_fields;

}

/// What a message is before empty ones are dropped.
proof fn lemma_sifted(m: JsonView, last: bool)
    requires
        m is Obj || m is Null,
    ensures
        ({
            let w = transform::sifted(transform::as_blocks(m), last);
            &&& w is Obj
            &&& transform::content_blocks(w) == blocks(m).filter(|b: JsonView| stays(b, last))
            &&& forall|q: Seq<char>|
                q != "content"@ ==> #[trigger] json::field(w, q) == json::field(m, q)
        }),
{
    broadcast use json::group_json_fields;

    lemma_blocks(m);
    let l = transform::as_blocks(m);
    transform_laws::lemma_sifted_no_core(l, last);
    lemma_filter_same(
        blocks(m),
        |b: JsonView| transform::block_stays(b, last),
        |b: JsonView| stays(b, last),
    );
    let w = transform::sifted(l, last);
    assert(Seq::<JsonView>::empty().filter(|b: JsonView| stays(b, last)) =~= Seq::empty()) by {
        reveal(Seq::filter);
    }
    assert forall|q: Seq<char>| q != "content"@ implies #[trigger] json::field(w, q)
        == json::field(m, q) by {
        if l is Null {
            let o = w->Obj_0;
            assert(o.len() == 1 && o[0].0 == "content"@);
            json::lemma_index_none(o, q, 0);
        }
    }
}

proof fn lemma_cores_hold(ms: Seq<JsonView>, i: int, j: int)
    requires
        0 <= i < ms.len(),
        0 <= j < transform::content_blocks(ms[i]).len(),
        transform::core_block(transform::content_blocks(ms[i])[j]),
    ensures
        transform::cores(ms).contains(transform::content_blocks(ms[i])[j]),
    decreases ms.len(),
{
    let b = transform::content_blocks(ms[i])[j];
    let p = |b: JsonView| transform::core_block(b);
    let head = transform::cores(ms.drop_last());
    let own = transform::content_blocks(ms.last()).filter(p);
    if i < ms.len() - 1 {
        assert(ms.drop_last()[i] == ms[i]);
        lemma_cores_hold(ms.drop_last(), i, j);
        let k = choose|k: int| 0 <= k < head.len() && head[k] == b;
        assert((head + own)[k] == b);
    } else {
        transform_laws::lemma_filter_holds(transform::content_blocks(ms.last()), p, b);
        assert(transform::content_blocks(ms.last())[j] == b);
        let k = choose|k: int| 0 <= k < own.len() && own[k] == b;
        assert((head + own)[head.len() + k] == b);
    }
}

proof fn lemma_cores_from(ms: Seq<JsonView>)
    requires
        transform::cores(ms).len() > 0,
    ensures
        exists|i: int, j: int|
            0 <= i < ms.len() && 0 <= j < transform::content_blocks(ms[i]).len()
                && transform::core_block(#[trigger] transform::content_blocks(ms[i])[j]),
    decreases ms.len(),
{
    let p = |b: JsonView| transform::core_block(b);
    if transform::cores(ms.drop_last()).len() > 0 {
        lemma_cores_from(ms.drop_last());
        let (i, j) = choose|i: int, j: int|
            0 <= i < ms.drop_last().len() && 0 <= j < transform::content_blocks(
                ms.drop_last()[i],
            ).len() && transform::core_block(
                #[trigger] transform::content_blocks(ms.drop_last()[i])[j],
            );
        assert(ms.drop_last()[i] == ms[i]);
        assert(transform::core_block(transform::content_blocks(ms[i])[j]));
    } else {
        let own = transform::content_blocks(ms.last());
        transform_laws::lemma_filter_at(own, p, 0);
        let j = choose|j: int| 0 <= j < own.len() && own[j] == own.filter(p)[0];
        assert(ms[ms.len() - 1] == ms.last());
        assert(transform::core_block(transform::content_blocks(ms[ms.len() - 1])[j]));
    }
}

/// The messages before empty ones are dropped.
spec fn whole(ms: Seq<JsonView>) -> Seq<JsonView> {
    let listed = ms.map_values(|m: JsonView| transform::as_blocks(m));
    transform::hoisted(transform::all_sifted(listed), transform::cores(listed))
}

proof fn lemma_listed(ms: Seq<JsonView>)
    requires
        addressable(ms),
    ensures
        ({
            let listed = ms.map_values(|m: JsonView| transform::as_blocks(m));
            &&& has_core(ms) <==> transform::cores(listed).len() > 0
            &&& forall|i: int|
                0 <= i < ms.len() ==> transform::content_blocks(#[trigger] listed[i]) == blocks(
                    ms[i],
                )
        }),
{
    let listed = ms.map_values(|m: JsonView| transform::as_blocks(m));
    assert forall|i: int| 0 <= i < ms.len() implies transform::content_blocks(#[trigger] listed[i])
        == blocks(ms[i]) by {
        assert(ms[i] is Obj || ms[i] is Null);
        lemma_blocks(ms[i]);
    }
    if has_core(ms) {
        let (i, j) = choose|i: int, j: int|
            0 <= i < ms.len() && 0 <= j < blocks(ms[i]).len() && core_block(
                #[trigger] blocks(ms[i])[j],
            );
        assert(transform::content_blocks(listed[i]) == blocks(ms[i]));
        lemma_cores_hold(listed, i, j);
    }
    if transform::cores(listed).len() > 0 {
        lemma_cores_from(listed);
        let (i, j) = choose|i: int, j: int|
            0 <= i < listed.len() && 0 <= j < transform::content_blocks(listed[i]).len()
                && transform::core_block(#[trigger] transform::content_blocks(listed[i])[j]);
        assert(core_block(blocks(ms[i])[j]));
    }
}

proof fn lemma_whole(ms: Seq<JsonView>, i: int)
    requires
        addressable(ms),
        0 <= i < ms.len(),
    ensures
        whole(ms).len() == ms.len(),
        transform::has_content(whole(ms)[i]) == leaves(ms, i),
        leaves(ms, i) ==> becomes(ms, i, whole(ms)[i]),
{
    broadcast use json::group_json_fields;

    transform_laws::lemma_names();
    let listed = ms.map_values(|m: JsonView| transform::as_blocks(m));
    let cs = transform::cores(listed);
    let ss = transform::all_sifted(listed);
    let w = whole(ms)[i];
    assert(ms[i] is Obj || ms[i] is Null);
    lemma_listed(ms);
    lemma_sifted(ms[i], i == ms.len() - 1);
    assert(ss[i] == transform::sifted(transform::as_blocks(ms[i]), i == ms.len() - 1));
    if i == 0 && cs.len() > 0 {
        let lead = transform::firsts(cs);
        transform_laws::lemma_hoisted_content(ss[0], cs);
        transform_laws::lemma_firsts_nonempty(cs);
        transform_laws::law_hoisted_texts_are_unique(cs);
        let content = lead + kept(ms, 0);
        assert(content.skip(lead.len() as int) =~= kept(ms, 0));
        assert(json::arr_field(w, "content"@) == Some(content));
        assert forall|l: int| 0 <= l < lead.len() implies core_block(#[trigger] content[l]) by {
            transform_laws::lemma_firsts_member(cs, l);
            let k = choose|k: int| 0 <= k < cs.len() && cs[k] == lead[l];
            transform_laws::lemma_cores_are_core(listed, k);
        }
        assert forall|l: int, k: int| 0 <= l < k < lead.len() implies json::text_field(
            #[trigger] content[l],
            "text"@,
        ) != json::text_field(#[trigger] content[k], "text"@) by {
            assert(content[l] == lead[l] && content[k] == lead[k]);
            assert(core_block(content[l]) && core_block(content[k]));
            assert(transform::block_text(lead[l]) != transform::block_text(lead[k]));
        }
    } else {
        assert(w == ss[i]);
        let own = kept(ms, i);
        assert(own.skip(0) =~= own);
    }
}

/// Restructuring leaves the messages that have something left to say, in their order and no others,
/// each with the blocks that stay in it. The first begins with the static context of all of them.
pub proof fn law_messages_keep_what_is_theirs(ms: Seq<JsonView>)
    requires
        addressable(ms),
    ensures
        ({
            let rs = transform::restructured(ms);
            let at = leaving(ms);
            &&& rs.len() == at.len()
            &&& forall|r: int|
                0 <= r < at.len() ==> 0 <= #[trigger] at[r] < ms.len() && becomes(ms, at[r], rs[r])
            &&& forall|r: int, t: int|
                0 <= r < t < at.len() ==> #[trigger] at[r] < #[trigger] at[t]
        }),
{
    let hs = whole(ms);
    let p = |m: JsonView| transform::has_content(m);
    let f = |i: int| leaves(ms, i);
    lemma_whole(ms, 0);
    assert forall|i: int| 0 <= i < hs.len() implies #[trigger] f(i) == p(hs[i]) by {
        lemma_whole(ms, i);
    }
    lemma_filter_positions(hs, p, f);
    let at = leaving(ms);
    assert forall|r: int| 0 <= r < at.len() implies 0 <= #[trigger] at[r] < ms.len() && becomes(
        ms,
        at[r],
        transform::restructured(ms)[r],
    ) by {
        assert(f(at[r]));
        lemma_whole(ms, at[r]);
    }
}

/// Wherever static context stands, it stands afterwards among the blocks that lead the first message.
pub proof fn law_static_context_leads_the_conversation(ms: Seq<JsonView>, i: int, j: int)
    requires
        addressable(ms),
        0 <= i < ms.len(),
        0 <= j < blocks(ms[i]).len(),
        core_block(blocks(ms[i])[j]),
    ensures
        ({
            let rs = transform::restructured(ms);
            rs.len() > 0 && json::text_field(rs[0], "role"@) == Some("user"@) && (json::arr_field(
                rs[0],
                "content"@,
            ) matches Some(cs) && exists|k: int|
                0 <= k < cs.len() && json::text_field(#[trigger] cs[k], "text"@) == json::text_field(
                    blocks(ms[i])[j],
                    "text"@,
                ) && forall|l: int| 0 <= l <= k ==> core_block(#[trigger] cs[l]))
        }),
{
    let listed = ms.map_values(|m: JsonView| transform::as_blocks(m));
    let cores = transform::cores(listed);
    let rs = transform::restructured(ms);
    let b = blocks(ms[i])[j];
    lemma_listed(ms);
    assert(has_core(ms));
    assert(transform::content_blocks(listed[i]) == blocks(ms[i]));
    lemma_cores_hold(listed, i, j);
    let n = choose|n: int| 0 <= n < cores.len() && cores[n] == b;
    assert(transform::text_seen(cores, transform::block_text(b)));
    transform_laws::law_hoisted_texts_are_unique(cores);
    let lead = transform::firsts(cores);
    assert(transform::text_seen(lead, transform::block_text(b)));
    let k = choose|k: int|
        0 <= k < lead.len() && transform::block_text(#[trigger] lead[k]) == transform::block_text(b);
    transform_laws::law_static_context_is_hoisted(ms);
    let cs = transform::content_blocks(rs[0]);
    assert forall|l: int| 0 <= l < lead.len() implies core_block(#[trigger] cs[l]) by {
        assert(cs[l] == lead[l]);
        transform_laws::lemma_firsts_member(cores, l);
        let m = choose|m: int| 0 <= m < cores.len() && cores[m] == lead[l];
        transform_laws::lemma_cores_are_core(listed, m);
    }
    assert(cs[k] == lead[k]);
    assert(core_block(cs[k]));
    law_messages_keep_what_is_theirs(ms);
    assert(leaves(ms, 0));
    lemma_first_leaves(ms);
}

proof fn lemma_first_leaves(ms: Seq<JsonView>)
    requires
        ms.len() > 0,
        leaves(ms, 0),
    ensures
        leaving(ms).len() > 0,
        leaving(ms)[0] == 0,
{
    let all = Seq::new(ms.len(), |i: int| i);
    let f = |i: int| leaves(ms, i);
    let first = seq![0int];
    let rest = Seq::new((ms.len() - 1) as nat, |i: int| i + 1);
    assert(all =~= first + rest);
    Seq::filter_distributes_over_add(first, rest, f);
    assert(first.filter(f) =~= first) by {
        reveal(Seq::filter);
        assert(first.drop_last() =~= Seq::empty());
        assert(first.drop_last().filter(f) =~= Seq::empty());
    }
}

/// A block of a text that holds the marker of the client's projects is static context, unless it is the
/// output of a local command: so are those with the markers of its plans, of the project's notes and of
/// deferred tools.
pub proof fn law_markers_make_static_context(t: Seq<char>, a: Seq<char>, b: Seq<char>)
    requires
        !text::holds(t, "<local-command-stdout>"@),
        !text::holds(t, "<local-command-caveat>"@),
        t == a + text::path_of(".claude_projects"@) + b || t == a + text::path_of(
            ".claude_plans"@,
        ) + b || t == a + "claudeMd"@ + b || t == a + "ToolSearch"@ + b,
    ensures
        transform::core_context(t),
{
    crate::text_laws::law_holding_is_having_inside(a, text::path_of(".claude_projects"@), b);
    crate::text_laws::law_holding_is_having_inside(a, text::path_of(".claude_plans"@), b);
    crate::text_laws::law_holding_is_having_inside(a, "claudeMd"@, b);
    crate::text_laws::law_holding_is_having_inside(a, "ToolSearch"@, b);
}

/// A conversation of fewer than two messages is left as it is.
pub proof fn law_short_conversations_stay(body: JsonView)
    requires
        json::arr_field(body, "messages"@) matches Some(ms) ==> ms.len() <= 1,
    ensures
        transform::with_restructured(body) == body,
{
    broadcast use json::group_json_fields;

}

/// The static context of the messages, in order.
pub open spec fn core_blocks(ms: Seq<JsonView>) -> Seq<JsonView>
    decreases ms.len(),
{
    if ms.len() == 0 {
        seq![]
    } else {
        core_blocks(ms.drop_last()) + blocks(ms.last()).filter(|b: JsonView| core_block(b))
    }
}

/// The block at `i` is the first with its text.
pub open spec fn first_of_its_text(bs: Seq<JsonView>, i: int) -> bool {
    forall|k: int|
        0 <= k < i ==> json::text_field(#[trigger] bs[k], "text"@) != json::text_field(
            bs[i],
            "text"@,
        )
}

/// The positions of the blocks that are the first with their text.
pub open spec fn firsts(bs: Seq<JsonView>) -> Seq<int> {
    Seq::new(bs.len(), |i: int| i).filter(|i: int| first_of_its_text(bs, i))
}

proof fn lemma_firsts(bs: Seq<JsonView>)
    requires
        forall|i: int| 0 <= i < bs.len() ==> core_block(#[trigger] bs[i]),
    ensures
        transform::firsts(bs) == firsts(bs).map_values(|i: int| bs[i]),
    decreases bs.len(),
{
    reveal(Seq::filter);
    let all = Seq::new(bs.len(), |i: int| i);
    let f = |i: int| first_of_its_text(bs, i);
    if bs.len() > 0 {
        let short = bs.drop_last();
        let n = bs.len() - 1;
        assert forall|i: int| 0 <= i < short.len() implies core_block(#[trigger] short[i]) by {
            assert(short[i] == bs[i]);
        }
        lemma_firsts(short);
        let g = |i: int| first_of_its_text(short, i);
        let few = Seq::new(short.len(), |i: int| i);
        assert(all.drop_last() =~= few);
        assert forall|i: int| 0 <= i < few.len() implies f(#[trigger] few[i]) == g(few[i]) by {
            if f(i) {
                assert forall|k: int| 0 <= k < i implies json::text_field(
                    #[trigger] short[k],
                    "text"@,
                ) != json::text_field(short[i], "text"@) by {
                    assert(short[k] == bs[k]);
                    assert(json::text_field(bs[k], "text"@) != json::text_field(bs[i], "text"@));
                }
            }
            if g(i) {
                assert forall|k: int| 0 <= k < i implies json::text_field(
                    #[trigger] bs[k],
                    "text"@,
                ) != json::text_field(bs[i], "text"@) by {
                    assert(short[k] == bs[k]);
                }
            }
        }
        lemma_filter_ints(few, f, g);
        lemma_filter_bounds(few, g);
        let kept = few.filter(g);
        assert(kept.map_values(|i: int| short[i]) =~= kept.map_values(|i: int| bs[i])) by {
            assert forall|r: int| 0 <= r < kept.len() implies short[#[trigger] kept[r]]
                == bs[kept[r]] by {
                assert(0 <= kept[r] < short.len());
            }
        }
        let t = transform::block_text(bs.last());
        assert(core_block(bs[n]));
        if transform::text_seen(short, t) {
            let k = choose|k: int|
                0 <= k < short.len() && transform::block_text(#[trigger] short[k]) == t;
            assert(core_block(short[k]));
            assert(json::text_field(bs[k], "text"@) == json::text_field(bs[n], "text"@));
            assert(!f(n));
        } else {
            assert forall|k: int| 0 <= k < n implies json::text_field(#[trigger] bs[k], "text"@)
                != json::text_field(bs[n], "text"@) by {
                assert(short[k] == bs[k]);
                assert(transform::block_text(short[k]) != t);
                assert(core_block(bs[k]));
            }
            assert(f(n));
            assert(all.last() == n);
            assert(kept.push(n).map_values(|i: int| bs[i]) =~= kept.map_values(
                |i: int| bs[i],
            ).push(bs[n]));
        }
    } else {
        assert(all.filter(f) =~= Seq::empty());
        assert(Seq::<int>::empty().map_values(|i: int| bs[i]) =~= Seq::empty());
    }
}

proof fn lemma_filter_ints(s: Seq<int>, f: spec_fn(int) -> bool, g: spec_fn(int) -> bool)
    requires
        forall|i: int| 0 <= i < s.len() ==> f(#[trigger] s[i]) == g(s[i]),
    ensures
        s.filter(f) == s.filter(g),
    decreases s.len(),
{
    reveal(Seq::filter);
    if s.len() > 0 {
        let short = s.drop_last();
        assert forall|i: int| 0 <= i < short.len() implies f(#[trigger] short[i]) == g(
            short[i],
        ) by {
            assert(short[i] == s[i]);
        }
        lemma_filter_ints(short, f, g);
        assert(f(s[s.len() - 1]) == g(s[s.len() - 1]));
    }
}

proof fn lemma_filter_bounds(s: Seq<int>, g: spec_fn(int) -> bool)
    ensures
        forall|r: int|
            0 <= r < s.filter(g).len() ==> s.contains(#[trigger] s.filter(g)[r]),
    decreases s.len(),
{
    reveal(Seq::filter);
    if s.len() > 0 {
        let short = s.drop_last();
        lemma_filter_bounds(short, g);
        assert forall|r: int| 0 <= r < s.filter(g).len() implies s.contains(
            #[trigger] s.filter(g)[r],
        ) by {
            if r < short.filter(g).len() {
                assert(short.contains(short.filter(g)[r]));
                let k = choose|k: int| 0 <= k < short.len() && short[k] == short.filter(g)[r];
                assert(s[k] == short.filter(g)[r]);
            } else {
                assert(s[s.len() - 1] == s.filter(g)[r]);
            }
        }
    }
}

proof fn lemma_core_blocks(ms: Seq<JsonView>)
    requires
        forall|i: int| 0 <= i < ms.len() ==> (#[trigger] ms[i] is Obj || ms[i] is Null),
    ensures
        transform::cores(ms.map_values(|m: JsonView| transform::as_blocks(m))) == core_blocks(ms),
        forall|i: int| 0 <= i < core_blocks(ms).len() ==> core_block(#[trigger] core_blocks(ms)[i]),
    decreases ms.len(),
{
    let listed = ms.map_values(|m: JsonView| transform::as_blocks(m));
    if ms.len() > 0 {
        let short = ms.drop_last();
        assert forall|i: int| 0 <= i < short.len() implies (#[trigger] short[i] is Obj
            || short[i] is Null) by {
            assert(short[i] == ms[i]);
        }
        lemma_core_blocks(short);
        assert(listed.drop_last() =~= short.map_values(|m: JsonView| transform::as_blocks(m)));
        assert(ms[ms.len() - 1] is Obj || ms[ms.len() - 1] is Null);
        lemma_blocks(ms.last());
        let own = blocks(ms.last());
        lemma_filter_same(
            own,
            |b: JsonView| transform::core_block(b),
            |b: JsonView| core_block(b),
        );
        let p = |b: JsonView| core_block(b);
        let head = core_blocks(short);
        assert forall|i: int| 0 <= i < core_blocks(ms).len() implies core_block(
            #[trigger] core_blocks(ms)[i],
        ) by {
            if i >= head.len() {
                transform_laws::lemma_filter_at(own, p, i - head.len());
            }
        }
    }
}

/// Of static context with the same text the first block is the one that stays, and what stays is in the
/// order in which it stood.
pub proof fn law_static_context_keeps_its_order(ms: Seq<JsonView>)
    requires
        addressable(ms),
        has_core(ms),
    ensures
        ({
            let all = core_blocks(ms);
            let at = firsts(all);
            transform::restructured(ms).len() > 0 && (json::arr_field(
                transform::restructured(ms)[0],
                "content"@,
            ) matches Some(cs) && cs == at.map_values(|i: int| all[i]) + kept(ms, 0))
        }),
{
    let listed = ms.map_values(|m: JsonView| transform::as_blocks(m));
    let all = core_blocks(ms);
    let rs = transform::restructured(ms);
    lemma_listed(ms);
    lemma_core_blocks(ms);
    lemma_firsts(all);
    transform_laws::law_static_context_is_hoisted(ms);
    lemma_sifted(ms[0], false);
    assert(ms[0] is Obj || ms[0] is Null);
    assert(listed[0] == transform::as_blocks(ms[0]));
    transform_laws::lemma_firsts_nonempty(all);
    assert(transform::content_blocks(rs[0]) == transform::firsts(all) + kept(ms, 0));
}

/// The messages of the body are the restructured ones, and nothing else in it changes.
pub proof fn law_bodies_hold_the_restructured_messages(body: JsonView, k: Seq<char>)
    ensures
        json::arr_field(body, "messages"@) matches Some(ms) ==> json::arr_field(
            transform::with_restructured(body),
            "messages"@,
        ) == Some(transform::restructured(ms)),
        json::arr_field(body, "messages"@) is None ==> transform::with_restructured(body) == body,
        k != "messages"@ ==> json::field(transform::with_restructured(body), k) == json::field(
            body,
            k,
        ),
{
    broadcast use json::group_json_fields;

}

} // verus!
