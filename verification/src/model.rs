//! Making a request's system prompt speak of the model that requests are forced to.

use vstd::prelude::*;

use crate::json;
use crate::json::{Json, JsonView};
use crate::patterns;
use crate::text;

verus! {

broadcast use crate::json::group_json_view;

/// The name that the model id `base`, without a date, is spoken of by.
pub open spec fn friendly_of(base: Seq<char>) -> Seq<char> {
    if base == text::kebab_of("claude_opus_4_6"@) {
        "Opus 4.6"@
    } else if base == text::kebab_of("claude_opus_4_5"@) {
        "Opus 4.5"@
    } else if base == text::kebab_of("claude_sonnet_4_6"@) {
        "Sonnet 4.6"@
    } else if base == text::kebab_of("claude_sonnet_4_5"@) {
        "Sonnet 4.5"@
    } else if base == text::kebab_of("claude_haiku_4_5"@) {
        "Haiku 4.5"@
    } else {
        base
    }
}

/// The name that the model id `base`, without a date, is spoken of by.
pub fn friendly_name(base: &str) -> (r: &str)
    ensures
        r@ == friendly_of(base@),
{
    if text::same(base, text::kebab("claude_opus_4_6").as_str()) {
        "Opus 4.6"
    } else if text::same(base, text::kebab("claude_opus_4_5").as_str()) {
        "Opus 4.5"
    } else if text::same(base, text::kebab("claude_sonnet_4_6").as_str()) {
        "Sonnet 4.6"
    } else if text::same(base, text::kebab("claude_sonnet_4_5").as_str()) {
        "Sonnet 4.5"
    } else if text::same(base, text::kebab("claude_haiku_4_5").as_str()) {
        "Haiku 4.5"
    } else {
        base
    }
}

/// The text `t` with the references to the source model turned into references to `model`.
pub open spec fn renamed(t: Seq<char>, model: Seq<char>) -> Seq<char> {
    patterns::names_put(patterns::ids_put(t, model), friendly_of(patterns::date_off(model)))
}

/// The text under the key `text` of a block; empty where there is none.
pub open spec fn block_text(b: JsonView) -> Seq<char> {
    match json::text_field(b, "text"@) {
        Some(t) => t,
        None => Seq::empty(),
    }
}

/// The texts of a request's system prompt: itself, where it is a text, and those of its blocks,
/// where it is an array.
pub open spec fn system_texts(body: JsonView) -> Seq<Seq<char>> {
    match json::field(body, "system"@) {
        Some(JsonView::Str(s)) => seq![s],
        Some(JsonView::Arr(bs)) => bs.map_values(|b: JsonView| block_text(b)),
        _ => Seq::empty(),
    }
}

/// The block `b` with `t` for its text, where it has one.
pub open spec fn block_with(b: JsonView, t: Seq<char>) -> JsonView {
    if json::text_field(b, "text"@) is Some {
        json::with_field(b, "text"@, JsonView::Str(t))
    } else {
        b
    }
}

/// The block `b` has a text other than `t`.
pub open spec fn block_changes(b: JsonView, t: Seq<char>) -> bool {
    json::text_field(b, "text"@) matches Some(s) && s != t
}

/// The request `body` with the texts `ts` for those of its system prompt.
pub open spec fn system_with(body: JsonView, ts: Seq<Seq<char>>) -> JsonView {
    match json::field(body, "system"@) {
        Some(JsonView::Str(s)) => json::with_field(body, "system"@, JsonView::Str(ts[0])),
        Some(JsonView::Arr(bs)) => json::with_field(
            body,
            "system"@,
            JsonView::Arr(Seq::new(bs.len(), |i: int| block_with(bs[i], ts[i]))),
        ),
        _ => body,
    }
}

/// The number of blocks among `bs` whose text is not the one in `ts`.
pub open spec fn changes(bs: Seq<JsonView>, ts: Seq<Seq<char>>) -> nat
    decreases bs.len(),
{
    if bs.len() == 0 {
        0
    } else {
        let i = bs.len() - 1;
        changes(bs.drop_last(), ts) + (if block_changes(bs[i], ts[i]) {
            1nat
        } else {
            0
        })
    }
}

/// The number of texts of the system prompt that `ts` changes.
pub open spec fn system_changes(body: JsonView, ts: Seq<Seq<char>>) -> nat {
    match json::field(body, "system"@) {
        Some(JsonView::Str(s)) => if s != ts[0] {
            1
        } else {
            0
        },
        Some(JsonView::Arr(bs)) => changes(bs, ts),
        _ => 0,
    }
}

/// The texts of a request's system prompt.
pub fn texts_in_system(body: &Json) -> (r: Vec<String>)
    ensures
        text::texts(r@) == system_texts(body@),
{
    let mut out: Vec<String> = Vec::new();
    match body.get("system") {
        Some(Json::Str(s)) => {
            out.push(s.clone());
            assert(text::texts(out@) =~= seq![s@]);
        },
        Some(Json::Arr(bs)) => {
            let ghost vs = json::arr_view(bs@);
            let n: usize = bs.len();
            let mut i: usize = 0;
            while i < n
                invariant
                    n == bs@.len(),
                    i <= n,
                    vs == json::arr_view(bs@),
                    out@.len() == i,
                    forall|j: int|
                        0 <= j < i ==> (#[trigger] text::texts(out@)[j]) == block_text(vs[j]),
                decreases n - i,
            {
                let ghost before = text::texts(out@);
                match bs[i].get_text("text") {
                    Some(t) => {
                        out.push(t.to_owned());
                    },
                    None => {
                        out.push(String::new());
                    },
                }
                assert(text::texts(out@) =~= before.push(block_text(vs[i as int])));
                i += 1;
            }
            assert(text::texts(out@) =~= vs.map_values(|b: JsonView| block_text(b)));
        },
        _ => {
            assert(text::texts(out@) =~= Seq::empty());
        },
    }
    out
}

/// Puts the text `t` in place of the block's, where it has one. Says whether that changed it.
fn put_block_text(block: &mut Json, t: &str) -> (r: bool)
    ensures
        final(block)@ == block_with(old(block)@, t@),
        r == block_changes(old(block)@, t@),
{
    broadcast use json::group_json_fields;

    match block.get_mut("text") {
        Some(Json::Str(s)) => {
            let changed: bool = !text::same(s.as_str(), t);
            *s = t.to_owned();
            changed
        },
        _ => false,
    }
}

/// Puts the texts `ts` in place of those of the system prompt, each in its place, and says how many
/// that changed.
pub fn put_system_texts(body: &mut Json, ts: &Vec<String>) -> (r: usize)
    requires
        ts@.len() == system_texts(old(body)@).len(),
    ensures
        final(body)@ == system_with(old(body)@, text::texts(ts@)),
        r == system_changes(old(body)@, text::texts(ts@)),
{
    broadcast use json::group_json_fields;

    match body.get_mut("system") {
        Some(Json::Str(s)) => {
            let t: &String = &ts[0];
            let changed: bool = !text::same(s.as_str(), t.as_str());
            assert(text::texts(ts@)[0] == t@);
            *s = t.clone();
            if changed {
                1
            } else {
                0
            }
        },
        Some(Json::Arr(bs)) => {
            let ghost b0 = bs@;
            let ghost v0 = json::arr_view(b0);
            let ghost new = text::texts(ts@);
            let n: usize = bs.len();
            let mut count: usize = 0;
            let mut i: usize = 0;
            while i < n
                invariant
                    n == bs@.len(),
                    n == b0.len(),
                    n == ts@.len(),
                    v0 == json::arr_view(b0),
                    new == text::texts(ts@),
                    i <= n,
                    count <= i,
                    forall|j: int|
                        0 <= j < i ==> (#[trigger] bs@[j])@ == block_with(b0[j]@, new[j]),
                    forall|j: int| i <= j < n ==> #[trigger] bs@[j] == b0[j],
                    count == changes(v0.take(i as int), new),
                decreases n - i,
            {
                assert(v0.take(i + 1).drop_last() =~= v0.take(i as int));
                assert(new[i as int] == ts@[i as int]@);
                if put_block_text(&mut bs[i], ts[i].as_str()) {
                    count += 1;
                }
                i += 1;
            }
            proof {
                assert(v0.take(n as int) =~= v0);
                assert(json::arr_view(bs@) =~= Seq::new(
                    v0.len(),
                    |i: int| block_with(v0[i], new[i]),
                ));
            }
            count
        },
        _ => 0,
    }
}

/// The texts of the system prompt with the references to the source model turned into references
/// to `model`.
pub open spec fn renamed_texts(body: JsonView, model: Seq<char>) -> Seq<Seq<char>> {
    system_texts(body).map_values(|t: Seq<char>| renamed(t, model))
}

/// Turns the references to the source model in the system prompt into references to the given one,
/// and says in how many texts that changed something. An empty model changes nothing.
pub fn rewrite_system_model_refs(body: &mut Json, override_model: &str) -> (r: usize)
    ensures
        override_model@.len() == 0 ==> r == 0 && final(body)@ == old(body)@,
        override_model@.len() > 0 ==> {
            let ts = renamed_texts(old(body)@, override_model@);
            &&& final(body)@ == system_with(old(body)@, ts)
            &&& r == system_changes(old(body)@, ts)
        },
{
    if override_model.is_empty() {
        return 0;
    }
    proof {
        reveal_strlit("");
    }
    let base: String = patterns::replace(patterns::TRAILING_DATE, override_model, "");
    let friendly: &str = friendly_name(base.as_str());
    let source_id: String = text::kebab(patterns::SOURCE_ID);
    let texts: Vec<String> = texts_in_system(body);
    let mut out: Vec<String> = Vec::new();
    let n: usize = texts.len();
    let mut i: usize = 0;
    while i < n
        invariant
            n == texts@.len(),
            i <= n,
            source_id@ == text::kebab_of(patterns::SOURCE_ID@),
            friendly@ == friendly_of(patterns::date_off(override_model@)),
            out@.len() == i,
            forall|j: int|
                0 <= j < i ==> (#[trigger] text::texts(out@)[j]) == renamed(
                    text::texts(texts@)[j],
                    override_model@,
                ),
        decreases n - i,
    {
        let ghost before = text::texts(out@);
        let by_id: String = patterns::replace_all(
            source_id.as_str(),
            texts[i].as_str(),
            override_model,
        );
        let by_name: String = patterns::replace_all(
            patterns::SOURCE_NAME,
            by_id.as_str(),
            friendly,
        );
        out.push(by_name);
        assert(text::texts(out@) =~= before.push(
            renamed(text::texts(texts@)[i as int], override_model@),
        ));
        i += 1;
    }
    assert(text::texts(out@) =~= renamed_texts(body@, override_model@));
    put_system_texts(body, &out)
}

/// Putting the texts of the system prompt back where they stood changes nothing.
pub proof fn law_same_texts_change_nothing(body: JsonView)
    ensures
        system_with(body, system_texts(body)) == body,
        system_changes(body, system_texts(body)) == 0,
{
    broadcast use json::group_json_fields;

    let ts = system_texts(body);
    if let Some(JsonView::Arr(bs)) = json::field(body, "system"@) {
        assert forall|i: int| 0 <= i < bs.len() implies block_with(bs[i], ts[i])
            == #[trigger] bs[i] by {
            if json::text_field(bs[i], "text"@) is Some {
                json::lemma_with_same(bs[i], "text"@, JsonView::Str(block_text(bs[i])));
            }
        }
        assert(Seq::new(bs.len(), |i: int| block_with(bs[i], ts[i])) =~= bs);
        lemma_no_changes(bs, ts);
    }
}

proof fn lemma_no_changes(bs: Seq<JsonView>, ts: Seq<Seq<char>>)
    requires
        bs.len() <= ts.len(),
        forall|i: int| 0 <= i < bs.len() ==> #[trigger] ts[i] == block_text(bs[i]),
    ensures
        changes(bs, ts) == 0,
    decreases bs.len(),
{
    if bs.len() > 0 {
        lemma_no_changes(bs.drop_last(), ts);
        assert(ts[bs.len() - 1] == block_text(bs[bs.len() - 1]));
    }
}

/// Only the system prompt is changed: what stands under any other key stays.
pub proof fn law_only_the_system_changes(body: JsonView, ts: Seq<Seq<char>>, k: Seq<char>)
    requires
        k != "system"@,
    ensures
        json::field(system_with(body, ts), k) == json::field(body, k),
{
    broadcast use json::group_json_fields;

}

/// Putting other texts into the system prompt keeps a body well formed.
pub proof fn law_renaming_keeps_the_form(body: JsonView, ts: Seq<Seq<char>>)
    requires
        json::well_formed(body),
    ensures
        json::well_formed(system_with(body, ts)),
{
    json::law_field_is_well_formed(body, "system"@);
    match json::field(body, "system"@) {
        Some(JsonView::Str(s)) => {
            json::lemma_well_formed(JsonView::Str(ts[0]));
            json::law_with_field_is_well_formed(body, "system"@, JsonView::Str(ts[0]));
        },
        Some(JsonView::Arr(bs)) => {
            let cs = Seq::new(bs.len(), |i: int| block_with(bs[i], ts[i]));
            json::lemma_well_formed(JsonView::Arr(bs));
            json::lemma_well_formed(JsonView::Arr(cs));
            assert forall|i: int| 0 <= i < cs.len() implies json::well_formed(#[trigger] cs[i]) by {
                assert(json::well_formed(bs[i]));
                json::lemma_well_formed(JsonView::Str(ts[i]));
                json::law_with_field_is_well_formed(bs[i], "text"@, JsonView::Str(ts[i]));
            }
            json::law_with_field_is_well_formed(body, "system"@, JsonView::Arr(cs));
        },
        _ => {},
    }
}

} // verus!
