//! What a forced model does to a request: the model that it names, and the model that its system prompt
//! speaks of.

use vstd::prelude::*;
use vstd::string::*;
use vstd::utf8::*;

use crate::edit_laws;
use crate::json;
use crate::json::JsonView;
use crate::model;
use crate::patterns;
use crate::server;
use crate::text;

verus! {

/// The request after its system prompt was made to speak of the model `m`.
pub open spec fn rewritten(body: JsonView, m: Seq<char>) -> JsonView {
    model::system_with(body, model::renamed_texts(body, m))
}

/// Every block of the system prompt that has a text is rewritten, whatever else it has: its text speaks
/// of the new model afterwards, and everything else in it stays. A block without a text stays.
pub proof fn law_every_system_block_is_rewritten(body: JsonView, m: Seq<char>, i: int)
    requires
        json::arr_field(body, "system"@) matches Some(bs) && 0 <= i < bs.len(),
    ensures
        ({
            let bs = json::arr_field(body, "system"@)->0;
            json::arr_field(rewritten(body, m), "system"@) matches Some(rs) && rs.len() == bs.len()
                && match json::text_field(bs[i], "text"@) {
                Some(t) => json::text_field(rs[i], "text"@) == Some(model::renamed(t, m)) && forall|
                    q: Seq<char>,
                |
                    q != "text"@ ==> #[trigger] json::field(rs[i], q) == json::field(bs[i], q),
                None => rs[i] == bs[i],
            }
        }),
{
    broadcast use json::group_json_fields;

    let bs = json::arr_field(body, "system"@)->0;
    let ts = model::renamed_texts(body, m);
    assert(model::system_texts(body)[i] == model::block_text(bs[i]));
    assert(ts[i] == model::renamed(model::block_text(bs[i]), m));
}

/// A system prompt that is a text is rewritten as a whole. A request without one stays.
pub proof fn law_system_texts_are_rewritten(body: JsonView, m: Seq<char>)
    ensures
        json::text_field(body, "system"@) matches Some(t) ==> json::text_field(
            rewritten(body, m),
            "system"@,
        ) == Some(model::renamed(t, m)),
        json::text_field(body, "system"@) is None && json::arr_field(body, "system"@) is None
            ==> rewritten(body, m) == body,
{
    broadcast use json::group_json_fields;

    if let Some(t) = json::text_field(body, "system"@) {
        assert(model::system_texts(body)[0] == t);
        assert(model::renamed_texts(body, m)[0] == model::renamed(t, m));
    }
}

/// As many rewrites are told of as texts of the system prompt that were changed.
pub proof fn law_rewrites_are_counted(body: JsonView, m: Seq<char>)
    ensures
        model::system_changes(body, model::renamed_texts(body, m)) == (match json::field(
            body,
            "system"@,
        ) {
            Some(JsonView::Str(t)) => if model::renamed(t, m) != t {
                1nat
            } else {
                0nat
            },
            Some(JsonView::Arr(bs)) => bs.filter(
                |b: JsonView|
                    json::text_field(b, "text"@) is Some && model::renamed(
                        json::text_field(b, "text"@)->0,
                        m,
                    ) != json::text_field(b, "text"@)->0,
            ).len(),
            _ => 0,
        }),
{
    match json::field(body, "system"@) {
        Some(JsonView::Str(t)) => {
            assert(model::system_texts(body)[0] == t);
            assert(model::renamed_texts(body, m)[0] == model::renamed(t, m));
        },
        Some(JsonView::Arr(bs)) => {
            let ts = model::renamed_texts(body, m);
            assert forall|i: int| 0 <= i < bs.len() implies #[trigger] ts[i] == model::renamed(
                model::block_text(bs[i]),
                m,
            ) by {
                assert(model::system_texts(body)[i] == model::block_text(bs[i]));
            }
            lemma_changes(bs, ts, m);
        },
        _ => {},
    }
}

proof fn lemma_changes(bs: Seq<JsonView>, ts: Seq<Seq<char>>, m: Seq<char>)
    requires
        bs.len() <= ts.len(),
        forall|i: int|
            0 <= i < bs.len() ==> #[trigger] ts[i] == model::renamed(model::block_text(bs[i]), m),
    ensures
        model::changes(bs, ts) == bs.filter(
            |b: JsonView|
                json::text_field(b, "text"@) is Some && model::renamed(
                    json::text_field(b, "text"@)->0,
                    m,
                ) != json::text_field(b, "text"@)->0,
        ).len(),
    decreases bs.len(),
{
    reveal(Seq::filter);
    if bs.len() > 0 {
        assert forall|i: int| 0 <= i < bs.drop_last().len() implies #[trigger] ts[i]
            == model::renamed(model::block_text(bs.drop_last()[i]), m) by {
            assert(bs.drop_last()[i] == bs[i]);
        }
        lemma_changes(bs.drop_last(), ts, m);
        let i = bs.len() - 1;
        assert(ts[i] == model::renamed(model::block_text(bs[i]), m));
    }
}

/// A forced model is the one that the request names; the system prompt is rewritten and everything else
/// stays. An empty one forces nothing.
pub proof fn law_the_forced_model_goes_in(body: JsonView, m: Seq<char>, k: Seq<char>)
    requires
        body is Obj || body is Null,
    ensures
        m.len() == 0 ==> server::remodeled(body, m) == body,
        m.len() > 0 ==> json::field(server::remodeled(body, m), "model"@) == Some(JsonView::Str(m)),
        m.len() > 0 && k != "model"@ && k != "system"@ ==> json::field(
            server::remodeled(body, m),
            k,
        ) == json::field(body, k),
        m.len() > 0 ==> json::field(server::remodeled(body, m), "system"@) == json::field(
            rewritten(body, m),
            "system"@,
        ),
{
    broadcast use json::group_json_fields;

    reveal_strlit("model");
    reveal_strlit("system");
    assert("model"@.len() == 5 && "system"@.len() == 6);
    if m.len() > 0 {
        let b = server::model_forced(body, m);
        if body is Null {
            let o = b->Obj_0;
            json::lemma_index_is(o, "model"@, 0, 0);
            if k != "model"@ {
                json::lemma_index_none(o, k, 0);
            }
            json::lemma_index_none(o, "system"@, 0);
        }
        assert(json::field(b, "system"@) == json::field(body, "system"@));
        assert(model::system_texts(b) == model::system_texts(body));
        model::law_only_the_system_changes(b, model::renamed_texts(b, m), "model"@);
        if k != "system"@ {
            model::law_only_the_system_changes(b, model::renamed_texts(b, m), k);
        }
    }
}

/// The name that a model is spoken of by: its id without a date at the end, or the name that is known
/// for that.
pub open spec fn spoken(base: Seq<char>, name: Seq<char>) -> bool {
    ||| base == text::kebab_of("claude_opus_4_6"@) && name == "Opus 4.6"@
    ||| base == text::kebab_of("claude_opus_4_5"@) && name == "Opus 4.5"@
    ||| base == text::kebab_of("claude_sonnet_4_6"@) && name == "Sonnet 4.6"@
    ||| base == text::kebab_of("claude_sonnet_4_5"@) && name == "Sonnet 4.5"@
    ||| base == text::kebab_of("claude_haiku_4_5"@) && name == "Haiku 4.5"@
}

/// Five models have a name that they are spoken of by; any other is spoken of by its id.
pub proof fn law_models_are_spoken_of_by_name(base: Seq<char>)
    ensures
        spoken(base, model::friendly_of(base)) || (model::friendly_of(base) == base && forall|
            n: Seq<char>,
        |
            !#[trigger] spoken(base, n)),
        forall|n: Seq<char>| #[trigger] spoken(base, n) ==> model::friendly_of(base) == n,
{
    lemma_ids_differ();
}

proof fn lemma_ids_differ()
    ensures
        text::kebab_of("claude_opus_4_6"@) != text::kebab_of("claude_opus_4_5"@),
        text::kebab_of("claude_opus_4_6"@) != text::kebab_of("claude_sonnet_4_6"@),
        text::kebab_of("claude_opus_4_6"@) != text::kebab_of("claude_sonnet_4_5"@),
        text::kebab_of("claude_opus_4_6"@) != text::kebab_of("claude_haiku_4_5"@),
        text::kebab_of("claude_opus_4_5"@) != text::kebab_of("claude_sonnet_4_6"@),
        text::kebab_of("claude_opus_4_5"@) != text::kebab_of("claude_sonnet_4_5"@),
        text::kebab_of("claude_opus_4_5"@) != text::kebab_of("claude_haiku_4_5"@),
        text::kebab_of("claude_sonnet_4_6"@) != text::kebab_of("claude_sonnet_4_5"@),
        text::kebab_of("claude_sonnet_4_6"@) != text::kebab_of("claude_haiku_4_5"@),
        text::kebab_of("claude_sonnet_4_5"@) != text::kebab_of("claude_haiku_4_5"@),
{
    let (o6, o5, s6, s5, h5) = (
        "claude_opus_4_6"@,
        "claude_opus_4_5"@,
        "claude_sonnet_4_6"@,
        "claude_sonnet_4_5"@,
        "claude_haiku_4_5"@,
    );
    reveal_strlit("claude_opus_4_6");
    reveal_strlit("claude_opus_4_5");
    reveal_strlit("claude_sonnet_4_6");
    reveal_strlit("claude_sonnet_4_5");
    reveal_strlit("claude_haiku_4_5");
    crate::text_laws::law_words_are_put_together(o6);
    crate::text_laws::law_words_are_put_together(o5);
    crate::text_laws::law_words_are_put_together(s6);
    crate::text_laws::law_words_are_put_together(s5);
    crate::text_laws::law_words_are_put_together(h5);
    assert(text::kebab_of(o6).len() == 15 && text::kebab_of(o5).len() == 15);
    assert(text::kebab_of(s6).len() == 17 && text::kebab_of(s5).len() == 17);
    assert(text::kebab_of(h5).len() == 16);
    assert(text::kebab_of(o6)[14] == '6' && text::kebab_of(o5)[14] == '5');
    assert(text::kebab_of(s6)[16] == '6' && text::kebab_of(s5)[16] == '5');
}

/// Eight digits.
pub open spec fn a_date(d: Seq<char>) -> bool {
    d.len() == 8 && forall|i: int| 0 <= i < 8 ==> '0' <= #[trigger] d[i] <= '9'
}

/// A date at the end of a model id is taken off; an id without one stays.
pub proof fn law_dates_are_taken_off(x: Seq<char>, d: Seq<char>)
    requires
        is_ascii_chars(x),
    ensures
        a_date(d) ==> patterns::date_off(x + "-"@ + d) == x,
        !(exists|y: Seq<char>, e: Seq<char>| a_date(e) && #[trigger] (y + "-"@ + e) == x)
            ==> patterns::date_off(x) == x,
{
    reveal_strlit("-");
    if a_date(d) {
        let t = x + "-"@ + d;
        let n = t.len() as int;
        assert(is_ascii_chars(t)) by {
            assert forall|i: int| 0 <= i < t.len() implies '\0' <= #[trigger] t[i] <= '\u{7f}' by {
                if i < x.len() {
                    assert(t[i] == x[i]);
                } else if i > x.len() {
                    assert(t[i] == d[i - x.len() - 1]);
                }
            }
        }
        assert(t[n - 9] == '-');
        assert forall|j: int| n - 9 < j < n implies '0' <= #[trigger] t[j] <= '9' by {
            assert(t[j] == d[j - (n - 8)]);
        }
        assert(patterns::date_at(t, n - 9));
        assert(t.take(n - 9) =~= x);
    }
    if patterns::dated(x) {
        let n = x.len() as int;
        let (y, e) = (x.take(n - 9), x.skip(n - 8));
        assert forall|i: int| 0 <= i < 8 implies '0' <= #[trigger] e[i] <= '9' by {
            assert(e[i] == x[n - 8 + i]);
        }
        assert(a_date(e));
        assert(y + "-"@ + e =~= x);
    }
}

/// The id of the model that system prompts call themselves by.
pub open spec fn source_id() -> Seq<char> {
    text::kebab_of("claude_opus_4_7"@)
}

proof fn lemma_ids_shifted(p: Seq<char>, b: Seq<char>, new: Seq<char>, i: int)
    requires
        0 <= i,
    ensures
        patterns::ids_replaced(p + b, new, p.len() + i) == patterns::ids_replaced(b, new, i),
    decreases b.len() - i,
{
    let t = p + b;
    if i < b.len() {
        let e = i + source_id().len();
        edit_laws::lemma_occurs_shifted(p, b, source_id(), i);
        if text::occurs_at(b, source_id(), i) && e > i {
            lemma_date_shifted(p, b, e as int);
            if patterns::date_at(b, e as int) {
                lemma_ids_shifted(p, b, new, e + 9);
            } else {
                lemma_ids_shifted(p, b, new, e as int);
            }
        } else {
            lemma_ids_shifted(p, b, new, i + 1);
        }
    }
}

proof fn lemma_date_shifted(p: Seq<char>, b: Seq<char>, i: int)
    requires
        0 <= i,
    ensures
        patterns::date_at(p + b, p.len() + i) == patterns::date_at(b, i),
{
    let t = p + b;
    if patterns::date_at(b, i) {
        assert forall|j: int| p.len() + i < j < p.len() + i + 9 implies '0' <= #[trigger] t[j]
            <= '9' by {
            assert(t[j] == b[j - p.len()]);
        }
    }
    if patterns::date_at(t, p.len() + i) {
        assert forall|j: int| i < j < i + 9 implies '0' <= #[trigger] b[j] <= '9' by {
            assert(b[j] == t[p.len() + j]);
        }
    }
}

/// The source model's id is replaced together with a date behind it, wherever it stands, and every
/// other character stays.
pub proof fn law_source_ids_are_replaced(b: Seq<char>, d: Seq<char>, c: char, new: Seq<char>)
    ensures
        patterns::ids_replaced(Seq::empty(), new, 0) == Seq::<char>::empty(),
        a_date(d) ==> patterns::ids_replaced(source_id() + "-"@ + d + b, new, 0) == new
            + patterns::ids_replaced(b, new, 0),
        !patterns::date_at(b, 0) ==> patterns::ids_replaced(source_id() + b, new, 0) == new
            + patterns::ids_replaced(b, new, 0),
        !text::begins(seq![c] + b, source_id()) ==> patterns::ids_replaced(seq![c] + b, new, 0)
            == seq![c] + patterns::ids_replaced(b, new, 0),
{
    let id = source_id();
    reveal_strlit("claude_opus_4_7");
    reveal_strlit("-");
    crate::text_laws::law_words_are_put_together("claude_opus_4_7"@);
    assert(id.len() == 15);
    if a_date(d) {
        let p = id + "-"@ + d;
        let t = p + b;
        assert(t.subrange(0, 15) =~= id);
        assert(text::occurs_at(t, id, 0));
        assert(t[15] == '-');
        assert forall|j: int| 15 < j < 24 implies '0' <= #[trigger] t[j] <= '9' by {
            assert(t[j] == d[j - 16]);
        }
        assert(patterns::date_at(t, 15));
        lemma_ids_shifted(p, b, new, 0);
    }
    let t = id + b;
    assert(t.subrange(0, 15) =~= id);
    assert(text::occurs_at(t, id, 0));
    lemma_date_shifted(id, b, 0);
    lemma_ids_shifted(id, b, new, 0);
    let s = seq![c] + b;
    lemma_ids_shifted(seq![c], b, new, 0);
    if text::occurs_at(s, id, 0) {
        assert(s.subrange(0, 15) =~= s.take(15));
    }
    assert(s[0] == c);
}

/// The source model's name is replaced wherever it stands, and every other character stays.
pub proof fn law_source_names_are_replaced(b: Seq<char>, c: char, new: Seq<char>)
    ensures
        patterns::replaced(Seq::empty(), "Opus 4.7"@, new) == Seq::<char>::empty(),
        patterns::replaced("Opus 4.7"@ + b, "Opus 4.7"@, new) == new + patterns::replaced(
            b,
            "Opus 4.7"@,
            new,
        ),
        !text::begins(seq![c] + b, "Opus 4.7"@) ==> patterns::replaced(
            seq![c] + b,
            "Opus 4.7"@,
            new,
        ) == seq![c] + patterns::replaced(b, "Opus 4.7"@, new),
{
    let n = "Opus 4.7"@;
    reveal_strlit("Opus 4.7");
    let t = n + b;
    assert(t.subrange(0, 8) =~= n);
    assert(text::occurs_at(t, n, 0));
    assert(t.skip(8) =~= b);
    assert(t.take(0) =~= Seq::empty());
    assert(Seq::<char>::empty() + new =~= new);
    let e = Seq::<char>::empty();
    text::lemma_first_from(e, n, 0);
    let s = seq![c] + b;
    if !text::begins(s, n) {
        if text::occurs_at(s, n, 0) {
            assert(s.subrange(0, 8) =~= s.take(8));
        }
        edit_laws::lemma_first_shifted(seq![c], b, n, 0);
        text::lemma_first_from(b, n, 0);
        if let Some(j) = text::first_from(b, n, 0) {
            assert(s.take(j + 1) =~= seq![c] + b.take(j));
            assert(s.skip(j + 1 + 8) =~= b.skip(j + 8));
            assert(text::first_from(s, n, 0) == Some(1 + j));
            assert(patterns::replaced(s, n, new) =~= seq![c] + patterns::replaced(b, n, new));
        } else {
            assert(text::first_from(s, n, 0) is None);
        }
    }
}

/// A text of ASCII characters is renamed by putting the id of the new model in place of the old one's,
/// and then the name that the new model is spoken of by in place of the old one's.
pub proof fn law_renaming_puts_the_id_and_the_name(t: Seq<char>, m: Seq<char>)
    requires
        is_ascii_chars(t),
        !m.contains('$'),
        !model::friendly_of(patterns::date_off(m)).contains('$'),
    ensures
        model::renamed(t, m) == patterns::replaced(
            patterns::ids_replaced(t, m, 0),
            "Opus 4.7"@,
            model::friendly_of(patterns::date_off(m)),
        ),
{
}

/// The note on a forced model names the model that the request named, the one that it names now, and how
/// many texts of the system prompt were changed.
pub proof fn law_the_model_note_tells_both(body: JsonView, m: Seq<char>)
    requires
        body is Obj || body is Null,
    ensures
        server::model_note(body, m) == "model="@ + (match json::text_field(body, "model"@) {
            Some(t) => t,
            None => seq![],
        }) + "->"@ + m + ",sys-rewrites="@ + text::decimal_of(
            model::system_changes(body, model::renamed_texts(body, m)),
        ),
{
    broadcast use json::group_json_fields;

    reveal_strlit("model");
    reveal_strlit("system");
    assert("model"@.len() == 5 && "system"@.len() == 6);
    let b = server::model_forced(body, m);
    if body is Null {
        json::lemma_index_none(b->Obj_0, "system"@, 0);
    }
    assert(json::field(b, "system"@) == json::field(body, "system"@));
    assert(Seq::<char>::empty() =~= seq![]);
}

} // verus!
