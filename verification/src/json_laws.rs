//! What holds of JSON values: how they are read, edited and written.

use vstd::prelude::*;
use vstd::string::*;

use crate::json;
use crate::json::{JsonView, NumberView};
use crate::text;

verus! {

/// Under a key stands the value of its first entry, and nothing where there is no such entry. Only
/// objects have entries.
pub proof fn law_the_first_entry_counts(o: Seq<(Seq<char>, JsonView)>, k: Seq<char>, i: int)
    ensures
        (0 <= i < o.len() && o[i].0 == k && forall|j: int|
            0 <= j < i ==> (#[trigger] o[j]).0 != k) ==> json::field(JsonView::Obj(o), k) == Some(
            o[i].1,
        ),
        (forall|j: int| 0 <= j < o.len() ==> (#[trigger] o[j]).0 != k) ==> json::field(
            JsonView::Obj(o),
            k,
        ) is None,
        forall|v: JsonView| !(v is Obj) ==> #[trigger] json::field(v, k) is None,
{
    if 0 <= i < o.len() && o[i].0 == k && forall|j: int| 0 <= j < i ==> (#[trigger] o[j]).0 != k {
        json::lemma_index_is(o, k, 0, i);
    }
    if forall|j: int| 0 <= j < o.len() ==> (#[trigger] o[j]).0 != k {
        json::lemma_index_none(o, k, 0);
    }
}

/// Putting a value under a key changes what stands there and nothing else: an entry that is there keeps
/// its place, and a new one goes behind the others.
pub proof fn law_a_value_is_put_in_its_place(
    o: Seq<(Seq<char>, JsonView)>,
    k: Seq<char>,
    x: JsonView,
    q: Seq<char>,
)
    ensures
        ({
            let w = json::with_field(JsonView::Obj(o), k, x);
            &&& json::field(w, k) == Some(x)
            &&& q != k ==> json::field(w, q) == json::field(JsonView::Obj(o), q)
            &&& json::field(JsonView::Obj(o), k) is None ==> w == JsonView::Obj(o.push((k, x)))
            &&& w matches JsonView::Obj(p) && forall|i: int|
                0 <= i < o.len() ==> (#[trigger] p[i]).0 == o[i].0
        }),
{
    json::lemma_field_with(JsonView::Obj(o), k, x, k);
    json::lemma_field_with(JsonView::Obj(o), k, x, q);
    json::lemma_index_of(o, k, 0);
}

/// Words and numbers are written as they are, and a text in quotes, as it is where no character of it
/// has to be escaped.
pub proof fn law_plain_values_are_written_plainly(s: Seq<char>, n: u64, i: i64)
    ensures
        json::text_form(JsonView::Null) == "null"@,
        json::text_form(JsonView::Bool(true)) == "true"@,
        json::text_form(JsonView::Bool(false)) == "false"@,
        json::text_form(JsonView::Num(NumberView::Unsigned(n))) == text::decimal_of(n as nat),
        i < 0 ==> json::text_form(JsonView::Num(NumberView::Signed(i))) == "-"@ + text::decimal_of(
            (-(i as int)) as nat,
        ),
        json::text_form(JsonView::Num(NumberView::Float(s))) == s,
        (forall|k: int|
            0 <= k < s.len() ==> #[trigger] s[k] >= ' ' && s[k] != '"' && s[k] != '\\')
            ==> json::text_form(JsonView::Str(s)) == "\""@ + s + "\""@,
{
    json::lemma_text_form(JsonView::Null);
    json::lemma_text_form(JsonView::Bool(true));
    json::lemma_text_form(JsonView::Bool(false));
    json::lemma_text_form(JsonView::Num(NumberView::Unsigned(n)));
    json::lemma_text_form(JsonView::Num(NumberView::Signed(i)));
    json::lemma_text_form(JsonView::Num(NumberView::Float(s)));
    json::lemma_text_form(JsonView::Str(s));
    reveal_strlit("-");
    assert("-"@ =~= seq!['-']);
}

/// Items are written in brackets with commas between them, and entries in braces, each key in quotes
/// with a colon behind it.
pub proof fn law_items_and_entries_are_written_in_order(
    a: Seq<JsonView>,
    o: Seq<(Seq<char>, JsonView)>,
    k: Seq<char>,
    x: JsonView,
)
    ensures
        json::text_form(JsonView::Arr(Seq::empty())) == "[]"@,
        json::text_form(JsonView::Obj(Seq::empty())) == "{}"@,
        json::text_form(JsonView::Arr(seq![x])) == "["@ + json::text_form(x) + "]"@,
        a.len() > 0 ==> json::text_form(JsonView::Arr(a.push(x))) == json::text_form(
            JsonView::Arr(a),
        ).drop_last() + ","@ + json::text_form(x) + "]"@,
        json::text_form(JsonView::Obj(seq![(k, x)])) == "{"@ + json::text_form(JsonView::Str(k))
            + ":"@ + json::text_form(x) + "}"@,
        o.len() > 0 ==> json::text_form(JsonView::Obj(o.push((k, x)))) == json::text_form(
            JsonView::Obj(o),
        ).drop_last() + ","@ + json::text_form(JsonView::Str(k)) + ":"@ + json::text_form(x) + "}"@,
{
    let comma = ","@;
    reveal_strlit("[");
    reveal_strlit("]");
    reveal_strlit("{");
    reveal_strlit("}");
    reveal_strlit("[]");
    reveal_strlit("{}");
    let (none, no) = (JsonView::Arr(Seq::empty()), JsonView::Obj(Seq::empty()));
    json::lemma_text_form(none);
    json::lemma_text_form(no);
    json::lemma_text_form(JsonView::Str(k));
    assert(json::item_forms(Seq::empty()) =~= Seq::empty());
    assert(json::entry_forms(Seq::empty()) =~= Seq::empty());
    assert(json::text_form(none) =~= "[]"@);
    assert(json::text_form(no) =~= "{}"@);
    let one = JsonView::Arr(seq![x]);
    json::lemma_text_form(one);
    assert(json::item_forms(seq![x]) =~= seq![json::text_form(x)]);
    let entry = JsonView::Obj(seq![(k, x)]);
    json::lemma_text_form(entry);
    let e = json::quoted(k) + ":"@ + json::text_form(x);
    assert(json::entry_forms(seq![(k, x)]) =~= seq![e]);
    assert("{"@ + e + "}"@ =~= "{"@ + json::quoted(k) + ":"@ + json::text_form(x) + "}"@);
    if a.len() > 0 {
        json::lemma_text_form(JsonView::Arr(a));
        json::lemma_text_form(JsonView::Arr(a.push(x)));
        let fs = json::item_forms(a);
        assert(json::item_forms(a.push(x)) =~= fs.push(json::text_form(x)));
        assert(fs.push(json::text_form(x)).drop_last() =~= fs);
        let j = text::join_of(fs, comma);
        assert(("["@ + j + "]"@).drop_last() =~= "["@ + j);
        assert("["@ + (j + comma + json::text_form(x)) + "]"@ =~= "["@ + j + comma
            + json::text_form(x) + "]"@);
    }
    if o.len() > 0 {
        json::lemma_text_form(JsonView::Obj(o));
        json::lemma_text_form(JsonView::Obj(o.push((k, x))));
        let fs = json::entry_forms(o);
        assert(json::entry_forms(o.push((k, x))) =~= fs.push(e));
        assert(fs.push(e).drop_last() =~= fs);
        let j = text::join_of(fs, comma);
        assert(("{"@ + j + "}"@).drop_last() =~= "{"@ + j);
        assert("{"@ + (j + comma + e) + "}"@ =~= "{"@ + j + comma + json::quoted(k) + ":"@
            + json::text_form(x) + "}"@);
    }
}

/// A text or an array stands under a key where the value under it is one.
pub proof fn law_texts_and_arrays_are_told_apart(v: JsonView, k: Seq<char>)
    ensures
        json::field(v, k) matches Some(JsonView::Str(s)) ==> json::text_field(v, k) == Some(s),
        json::text_field(v, k) matches Some(s) ==> json::field(v, k) == Some(JsonView::Str(s)),
        json::field(v, k) matches Some(JsonView::Arr(a)) ==> json::arr_field(v, k) == Some(a),
        json::arr_field(v, k) matches Some(a) ==> json::field(v, k) == Some(JsonView::Arr(a)),
{
}

/// A value is well formed where no object in it has two entries with the same key.
pub proof fn law_keys_are_distinct(a: Seq<JsonView>, o: Seq<(Seq<char>, JsonView)>, v: JsonView)
    ensures
        !(v is Arr) && !(v is Obj) ==> json::well_formed(v),
        json::well_formed(JsonView::Arr(a)) <==> forall|i: int|
            0 <= i < a.len() ==> json::well_formed(#[trigger] a[i]),
        json::well_formed(JsonView::Obj(o)) <==> (forall|i: int|
            0 <= i < o.len() ==> json::well_formed((#[trigger] o[i]).1)) && (forall|i: int, j: int|
            0 <= i < j < o.len() ==> (#[trigger] o[i]).0 != (#[trigger] o[j]).0),
{
    json::lemma_well_formed(v);
    json::lemma_well_formed(JsonView::Arr(a));
    json::lemma_well_formed(JsonView::Obj(o));
}

/// Taking an entry out takes the first with its key and leaves the others in their order.
pub proof fn law_an_entry_is_taken_out(
    a: Seq<(Seq<char>, JsonView)>,
    b: Seq<(Seq<char>, JsonView)>,
    k: Seq<char>,
    x: JsonView,
)
    requires
        forall|i: int| 0 <= i < a.len() ==> (#[trigger] a[i]).0 != k,
    ensures
        json::without_field(JsonView::Obj(a.push((k, x)) + b), k) == JsonView::Obj(a + b),
        json::without_field(JsonView::Obj(a), k) == JsonView::Obj(a),
{
    let o = a.push((k, x)) + b;
    let n = a.len() as int;
    assert forall|m: int| 0 <= m < n implies (#[trigger] o[m]).0 != k by {
        assert(o[m] == a[m]);
    }
    assert(o[n].0 == k);
    json::lemma_index_is(o, k, 0, n);
    assert(o.remove(n) =~= a + b);
    json::lemma_index_none(a, k, 0);
}

} // verus!
