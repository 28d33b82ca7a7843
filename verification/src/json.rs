//! The JSON values that request bodies are made of, and the reads and edits made on them.

use vstd::prelude::*;
use vstd::string::*;

use crate::text;
use crate::text::same;

verus! {

/// A JSON number. One that is no integer of 64 bits stands as its text.
#[derive(Clone, Debug, PartialEq, Eq)]
pub enum Number {
    Unsigned(u64),
    Signed(i64),
    Float(String),
}

/// What a JSON number holds.
#[verifier::ext_equal]
pub enum NumberView {
    Unsigned(u64),
    Signed(i64),
    Float(Seq<char>),
}

impl View for Number {
    type V = NumberView;

    open spec fn view(&self) -> NumberView {
        match *self {
            Number::Unsigned(u) => NumberView::Unsigned(u),
            Number::Signed(i) => NumberView::Signed(i),
            Number::Float(t) => NumberView::Float(t@),
        }
    }
}

impl Number {
    /// A number that holds the same.
    pub fn copy(&self) -> (r: Number)
        ensures
            r@ == self@,
    {
        match self {
            Number::Unsigned(u) => Number::Unsigned(*u),
            Number::Signed(i) => Number::Signed(*i),
            Number::Float(t) => Number::Float(t.clone()),
        }
    }
}

/// A JSON value. An object keeps its entries in order.
#[derive(Debug)]
pub enum Json {
    Null,
    Bool(bool),
    Num(Number),
    Str(String),
    Arr(Vec<Json>),
    Obj(Vec<(String, Json)>),
}

/// What a JSON value holds.
#[verifier::ext_equal]
pub enum JsonView {
    Null,
    Bool(bool),
    Num(NumberView),
    Str(Seq<char>),
    Arr(Seq<JsonView>),
    Obj(Seq<(Seq<char>, JsonView)>),
}

pub open spec fn value_of(v: Json) -> JsonView
    decreases v,
{
    match v {
        Json::Null => JsonView::Null,
        Json::Bool(b) => JsonView::Bool(b),
        Json::Num(n) => JsonView::Num(n@),
        Json::Str(s) => JsonView::Str(s@),
        Json::Arr(a) => JsonView::Arr(
            Seq::new(
                a@.len(),
                |i: int|
                    if 0 <= i < a@.len() {
                        value_of(a@[i])
                    } else {
                        JsonView::Null
                    },
            ),
        ),
        Json::Obj(o) => JsonView::Obj(
            Seq::new(
                o@.len(),
                |i: int|
                    if 0 <= i < o@.len() {
                        (o@[i].0@, value_of(o@[i].1))
                    } else {
                        (Seq::empty(), JsonView::Null)
                    },
            ),
        ),
    }
}

impl View for Json {
    type V = JsonView;

    open spec fn view(&self) -> JsonView {
        value_of(*self)
    }
}

/// What an optional value holds.
pub open spec fn opt_view(v: Option<Json>) -> Option<JsonView> {
    match v {
        Some(v) => Some(v@),
        None => None,
    }
}

/// What the items of an array hold.
pub open spec fn arr_view(a: Seq<Json>) -> Seq<JsonView> {
    Seq::new(a.len(), |i: int| a[i]@)
}

/// What the entries of an object hold.
pub open spec fn obj_view(o: Seq<(String, Json)>) -> Seq<(Seq<char>, JsonView)> {
    Seq::new(o.len(), |i: int| (o[i].0@, o[i].1@))
}

/// An array holds what its items hold, an object what its entries hold.
pub broadcast proof fn lemma_json_view(v: Json)
    ensures
        #[trigger] v@ == (match v {
            Json::Arr(a) => JsonView::Arr(arr_view(a@)),
            Json::Obj(o) => JsonView::Obj(obj_view(o@)),
            Json::Null => JsonView::Null,
            Json::Bool(b) => JsonView::Bool(b),
            Json::Num(n) => JsonView::Num(n@),
            Json::Str(s) => JsonView::Str(s@),
        }),
{
    reveal_with_fuel(value_of, 2);
    match v {
        Json::Arr(a) => {
            assert(v@->Arr_0 =~= arr_view(a@));
        },
        Json::Obj(o) => {
            assert(v@->Obj_0 =~= obj_view(o@));
        },
        _ => {},
    }
}

/// The position of the first entry of `o` under the key `k`, counted from `i`.
pub open spec fn index_of(o: Seq<(Seq<char>, JsonView)>, k: Seq<char>, i: int) -> Option<int>
    decreases o.len() - i,
{
    if i < 0 || i >= o.len() {
        None
    } else if o[i].0 == k {
        Some(i)
    } else {
        index_of(o, k, i + 1)
    }
}

/// The value under the key `k`, where `v` is an object that has one.
pub open spec fn field(v: JsonView, k: Seq<char>) -> Option<JsonView> {
    match v {
        JsonView::Obj(o) => match index_of(o, k, 0) {
            Some(i) => Some(o[i].1),
            None => None,
        },
        _ => None,
    }
}

/// `v` with `x` under the key `k`, where `v` is an object; any other value as it is.
pub open spec fn with_field(v: JsonView, k: Seq<char>, x: JsonView) -> JsonView {
    match v {
        JsonView::Obj(o) => JsonView::Obj(
            match index_of(o, k, 0) {
                Some(i) => o.update(i, (o[i].0, x)),
                None => o.push((k, x)),
            },
        ),
        _ => v,
    }
}

/// `v` without its entry under the key `k`, where `v` is an object; any other value as it is.
pub open spec fn without_field(v: JsonView, k: Seq<char>) -> JsonView {
    match v {
        JsonView::Obj(o) => match index_of(o, k, 0) {
            Some(i) => JsonView::Obj(o.remove(i)),
            None => v,
        },
        _ => v,
    }
}

/// The text under the key `k`, where there is one.
pub open spec fn text_field(v: JsonView, k: Seq<char>) -> Option<Seq<char>> {
    match field(v, k) {
        Some(JsonView::Str(s)) => Some(s),
        _ => None,
    }
}

/// The array under the key `k`, where there is one.
pub open spec fn arr_field(v: JsonView, k: Seq<char>) -> Option<Seq<JsonView>> {
    match field(v, k) {
        Some(JsonView::Arr(a)) => Some(a),
        _ => None,
    }
}

pub proof fn lemma_index_of(o: Seq<(Seq<char>, JsonView)>, k: Seq<char>, i: int)
    requires
        0 <= i,
    ensures
        match index_of(o, k, i) {
            Some(j) => i <= j < o.len() && o[j].0 == k && forall|m: int|
                i <= m < j ==> (#[trigger] o[m]).0 != k,
            None => forall|m: int| i <= m < o.len() ==> (#[trigger] o[m]).0 != k,
        },
    decreases o.len() - i,
{
    if i < o.len() && o[i].0 != k {
        lemma_index_of(o, k, i + 1);
    }
}

/// The first position under a key is the one with no such key before it.
pub proof fn lemma_index_is(o: Seq<(Seq<char>, JsonView)>, k: Seq<char>, i: int, j: int)
    requires
        0 <= i <= j < o.len(),
        o[j].0 == k,
        forall|m: int| i <= m < j ==> (#[trigger] o[m]).0 != k,
    ensures
        index_of(o, k, i) == Some(j),
    decreases j - i,
{
    if i < j {
        lemma_index_is(o, k, i + 1, j);
    }
}

pub proof fn lemma_index_none(o: Seq<(Seq<char>, JsonView)>, k: Seq<char>, i: int)
    requires
        0 <= i,
        forall|m: int| i <= m < o.len() ==> (#[trigger] o[m]).0 != k,
    ensures
        index_of(o, k, i) is None,
    decreases o.len() - i,
{
    if i < o.len() {
        lemma_index_none(o, k, i + 1);
    }
}

/// A block of text, as message contents hold them.
pub open spec fn text_block_of(t: Seq<char>) -> JsonView {
    JsonView::Obj(seq![("type"@, JsonView::Str("text"@)), ("text"@, JsonView::Str(t))])
}

/// A block of text, as message contents hold them.
pub fn text_block(t: String) -> (r: Json)
    ensures
        r@ == text_block_of(t@),
{
    broadcast use group_json_view;

    let mut o: Vec<(String, Json)> = Vec::new();
    o.push(("type".to_owned(), Json::Str("text".to_owned())));
    o.push(("text".to_owned(), Json::Str(t)));
    assert(obj_view(o@) =~= text_block_of(t@)->Obj_0);
    Json::Obj(o)
}

pub proof fn lemma_text_block(t: Seq<char>)
    ensures
        text_field(text_block_of(t), "type"@) == Some("text"@),
        text_field(text_block_of(t), "text"@) == Some(t),
        field(text_block_of(t), "cache_control"@) is None,
{
    reveal_strlit("type");
    reveal_strlit("text");
    reveal_strlit("cache_control");
    let o = text_block_of(t)->Obj_0;
    assert("type"@[1] == 'y');
    assert("text"@[1] == 'e');
    assert("cache_control"@.len() == 13);
    lemma_index_is(o, "type"@, 0, 0);
    lemma_index_is(o, "text"@, 0, 1);
    lemma_index_none(o, "cache_control"@, 0);
}

/// Putting back what stands under a key changes nothing.
pub broadcast proof fn lemma_with_same(v: JsonView, k: Seq<char>, x: JsonView)
    requires
        field(v, k) == Some(x),
    ensures
        #[trigger] with_field(v, k, x) == v,
{
    if let JsonView::Obj(o) = v {
        lemma_index_of(o, k, 0);
        assert(with_field(v, k, x)->Obj_0 =~= o);
    }
}

/// Putting a value under one key of an object leaves the others as they are.
pub broadcast proof fn lemma_field_with(v: JsonView, k: Seq<char>, x: JsonView, q: Seq<char>)
    ensures
        #[trigger] field(with_field(v, k, x), q) == (if q == k && v is Obj {
            Some(x)
        } else {
            field(v, q)
        }),
{
    if let JsonView::Obj(o) = v {
        lemma_index_of(o, k, 0);
        lemma_index_of(o, q, 0);
        let w = with_field(v, k, x)->Obj_0;
        match index_of(o, k, 0) {
            Some(i) => {
                match index_of(o, q, 0) {
                    Some(j) => {
                        assert forall|m: int| 0 <= m < j implies (#[trigger] w[m]).0 != q by {
                            assert(w[m].0 == o[m].0);
                        }
                        lemma_index_is(w, q, 0, j);
                    },
                    None => {
                        assert forall|m: int| 0 <= m < w.len() implies (#[trigger] w[m]).0
                            != q by {
                            assert(w[m].0 == o[m].0);
                        }
                        lemma_index_none(w, q, 0);
                    },
                }
            },
            None => {
                match index_of(o, q, 0) {
                    Some(j) => {
                        assert forall|m: int| 0 <= m < j implies (#[trigger] w[m]).0 != q by {
                            assert(w[m].0 == o[m].0);
                        }
                        lemma_index_is(w, q, 0, j);
                    },
                    None => {
                        if q == k {
                            assert forall|m: int| 0 <= m < o.len() implies (#[trigger] w[m]).0
                                != q by {
                                assert(w[m].0 == o[m].0);
                            }
                            lemma_index_is(w, q, 0, o.len() as int);
                        } else {
                            assert forall|m: int| 0 <= m < w.len() implies (#[trigger] w[m]).0
                                != q by {
                                if m < o.len() {
                                    assert(w[m].0 == o[m].0);
                                }
                            }
                            lemma_index_none(w, q, 0);
                        }
                    },
                }
            },
        }
    }
}

/// Of two values put under one key the second stays.
pub proof fn lemma_with_twice(v: JsonView, k: Seq<char>, x: JsonView, y: JsonView)
    ensures
        with_field(with_field(v, k, x), k, y) == with_field(v, k, y),
{
    if let JsonView::Obj(o) = v {
        lemma_index_of(o, k, 0);
        let w = with_field(v, k, x)->Obj_0;
        match index_of(o, k, 0) {
            Some(i) => {
                assert forall|m: int| 0 <= m < i implies (#[trigger] w[m]).0 != k by {
                    assert(w[m].0 == o[m].0);
                }
                lemma_index_is(w, k, 0, i);
            },
            None => {
                assert forall|m: int| 0 <= m < o.len() implies (#[trigger] w[m]).0 != k by {
                    assert(w[m].0 == o[m].0);
                }
                lemma_index_is(w, k, 0, o.len() as int);
            },
        }
        assert(with_field(JsonView::Obj(w), k, y)->Obj_0 =~= with_field(
            v,
            k,
            y,
        )->Obj_0);
    }
}

/// Changing one entry of an object changes that entry of what it holds.
pub broadcast proof fn lemma_obj_update(o: Seq<(String, Json)>, i: int, e: (String, Json))
    requires
        0 <= i < o.len(),
    ensures
        #[trigger] obj_view(o.update(i, e)) == obj_view(o).update(i, (e.0@, e.1@)),
{
    assert(obj_view(o.update(i, e)) =~= obj_view(o).update(i, (e.0@, e.1@)));
}

pub broadcast proof fn lemma_obj_push(o: Seq<(String, Json)>, e: (String, Json))
    ensures
        #[trigger] obj_view(o.push(e)) == obj_view(o).push((e.0@, e.1@)),
{
    assert(obj_view(o.push(e)) =~= obj_view(o).push((e.0@, e.1@)));
}

pub broadcast proof fn lemma_obj_remove(o: Seq<(String, Json)>, i: int)
    requires
        0 <= i < o.len(),
    ensures
        #[trigger] obj_view(o.remove(i)) == obj_view(o).remove(i),
{
    assert(obj_view(o.remove(i)) =~= obj_view(o).remove(i));
}

pub broadcast proof fn lemma_arr_update(a: Seq<Json>, i: int, x: Json)
    requires
        0 <= i < a.len(),
    ensures
        #[trigger] arr_view(a.update(i, x)) == arr_view(a).update(i, x@),
{
    assert(arr_view(a.update(i, x)) =~= arr_view(a).update(i, x@));
}

pub broadcast proof fn lemma_arr_push(a: Seq<Json>, x: Json)
    ensures
        #[trigger] arr_view(a.push(x)) == arr_view(a).push(x@),
{
    assert(arr_view(a.push(x)) =~= arr_view(a).push(x@));
}

pub broadcast group group_json_fields {
    lemma_field_with,
    lemma_with_same,
}

pub broadcast group group_json_view {
    lemma_json_view,
    lemma_obj_update,
    lemma_obj_push,
    lemma_obj_remove,
    lemma_arr_update,
    lemma_arr_push,
}

/// The position of the first entry under `k`.
fn position(o: &Vec<(String, Json)>, k: &str) -> (r: Option<usize>)
    ensures
        match r {
            Some(i) => index_of(obj_view(o@), k@, 0) == Some(i as int) && i < o@.len(),
            None => index_of(obj_view(o@), k@, 0) is None,
        },
{
    let n: usize = o.len();
    let mut i: usize = 0;
    while i < n
        invariant
            n == o@.len(),
            i <= n,
            forall|m: int| 0 <= m < i ==> (#[trigger] obj_view(o@)[m]).0 != k@,
        decreases n - i,
    {
        if same(o[i].0.as_str(), k) {
            proof {
                lemma_index_is(obj_view(o@), k@, 0, i as int);
            }
            return Some(i);
        }
        i += 1;
    }
    proof {
        lemma_index_none(obj_view(o@), k@, 0);
    }
    None
}

impl Json {
    /// The value under the key `k`.
    pub fn get(&self, k: &str) -> (r: Option<&Json>)
        ensures
            match r {
                Some(x) => field(self@, k@) == Some(x@),
                None => field(self@, k@) is None,
            },
    {
        broadcast use group_json_view;

        match self {
            Json::Obj(o) => match position(o, k) {
                Some(i) => Some(&o[i].1),
                None => None,
            },
            _ => None,
        }
    }

    /// The value under the key `k`, to be changed in place.
    pub fn get_mut(&mut self, k: &str) -> (r: Option<&mut Json>)
        ensures
            match r {
                Some(x) => field(old(self)@, k@) == Some((*x)@) && final(self)@ == with_field(
                    old(self)@,
                    k@,
                    (*final(x))@,
                ),
                None => field(old(self)@, k@) is None && final(self)@ == old(self)@,
            },
    {
        broadcast use group_json_view;

        match self {
            Json::Obj(o) => {
                match position(o, k) {
                    Some(i) => Some(&mut o[i].1),
                    None => None,
                }
            },
            _ => None,
        }
    }

    /// Puts `x` under the key `k` of an object; any other value stays as it is.
    pub fn set(&mut self, k: &str, x: Json)
        ensures
            final(self)@ == with_field(old(self)@, k@, x@),
    {
        broadcast use group_json_view;

        match self {
            Json::Obj(o) => {
                match position(o, k) {
                    Some(i) => {
                        o[i].1 = x;
                    },
                    None => {
                        o.push((k.to_owned(), x));
                    },
                }
            },
            _ => {},
        }
    }

    /// Takes the entry under the key `k` out of an object. Says whether there was one.
    pub fn remove(&mut self, k: &str) -> (r: bool)
        ensures
            final(self)@ == without_field(old(self)@, k@),
            r == (field(old(self)@, k@) is Some),
    {
        broadcast use group_json_view;

        match self {
            Json::Obj(o) => {
                match position(o, k) {
                    Some(i) => {
                        o.remove(i);
                        true
                    },
                    None => false,
                }
            },
            _ => false,
        }
    }

    /// A value that holds the same.
    pub fn copy(&self) -> (r: Json)
        ensures
            r@ == self@,
        decreases self,
    {
        broadcast use group_json_view;

        match self {
            Json::Null => Json::Null,
            Json::Bool(b) => Json::Bool(*b),
            Json::Num(n) => Json::Num(n.copy()),
            Json::Str(s) => Json::Str(s.clone()),
            Json::Arr(a) => {
                let n: usize = a.len();
                let mut out: Vec<Json> = Vec::new();
                let mut i: usize = 0;
                while i < n
                    invariant
                        n == a@.len(),
                        i <= n,
                        *self matches Json::Arr(w) && w@ == a@,
                        arr_view(out@) == arr_view(a@).take(i as int),
                    decreases n - i,
                {
                    broadcast use group_json_view;

                    assert(decreases_to!(*self => a@[i as int]));
                    let x: Json = a[i].copy();
                    out.push(x);
                    assert(arr_view(out@) =~= arr_view(a@).take(i + 1));
                    i += 1;
                }
                assert(arr_view(out@) =~= arr_view(a@));
                Json::Arr(out)
            },
            Json::Obj(o) => {
                let n: usize = o.len();
                let mut out: Vec<(String, Json)> = Vec::new();
                let mut i: usize = 0;
                while i < n
                    invariant
                        n == o@.len(),
                        i <= n,
                        *self matches Json::Obj(w) && w@ == o@,
                        obj_view(out@) == obj_view(o@).take(i as int),
                    decreases n - i,
                {
                    broadcast use group_json_view;

                    assert(decreases_to!(*self => o@[i as int].1));
                    let x: Json = o[i].1.copy();
                    let k: String = o[i].0.clone();
                    out.push((k, x));
                    assert(obj_view(out@) =~= obj_view(o@).take(i + 1));
                    i += 1;
                }
                assert(obj_view(out@) =~= obj_view(o@));
                Json::Obj(out)
            },
        }
    }

    /// The text that the value is, where it is one.
    pub fn as_text(&self) -> (r: Option<&str>)
        ensures
            match r {
                Some(s) => self@ == JsonView::Str(s@),
                None => !(self@ is Str),
            },
    {
        broadcast use group_json_view;

        match self {
            Json::Str(s) => Some(s.as_str()),
            _ => None,
        }
    }

    /// The text under the key `k`.
    pub fn get_text(&self, k: &str) -> (r: Option<&str>)
        ensures
            match r {
                Some(s) => text_field(self@, k@) == Some(s@),
                None => text_field(self@, k@) is None,
            },
    {
        match self.get(k) {
            Some(x) => x.as_text(),
            None => None,
        }
    }

    /// Whether the text under the key `k` is `t`.
    pub fn has_text(&self, k: &str, t: &str) -> (r: bool)
        ensures
            r == (text_field(self@, k@) == Some(t@)),
    {
        match self.get_text(k) {
            Some(s) => same(s, t),
            None => false,
        }
    }

    /// The array under the key `k`.
    pub fn get_items(&self, k: &str) -> (r: Option<&Vec<Json>>)
        ensures
            match r {
                Some(a) => arr_field(self@, k@) == Some(arr_view(a@)),
                None => arr_field(self@, k@) is None,
            },
    {
        broadcast use group_json_view;

        match self.get(k) {
            Some(Json::Arr(a)) => Some(a),
            _ => None,
        }
    }
}

/// No two of the entries have the same key.
pub open spec fn distinct(o: Seq<(Seq<char>, JsonView)>) -> bool {
    forall|i: int, j: int| 0 <= i < j < o.len() ==> #[trigger] o[i].0 != #[trigger] o[j].0
}

/// No object in the value has two entries with the same key.
pub open spec fn well_formed(v: JsonView) -> bool
    decreases v,
{
    match v {
        JsonView::Arr(a) => forall|i: int| 0 <= i < a.len() ==> well_formed(#[trigger] a[i]),
        JsonView::Obj(o) => distinct(o) && forall|i: int|
            0 <= i < o.len() ==> well_formed((#[trigger] o[i]).1),
        _ => true,
    }
}

/// The items are well formed.
pub open spec fn well_formed_items(a: Seq<JsonView>) -> bool {
    forall|i: int| 0 <= i < a.len() ==> well_formed(#[trigger] a[i])
}

/// The entries are well formed and have distinct keys.
pub open spec fn well_formed_entries(o: Seq<(Seq<char>, JsonView)>) -> bool {
    &&& distinct(o)
    &&& forall|i: int| 0 <= i < o.len() ==> well_formed((#[trigger] o[i]).1)
}

pub proof fn lemma_well_formed(v: JsonView)
    ensures
        well_formed(v) == (match v {
            JsonView::Arr(a) => well_formed_items(a),
            JsonView::Obj(o) => well_formed_entries(o),
            _ => true,
        }),
{
    reveal_with_fuel(well_formed, 2);
}

/// What stands under a key of a well-formed value is well formed.
pub proof fn law_field_is_well_formed(v: JsonView, k: Seq<char>)
    requires
        well_formed(v),
    ensures
        field(v, k) matches Some(x) ==> well_formed(x),
{
    lemma_well_formed(v);
    if let JsonView::Obj(o) = v {
        lemma_index_of(o, k, 0);
    }
}

/// Putting a well-formed value under a key keeps the keys distinct.
pub proof fn law_with_field_is_well_formed(v: JsonView, k: Seq<char>, x: JsonView)
    requires
        well_formed(v),
        well_formed(x),
    ensures
        well_formed(with_field(v, k, x)),
{
    lemma_well_formed(v);
    lemma_well_formed(with_field(v, k, x));
    if let JsonView::Obj(o) = v {
        lemma_index_of(o, k, 0);
        let w = with_field(v, k, x)->Obj_0;
        assert forall|i: int| 0 <= i < w.len() implies well_formed((#[trigger] w[i]).1) by {
            if i < o.len() {
                assert(well_formed(o[i].1));
            }
        }
        assert forall|i: int, j: int| 0 <= i < j < w.len() implies #[trigger] w[i].0
            != #[trigger] w[j].0 by {
            assert(i < o.len() ==> w[i].0 == o[i].0);
            assert(j < o.len() ==> w[j].0 == o[j].0);
        }
    }
}

/// Taking an entry out keeps the keys distinct.
pub proof fn law_without_field_is_well_formed(v: JsonView, k: Seq<char>)
    requires
        well_formed(v),
    ensures
        well_formed(without_field(v, k)),
        field(without_field(v, k), k) is None,
{
    lemma_well_formed(v);
    lemma_well_formed(without_field(v, k));
    if let JsonView::Obj(o) = v {
        lemma_index_of(o, k, 0);
        if let Some(n) = index_of(o, k, 0) {
            let w = o.remove(n);
            assert forall|i: int| 0 <= i < w.len() implies (#[trigger] w[i]).0 != k && well_formed(
                w[i].1,
            ) by {
                if i < n {
                    assert(w[i] == o[i]);
                } else {
                    assert(w[i] == o[i + 1]);
                    assert(o[n].0 != o[i + 1].0);
                }
            }
            assert forall|i: int, j: int| 0 <= i < j < w.len() implies #[trigger] w[i].0
                != #[trigger] w[j].0 by {
                let a = if i < n {
                    i
                } else {
                    i + 1
                };
                let b = if j < n {
                    j
                } else {
                    j + 1
                };
                assert(o[a].0 != o[b].0);
            }
            lemma_index_none(w, k, 0);
        }
    }
}

/// The values hold the same, whatever the order of the entries of their objects.
pub open spec fn alike(a: JsonView, b: JsonView) -> bool
    decreases a,
{
    match (a, b) {
        (JsonView::Arr(x), JsonView::Arr(y)) => x.len() == y.len() && forall|i: int|
            0 <= i < x.len() ==> alike(#[trigger] x[i], y[i]),
        (JsonView::Obj(x), JsonView::Obj(y)) => x.len() == y.len() && forall|i: int|
            0 <= i < x.len() ==> match field(b, (#[trigger] x[i]).0) {
                Some(v) => alike(x[i].1, v),
                None => false,
            },
        _ => a == b,
    }
}

/// The entry `e` stands in the object `b`, up to the order of entries inside.
pub open spec fn entry_in(e: (Seq<char>, JsonView), b: JsonView) -> bool {
    match field(b, e.0) {
        Some(v) => alike(e.1, v),
        None => false,
    }
}

pub proof fn lemma_alike(a: JsonView, b: JsonView)
    ensures
        alike(a, b) == (match (a, b) {
            (JsonView::Arr(x), JsonView::Arr(y)) => x.len() == y.len() && forall|i: int|
                0 <= i < x.len() ==> alike(#[trigger] x[i], y[i]),
            (JsonView::Obj(x), JsonView::Obj(y)) => x.len() == y.len() && forall|i: int|
                0 <= i < x.len() ==> entry_in(#[trigger] x[i], b),
            _ => a == b,
        }),
{
    reveal_with_fuel(alike, 2);
}

/// A well-formed value holds the same as itself.
pub proof fn lemma_alike_self(v: JsonView)
    requires
        well_formed(v),
    ensures
        alike(v, v),
    decreases v,
{
    lemma_alike(v, v);
    lemma_well_formed(v);
    match v {
        JsonView::Arr(a) => {
            assert forall|i: int| 0 <= i < a.len() implies alike(#[trigger] a[i], a[i]) by {
                lemma_alike_self(a[i]);
            }
        },
        JsonView::Obj(o) => {
            assert forall|i: int| 0 <= i < o.len() implies entry_in(#[trigger] o[i], v) by {
                lemma_alike_self(o[i].1);
                assert forall|m: int| 0 <= m < i implies (#[trigger] o[m]).0 != o[i].0 by {}
                lemma_index_is(o, o[i].0, 0, i);
            }
        },
        _ => {},
    }
}

/// A well-formed object with a like value under one of its keys holds the same.
pub proof fn lemma_alike_with(v: JsonView, k: Seq<char>, x: JsonView)
    requires
        well_formed(v),
        field(v, k) matches Some(y) && alike(x, y),
    ensures
        alike(with_field(v, k, x), v),
{
    let w = with_field(v, k, x);
    let o = v->Obj_0;
    lemma_well_formed(v);
    lemma_alike(w, v);
    lemma_index_of(o, k, 0);
    let n = index_of(o, k, 0)->0;
    let p = w->Obj_0;
    assert forall|i: int| 0 <= i < p.len() implies entry_in(#[trigger] p[i], v) by {
        assert forall|m: int| 0 <= m < i implies (#[trigger] o[m]).0 != o[i].0 by {}
        lemma_index_is(o, o[i].0, 0, i);
        if i != n {
            lemma_alike_self(o[i].1);
        }
    }
}

/// An object without entries.
pub open spec fn empty_object() -> JsonView {
    JsonView::Obj(Seq::empty())
}

/// An object without entries.
pub fn empty() -> (r: Json)
    ensures
        r@ == empty_object(),
{
    broadcast use group_json_view;

    let o: Vec<(String, Json)> = Vec::new();
    assert(obj_view(o@) =~= Seq::empty());
    Json::Obj(o)
}

/// The JSON form of an integer.
pub open spec fn int_of(n: i64) -> JsonView {
    if n >= 0 {
        JsonView::Num(NumberView::Unsigned(n as u64))
    } else {
        JsonView::Num(NumberView::Signed(n))
    }
}

/// The JSON form of an integer.
pub fn integer(n: i64) -> (r: Json)
    ensures
        r@ == int_of(n),
{
    broadcast use group_json_view;

    if n >= 0 {
        Json::Num(Number::Unsigned(n as u64))
    } else {
        Json::Num(Number::Signed(n))
    }
}

/// The JSON form of a text.
pub fn string(t: &str) -> (r: Json)
    ensures
        r@ == JsonView::Str(t@),
{
    broadcast use group_json_view;

    Json::Str(t.to_owned())
}

/// What `serde_json::Value::to_string` makes of the text `s`: a JSON string.
pub uninterp spec fn quoted_of(s: Seq<char>) -> Seq<char>;

/// The character stands for itself in a JSON string.
pub open spec fn unescaped(c: char) -> bool {
    ' ' <= c && c != '"' && c != '\\'
}

/// The JSON string for the text `s`.
pub open spec fn quoted(s: Seq<char>) -> Seq<char> {
    if forall|i: int| 0 <= i < s.len() ==> unescaped(#[trigger] s[i]) {
        "\""@ + s + "\""@
    } else {
        quoted_of(s)
    }
}

/// `serde_json::Value::to_string` on a text: the JSON string for it. Characters that stand for
/// themselves are put between quotes as they are; line feeds are among those that are escaped.
#[verifier::external_body]
fn quote(s: &str) -> (r: String)
    ensures
        r@ == quoted_of(s@),
        !r@.contains('\n'),
        (forall|i: int| 0 <= i < s@.len() ==> unescaped(#[trigger] s@[i])) ==> r@ == "\""@ + s@
            + "\""@,
{
    serde_json::Value::from(s).to_string()
}

/// The text of a number.
pub open spec fn number_form(n: NumberView) -> Seq<char> {
    match n {
        NumberView::Unsigned(u) => text::decimal_of(u as nat),
        NumberView::Signed(i) => text::zero_padded_of(i as int, 0),
        NumberView::Float(t) => t,
    }
}

/// The compact JSON text of a value, the entries of objects in their order.
pub open spec fn text_form(v: JsonView) -> Seq<char>
    decreases v, 1int,
{
    match v {
        JsonView::Null => "null"@,
        JsonView::Bool(b) => if b {
            "true"@
        } else {
            "false"@
        },
        JsonView::Num(n) => number_form(n),
        JsonView::Str(s) => quoted(s),
        JsonView::Arr(_) => "["@ + text::join_of(part_forms(v), ","@) + "]"@,
        JsonView::Obj(_) => "{"@ + text::join_of(part_forms(v), ","@) + "}"@,
    }
}

/// The compact JSON texts of the parts that a value has.
pub open spec fn part_forms(v: JsonView) -> Seq<Seq<char>>
    decreases v, 0int,
{
    match v {
        JsonView::Arr(a) => Seq::new(
            a.len(),
            |i: int|
                if 0 <= i < a.len() {
                    text_form(a[i])
                } else {
                    Seq::empty()
                },
        ),
        JsonView::Obj(o) => Seq::new(
            o.len(),
            |i: int|
                if 0 <= i < o.len() {
                    quoted(o[i].0) + ":"@ + text_form(o[i].1)
                } else {
                    Seq::empty()
                },
        ),
        _ => Seq::empty(),
    }
}

/// The compact JSON texts of items.
pub open spec fn item_forms(a: Seq<JsonView>) -> Seq<Seq<char>> {
    Seq::new(a.len(), |i: int| text_form(a[i]))
}

/// The compact JSON texts of entries.
pub open spec fn entry_forms(o: Seq<(Seq<char>, JsonView)>) -> Seq<Seq<char>> {
    Seq::new(o.len(), |i: int| quoted(o[i].0) + ":"@ + text_form(o[i].1))
}

pub proof fn lemma_text_form(v: JsonView)
    ensures
        text_form(v) == (match v {
            JsonView::Null => "null"@,
            JsonView::Bool(b) => if b {
                "true"@
            } else {
                "false"@
            },
            JsonView::Num(n) => number_form(n),
            JsonView::Str(s) => quoted(s),
            JsonView::Arr(a) => "["@ + text::join_of(item_forms(a), ","@) + "]"@,
            JsonView::Obj(o) => "{"@ + text::join_of(entry_forms(o), ","@) + "}"@,
        }),
{
    reveal_with_fuel(text_form, 3);
    reveal_with_fuel(part_forms, 3);
    match v {
        JsonView::Arr(a) => {
            assert(part_forms(v) =~= item_forms(a));
        },
        JsonView::Obj(o) => {
            assert(part_forms(v) =~= entry_forms(o));
        },
        _ => {},
    }
}

/// No number in the value has a line feed in its text.
pub open spec fn one_line(v: JsonView) -> bool
    decreases v,
{
    match v {
        JsonView::Num(NumberView::Float(t)) => !t.contains('\n'),
        JsonView::Arr(a) => forall|i: int| 0 <= i < a.len() ==> one_line(#[trigger] a[i]),
        JsonView::Obj(o) => forall|i: int| 0 <= i < o.len() ==> one_line((#[trigger] o[i]).1),
        _ => true,
    }
}

pub proof fn lemma_one_line(v: JsonView)
    ensures
        one_line(v) == (match v {
            JsonView::Num(NumberView::Float(t)) => !t.contains('\n'),
            JsonView::Arr(a) => forall|i: int| 0 <= i < a.len() ==> one_line(#[trigger] a[i]),
            JsonView::Obj(o) => forall|i: int|
                0 <= i < o.len() ==> one_line((#[trigger] o[i]).1),
            _ => true,
        }),
{
    reveal_with_fuel(one_line, 2);
}

/// The compact JSON text of a value. It is one line, unless a number is not.
pub fn to_text(v: &Json) -> (r: String)
    ensures
        r@ == text_form(v@),
        one_line(v@) ==> !r@.contains('\n'),
    decreases v,
{
    broadcast use group_json_view;

    proof {
        lemma_text_form(v@);
        lemma_one_line(v@);
        text::lemma_literals_are_one_line();
    }
    match v {
        Json::Null => "null".to_owned(),
        Json::Bool(b) => if *b {
            "true".to_owned()
        } else {
            "false".to_owned()
        },
        Json::Num(Number::Unsigned(u)) => {
            proof {
                text::lemma_decimal_digits(*u as nat);
            }
            text::decimal(*u)
        },
        Json::Num(Number::Signed(i)) => {
            proof {
                text::lemma_padded_is_one_line(*i as int, 0);
            }
            text::zero_padded(*i, 0)
        },
        Json::Num(Number::Float(t)) => t.clone(),
        Json::Str(s) => quote(s.as_str()),
        Json::Arr(a) => {
            let ghost fs = item_forms(arr_view(a@));
            let n: usize = a.len();
            let mut parts: Vec<String> = Vec::new();
            let mut i: usize = 0;
            while i < n
                invariant
                    n == a@.len(),
                    i <= n,
                    *v matches Json::Arr(w) && w@ == a@,
                    fs == item_forms(arr_view(a@)),
                    text::texts(parts@) == fs.take(i as int),
                    one_line(v@) == (forall|j: int|
                        0 <= j < n ==> one_line(#[trigger] arr_view(a@)[j])),
                    one_line(v@) ==> forall|j: int|
                        0 <= j < i ==> !(#[trigger] fs[j]).contains('\n'),
                decreases n - i,
            {
                broadcast use group_json_view;

                assert(decreases_to!(*v => a@[i as int]));
                let ghost before = text::texts(parts@);
                assert(arr_view(a@)[i as int] == a@[i as int]@);
                parts.push(to_text(&a[i]));
                assert(text::texts(parts@) =~= before.push(fs[i as int]));
                assert(fs.take(i + 1) =~= fs.take(i as int).push(fs[i as int]));
                i += 1;
            }
            assert(fs.take(n as int) =~= fs);
            let mut out: String = text::glue("[", text::join(&parts, ",").as_str());
            out.append("]");
            proof {
                if one_line(v@) {
                    text::lemma_join_one_line(fs, ","@);
                    text::lemma_framed_one_line("["@, text::join_of(fs, ","@), "]"@);
                }
            }
            out
        },
        Json::Obj(o) => {
            let ghost fs = entry_forms(obj_view(o@));
            let n: usize = o.len();
            let mut parts: Vec<String> = Vec::new();
            let mut i: usize = 0;
            while i < n
                invariant
                    n == o@.len(),
                    i <= n,
                    *v matches Json::Obj(w) && w@ == o@,
                    fs == entry_forms(obj_view(o@)),
                    text::texts(parts@) == fs.take(i as int),
                    !":"@.contains('\n'),
                    one_line(v@) == (forall|j: int|
                        0 <= j < n ==> one_line((#[trigger] obj_view(o@)[j]).1)),
                    one_line(v@) ==> forall|j: int|
                        0 <= j < i ==> !(#[trigger] fs[j]).contains('\n'),
                decreases n - i,
            {
                broadcast use group_json_view;

                assert(decreases_to!(*v => o@[i as int].1));
                let ghost before = text::texts(parts@);
                assert(obj_view(o@)[i as int] == (o@[i as int].0@, o@[i as int].1@));
                let mut part: String = quote(o[i].0.as_str());
                let ghost key = part@;
                part.append(":");
                let value: String = to_text(&o[i].1);
                part.append(value.as_str());
                proof {
                    if one_line(v@) {
                        text::lemma_framed_one_line(key, ":"@, value@);
                    }
                }
                parts.push(part);
                assert(text::texts(parts@) =~= before.push(fs[i as int]));
                assert(fs.take(i + 1) =~= fs.take(i as int).push(fs[i as int]));
                i += 1;
            }
            assert(fs.take(n as int) =~= fs);
            let mut out: String = text::glue("{", text::join(&parts, ",").as_str());
            out.append("}");
            proof {
                if one_line(v@) {
                    text::lemma_join_one_line(fs, ","@);
                    text::lemma_framed_one_line("{"@, text::join_of(fs, ","@), "}"@);
                }
            }
            out
        },
    }
}

/// Puts an entry behind the others.
pub fn put(o: &mut Vec<(String, Json)>, k: &str, v: Json)
    ensures
        obj_view(final(o)@) == obj_view(old(o)@).push((k@, v@)),
{
    broadcast use group_json_view;

    o.push((k.to_owned(), v));
}

} // verus!
