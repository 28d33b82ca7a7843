//! What the transform does to tools and to the texts of messages.

use vstd::prelude::*;
use vstd::string::*;
use vstd::utf8::*;

use crate::json;
use crate::json::JsonView;
use crate::patterns;
use crate::text;
use crate::transform;
use crate::transform::{Pass, Transform};
use crate::transform_laws;

verus! {

/// The name of a tool; empty where it has none.
pub open spec fn named(t: JsonView) -> Seq<char> {
    match json::text_field(t, "name"@) {
        Some(n) => n,
        None => seq![],
    }
}

/// `w` is the tool `t` with the description cut where its section on git begins, if it is the Bash
/// tool.
pub open spec fn cut_at_git(t: JsonView, w: JsonView) -> bool {
    if json::text_field(t, "name"@) == Some("Bash"@) && (json::text_field(
        t,
        "description"@,
    ) matches Some(d) && text::holds(d, "# Committing changes with git"@)) {
        let d = json::text_field(t, "description"@)->0;
        &&& forall|q: Seq<char>|
            q != "description"@ ==> #[trigger] json::field(w, q) == json::field(t, q)
        &&& json::text_field(w, "description"@) == Some(
            text::trim_end_of(d.take(text::first_from(d, "# Committing changes with git"@, 0)->0)),
        )
    } else {
        w == t
    }
}

/// The tools that are named to be dropped are gone and the others stay in their order, as they are but
/// for what is cut from the Bash tool's description where that is asked for.
pub proof fn law_tools_go_by_their_names(t: Transform, body: JsonView)
    requires
        json::arr_field(body, "tools"@) is Some,
    ensures
        ({
            let kept = json::arr_field(body, "tools"@)->0.filter(
                |x: JsonView| !t.drops().contains(named(x)),
            );
            json::arr_field(t.applied(body), "tools"@) matches Some(rs) && rs.len() == kept.len()
                && forall|i: int|
                0 <= i < rs.len() ==> if t.trims() {
                    cut_at_git(kept[i], #[trigger] rs[i])
                } else {
                    rs[i] == kept[i]
                }
        }),
{
    broadcast use json::group_json_fields;

    transform_laws::lemma_names();
    transform_laws::lemma_only_tools(t, body, "tools"@);
    let a = json::arr_field(body, "tools"@)->0;
    lemma_filter_same(
        a,
        |x: JsonView| !t.drops().contains(transform::tool_name(x)),
        |x: JsonView| !t.drops().contains(named(x)),
    );
    let kept = a.filter(|x: JsonView| !t.drops().contains(named(x)));
    let rs = json::arr_field(t.applied(body), "tools"@)->0;
    assert forall|i: int| 0 <= i < rs.len() implies if t.trims() {
        cut_at_git(kept[i], #[trigger] rs[i])
    } else {
        rs[i] == kept[i]
    } by {
        if t.trims() {
            lemma_cut(kept[i]);
        }
    }
}

proof fn lemma_cut(t: JsonView)
    ensures
        cut_at_git(t, transform::git_trimmed(t)),
{
    broadcast use json::group_json_fields;

    if let Some(d) = json::text_field(t, "description"@) {
        text::lemma_first_from(d, "# Committing changes with git"@, 0);
        match text::first_from(d, "# Committing changes with git"@, 0) {
            Some(i) => {
                assert(text::occurs_at(d, "# Committing changes with git"@, i));
            },
            None => {
                if text::holds(d, "# Committing changes with git"@) {
                    let i = choose|i: int|
                        text::occurs_at(d, "# Committing changes with git"@, i);
                    assert(0 <= i);
                }
            },
        }
    }
}

proof fn lemma_filter_same(
    s: Seq<JsonView>,
    p: spec_fn(JsonView) -> bool,
    q: spec_fn(JsonView) -> bool,
)
    requires
        forall|b: JsonView| #[trigger] p(b) == q(b),
    ensures
        s.filter(p) == s.filter(q),
    decreases s.len(),
{
    reveal(Seq::filter);
    if s.len() > 0 {
        lemma_filter_same(s.drop_last(), p, q);
        assert(p(s.last()) == q(s.last()));
    }
}

/// A list of names is the names before a comma and those behind it; a text without a comma is one
/// name, without the white space around it, if anything is left.
pub proof fn law_names_are_listed_with_commas(a: Seq<char>, b: Seq<char>, n: Seq<char>)
    requires
        !b.contains(','),
    ensures
        transform::listed_names(a + ","@ + b).contains(n) <==> transform::listed_names(a).contains(n)
            || transform::listed_names(b).contains(n),
        transform::listed_names(b).contains(n) <==> n == text::trim_of(b) && n.len() > 0,
{
    reveal_strlit(",");
    let whole = a + ","@ + b;
    assert(whole =~= a.push(',') + b);
    text::lemma_split_tail(a, b, ',');
    text::lemma_split_whole(b, ',');
    let (ps, pa, pb) = (text::split_of(whole, ','), text::split_of(a, ','), text::split_of(b, ','));
    assert(pb[0] == b);
    assert(ps == pa.push(b));
    if transform::listed_names(whole).contains(n) {
        let i = choose|i: int| 0 <= i < ps.len() && n == text::trim_of(#[trigger] ps[i]);
        if i < pa.len() {
            assert(ps[i] == pa[i]);
        } else {
            assert(ps[i] == pb[0]);
        }
    }
    if transform::listed_names(a).contains(n) {
        let i = choose|i: int| 0 <= i < pa.len() && n == text::trim_of(#[trigger] pa[i]);
        assert(ps[i] == pa[i]);
    }
    if transform::listed_names(b).contains(n) {
        assert(ps[pa.len() as int] == b);
    }
}

/// The text of a message after an edit: without escapes, or with the names of dropped tools taken out
/// of its reminders.
pub open spec fn edited(t: Seq<char>, pass: Pass, drops: Set<Seq<char>>) -> Seq<char> {
    if pass == Pass::Escapes {
        patterns::without_escapes(t, 0)
    } else {
        transform::names_scrubbed(t, drops)
    }
}

/// `w` is `v` with the text under the key `k` edited, where there is one.
pub open spec fn edited_under(
    v: JsonView,
    k: Seq<char>,
    w: JsonView,
    pass: Pass,
    drops: Set<Seq<char>>,
) -> bool {
    &&& forall|q: Seq<char>| q != k ==> #[trigger] json::field(w, q) == json::field(v, q)
    &&& match json::text_field(v, k) {
        Some(t) => json::text_field(w, k) == Some(edited(t, pass, drops)),
        None => json::field(w, k) == json::field(v, k),
    }
}

/// An edit changes the text of each block of each message, or a message that is one text, and leaves
/// everything else. Escapes are also taken out of what a block has for content: out of its text, or out
/// of the texts of the blocks in it.
pub proof fn law_edits_reach_every_text(
    body: JsonView,
    pass: Pass,
    drops: Set<Seq<char>>,
    i: int,
)
    requires
        json::arr_field(body, "messages"@) matches Some(ms) && 0 <= i < ms.len(),
    ensures
        ({
            let m = json::arr_field(body, "messages"@)->0[i];
            json::arr_field(transform::messages_edited(body, pass, drops), "messages"@) matches Some(
                rs,
            ) && rs.len() == json::arr_field(body, "messages"@)->0.len() && {
                &&& json::arr_field(m, "content"@) is None ==> edited_under(
                    m,
                    "content"@,
                    rs[i],
                    pass,
                    drops,
                )
                &&& forall|q: Seq<char>|
                    q != "content"@ ==> #[trigger] json::field(rs[i], q) == json::field(m, q)
                &&& json::arr_field(m, "content"@) matches Some(bs) ==> (json::arr_field(
                    rs[i],
                    "content"@,
                ) matches Some(cs) && cs.len() == bs.len() && forall|j: int|
                    0 <= j < bs.len() ==> block_edit(bs[j], #[trigger] cs[j], pass, drops))
            }
        }),
{
    broadcast use json::group_json_fields;

    let ms = json::arr_field(body, "messages"@)->0;
    let m = ms[i];
    if let Some(bs) = json::arr_field(m, "content"@) {
        let cs = bs.map_values(|b: JsonView| transform::block_edited(b, pass, drops));
        assert forall|j: int| 0 <= j < bs.len() implies block_edit(
            bs[j],
            #[trigger] cs[j],
            pass,
            drops,
        ) by {
            lemma_block_edit(bs[j], pass, drops);
        }
    }
}

/// `c` is the block `b` after an edit.
pub open spec fn block_edit(b: JsonView, c: JsonView, pass: Pass, drops: Set<Seq<char>>) -> bool {
    &&& match json::text_field(b, "text"@) {
        Some(t) => json::text_field(c, "text"@) == Some(edited(t, pass, drops)),
        None => json::field(c, "text"@) == json::field(b, "text"@),
    }
    &&& forall|q: Seq<char>|
        q != "text"@ && q != "content"@ ==> #[trigger] json::field(c, q) == json::field(b, q)
    &&& pass == Pass::Reminders ==> json::field(c, "content"@) == json::field(b, "content"@)
    &&& pass == Pass::Escapes ==> match json::field(b, "content"@) {
        Some(JsonView::Str(t)) => json::text_field(c, "content"@) == Some(edited(t, pass, drops)),
        Some(JsonView::Arr(inner)) => json::arr_field(c, "content"@) matches Some(after)
            && after.len() == inner.len() && forall|k: int|
            0 <= k < inner.len() ==> edited_under(inner[k], "text"@, #[trigger] after[k], pass, drops),
        x => json::field(c, "content"@) == x,
    }
}

proof fn lemma_edited_under(v: JsonView, k: Seq<char>, pass: Pass, drops: Set<Seq<char>>)
    ensures
        edited_under(v, k, transform::text_edited(v, k, pass, drops), pass, drops),
{
    broadcast use json::group_json_fields;

}

proof fn lemma_block_edit(b: JsonView, pass: Pass, drops: Set<Seq<char>>)
    ensures
        block_edit(b, transform::block_edited(b, pass, drops), pass, drops),
{
    broadcast use json::group_json_fields;

    transform_laws::lemma_names();
    let b1 = transform::text_edited(b, "text"@, pass, drops);
    assert(json::field(b1, "content"@) == json::field(b, "content"@));
    if let Some(inner) = json::arr_field(b, "content"@) {
        let after = inner.map_values(
            |x: JsonView| transform::text_edited(x, "text"@, pass, drops),
        );
        assert forall|k: int| 0 <= k < inner.len() implies edited_under(
            inner[k],
            "text"@,
            #[trigger] after[k],
            pass,
            drops,
        ) by {
            lemma_edited_under(inner[k], "text"@, pass, drops);
        }
    }
}

/// The messages of a request go through the transform in this order: the names of dropped tools are
/// taken out of reminders, where any are dropped, then the conversation is restructured, then escapes
/// are taken out, unless that is switched off.
pub proof fn law_the_transform_goes_in_order(t: Transform, body: JsonView)
    ensures
        ({
            let drops = t.drops();
            let scrubbed = if drops == Set::<Seq<char>>::empty() {
                body
            } else {
                transform::messages_edited(body, Pass::Reminders, drops)
            };
            let moved = transform::with_restructured(scrubbed);
            let last = if t.strips() {
                transform::messages_edited(moved, Pass::Escapes, drops)
            } else {
                moved
            };
            json::field(t.applied(body), "messages"@) == json::field(last, "messages"@)
        }),
{
    broadcast use json::group_json_fields;

    transform_laws::lemma_names();
}

pub proof fn lemma_occurs_shifted(p: Seq<char>, b: Seq<char>, n: Seq<char>, i: int)
    requires
        0 <= i,
    ensures
        text::occurs_at(p + b, n, p.len() + i) == text::occurs_at(b, n, i),
{
    if i + n.len() <= b.len() {
        assert((p + b).subrange(p.len() + i, p.len() + i + n.len()) =~= b.subrange(i, i + n.len()));
    }
}

pub proof fn lemma_first_shifted(p: Seq<char>, b: Seq<char>, n: Seq<char>, i: int)
    requires
        0 <= i,
    ensures
        text::first_from(p + b, n, p.len() + i) == (match text::first_from(b, n, i) {
            Some(j) => Some(p.len() + j),
            None => None,
        }),
    decreases b.len() + 1 - i,
{
    lemma_occurs_shifted(p, b, n, i);
    if i <= b.len() && !text::occurs_at(b, n, i) {
        lemma_first_shifted(p, b, n, i + 1);
    }
}

proof fn lemma_end_shifted(p: Seq<char>, b: Seq<char>, i: int)
    requires
        0 <= i,
    ensures
        patterns::reminder_end(p + b, p.len() + i) == (match patterns::reminder_end(b, i) {
            Some(e) => Some(p.len() + e),
            None => None,
        }),
{
    lemma_occurs_shifted(p, b, "<system-reminder>"@, i);
    lemma_first_shifted(p, b, "</system-reminder>"@, i + "<system-reminder>"@.len());
}

proof fn lemma_reminders_shifted(p: Seq<char>, b: Seq<char>, i: int)
    requires
        0 <= i,
    ensures
        patterns::reminders(p + b, p.len() + i) == patterns::reminders(b, i),
    decreases b.len() - i,
{
    let t = p + b;
    if i < b.len() {
        lemma_end_shifted(p, b, i);
        match patterns::reminder_end(b, i) {
            Some(e) => {
                let open = "<system-reminder>"@;
                let close = "</system-reminder>"@;
                if i < e <= b.len() {
                    lemma_reminders_shifted(p, b, e);
                    assert(t.subrange(p.len() + i, p.len() + e) =~= b.subrange(i, e));
                    text::lemma_first_from(b, close, i + open.len());
                    assert(t.subrange(p.len() + i + open.len(), p.len() + e - close.len())
                        =~= b.subrange(i + open.len(), e - close.len()));
                }
            },
            None => {
                lemma_reminders_shifted(p, b, i + 1);
            },
        }
    }
}

proof fn lemma_around_shifted(p: Seq<char>, b: Seq<char>, from: int, i: int)
    requires
        0 <= from <= i <= b.len(),
    ensures
        patterns::around_reminders(p + b, p.len() + from, p.len() + i)
            == patterns::around_reminders(b, from, i),
    decreases b.len() - i,
{
    let t = p + b;
    if i < b.len() {
        lemma_end_shifted(p, b, i);
        match patterns::reminder_end(b, i) {
            Some(e) => {
                if i < e <= b.len() {
                    lemma_around_shifted(p, b, e, e);
                    assert(t.subrange(p.len() + from, p.len() + i) =~= b.subrange(from, i));
                }
            },
            None => {
                lemma_around_shifted(p, b, from, i + 1);
            },
        }
    } else {
        assert(t.skip(p.len() + from) =~= b.skip(from));
    }
}

/// Up to the first reminder there is nothing to find.
proof fn lemma_skip_to(t: Seq<char>, from: int, i: int, j: int)
    requires
        0 <= from <= i <= j <= t.len(),
        forall|k: int| i <= k < j ==> (#[trigger] patterns::reminder_end(t, k)) is None,
    ensures
        patterns::reminders(t, i) == patterns::reminders(t, j),
        patterns::around_reminders(t, from, i) == patterns::around_reminders(t, from, j),
    decreases j - i,
{
    if i < j {
        assert(patterns::reminder_end(t, i) is None);
        lemma_skip_to(t, from, i + 1, j);
    }
}

/// What a reminder becomes: one that lists deferred tools loses the lines that name dropped ones, any
/// other stays.
pub open spec fn cleaned(inner: Seq<char>, listed: bool, drops: Set<Seq<char>>) -> Seq<char> {
    if listed {
        text::join_of(
            text::split_of(inner, '\n').filter(|l: Seq<char>| !drops.contains(text::trim_of(l))),
            "\n"@,
        )
    } else {
        inner
    }
}

/// A text without the opening tag of a reminder stays as it is.
pub proof fn law_texts_without_reminders_stay(t: Seq<char>, drops: Set<Seq<char>>)
    requires
        !text::holds(t, "<system-reminder>"@),
    ensures
        transform::names_scrubbed(t, drops) == t,
{
    assert forall|k: int| 0 <= k < t.len() implies (#[trigger] patterns::reminder_end(
        t,
        k,
    )) is None by {
        if text::occurs_at(t, "<system-reminder>"@, k) {
            assert(text::holds(t, "<system-reminder>"@));
        }
    }
    lemma_skip_to(t, 0, 0, t.len() as int);
    assert(patterns::reminders(t, t.len() as int) =~= Seq::empty());
    assert(patterns::around_reminders(t, 0, t.len() as int) =~= seq![t.skip(0)]);
    assert(t.skip(0) =~= t);
    assert(transform::reminders_cleaned(patterns::reminders(t, 0), drops) =~= Seq::empty());
}

/// The first reminder of a text, if it lists deferred tools, loses the lines that name dropped tools
/// and nothing else; if it does not, it stays. What stands before it stays, and what follows it goes
/// the same way.
pub proof fn law_reminders_lose_the_lines_of_dropped_tools(
    a: Seq<char>,
    inner: Seq<char>,
    b: Seq<char>,
    drops: Set<Seq<char>>,
)
    requires
        !text::holds(a + "<system-reminder>"@.drop_last(), "<system-reminder>"@),
        !text::holds(inner + "</system-reminder>"@.drop_last(), "</system-reminder>"@),
        is_ascii_chars(inner),
    ensures
        transform::names_scrubbed(
            a + "<system-reminder>"@ + inner + "</system-reminder>"@ + b,
            drops,
        ) == a + "<system-reminder>"@ + cleaned(
            inner,
            text::holds(text::ascii_lower_of(inner), "deferred tools"@) || text::holds(
                text::ascii_lower_of(inner),
                "toolsearch"@,
            ),
            drops,
        ) + "</system-reminder>"@ + transform::names_scrubbed(b, drops),
{
    let (open, close) = ("<system-reminder>"@, "</system-reminder>"@);
    reveal_strlit("<system-reminder>");
    reveal_strlit("</system-reminder>");
    let whole = open + inner + close;
    let t = a + open + inner + close + b;
    let i = a.len() as int;
    let e = i + whole.len();
    // Nothing before it.
    assert forall|k: int| 0 <= k < i implies (#[trigger] patterns::reminder_end(t, k)) is None by {
        if text::occurs_at(t, open, k) {
            let h = a + open.drop_last();
            assert(k + open.len() <= h.len());
            assert(h.subrange(k, k + open.len()) =~= t.subrange(k, k + open.len()));
            assert(text::occurs_at(h, open, k));
        }
    }
    lemma_skip_to(t, 0, 0, i);
    // It ends at its first closing tag.
    assert(t.subrange(i, i + open.len()) =~= open);
    assert(text::occurs_at(t, open, i));
    let from = i + open.len();
    assert(t.subrange(from + inner.len(), from + inner.len() + close.len()) =~= close);
    assert(text::occurs_at(t, close, from + inner.len()));
    text::lemma_first_from(t, close, from);
    let f = text::first_from(t, close, from)->0;
    if f < from + inner.len() {
        let h = inner + close.drop_last();
        assert(h.subrange(f - from, f - from + close.len()) =~= t.subrange(f, f + close.len()));
        assert(text::occurs_at(h, close, f - from));
    }
    assert(patterns::reminder_end(t, i) == Some(e));
    // What follows.
    let p = a + whole;
    assert(t =~= p + b);
    lemma_reminders_shifted(p, b, 0);
    lemma_around_shifted(p, b, 0, 0);
    let g = seq![Some(t.subrange(i, e)), Some(t.subrange(from, e - close.len()))];
    assert(t.subrange(i, e) =~= whole);
    assert(t.subrange(from, e - close.len()) =~= inner);
    let found = patterns::reminders(t, 0);
    let pieces = patterns::around_reminders(t, 0, 0);
    assert(found =~= seq![g] + patterns::reminders(b, 0));
    assert(t.subrange(0, i) =~= a);
    assert(pieces =~= seq![a] + patterns::around_reminders(b, 0, 0));
    patterns::law_reminders_and_the_rest_are_the_text(b, 0, 0);
    let fillings = transform::reminders_cleaned(found, drops);
    let rest = transform::reminders_cleaned(patterns::reminders(b, 0), drops);
    let listed = text::holds(text::ascii_lower_of(inner), "deferred tools"@) || text::holds(
        text::ascii_lower_of(inner),
        "toolsearch"@,
    );
    let first = transform::reminder_cleaned(whole, inner, listed, drops);
    assert(transform::group_text(g, 0) == whole && transform::group_text(g, 1) == inner);
    assert(fillings =~= seq![first] + rest);
    assert(pieces.drop_first() =~= patterns::around_reminders(b, 0, 0));
    assert(fillings.drop_first() =~= rest);
    reveal_with_fuel(patterns::woven, 2);
    assert(patterns::woven(pieces, fillings) =~= a + first + transform::names_scrubbed(b, drops));
    assert(first =~= open + cleaned(inner, listed, drops) + close);
    assert(a + first + transform::names_scrubbed(b, drops) =~= a + open + cleaned(
        inner,
        listed,
        drops,
    ) + close + transform::names_scrubbed(b, drops));
}

proof fn lemma_parameters_shifted(p: Seq<char>, b: Seq<char>, i: int)
    requires
        0 <= i,
    ensures
        patterns::behind_parameters(p + b, p.len() + i) == p.len() + patterns::behind_parameters(
            b,
            i,
        ),
        i <= patterns::behind_parameters(b, i),
    decreases b.len() - i,
{
    if i < b.len() && ('0' <= b[i] <= '9' || b[i] == ';') {
        lemma_parameters_shifted(p, b, i + 1);
    }
}

proof fn lemma_escapes_shifted(p: Seq<char>, b: Seq<char>, i: int)
    requires
        0 <= i,
    ensures
        patterns::without_escapes(p + b, p.len() + i) == patterns::without_escapes(b, i),
    decreases b.len() - i,
{
    let t = p + b;
    if i < b.len() {
        lemma_parameters_shifted(p, b, i + 2);
        match patterns::escape_end(b, i) {
            Some(e) => {
                lemma_escapes_shifted(p, b, e);
            },
            None => {
                lemma_escapes_shifted(p, b, i + 1);
            },
        }
    }
}

/// A character that is no escape character stays, and what follows it goes its own way; so a text
/// without escape characters stays as it is.
pub proof fn law_other_characters_stay(c: char, b: Seq<char>)
    requires
        c != '\u{1b}',
    ensures
        patterns::without_escapes(Seq::empty(), 0) == Seq::<char>::empty(),
        patterns::without_escapes(seq![c] + b, 0) == seq![c] + patterns::without_escapes(b, 0),
{
    let t = seq![c] + b;
    lemma_escapes_shifted(seq![c], b, 0);
    assert(patterns::escape_end(t, 0) is None);
    assert(t[0] == c);
}

/// An escape character with a bracket, any digits and semicolons and a letter is taken out, whatever
/// follows.
pub proof fn law_escape_sequences_go(ps: Seq<char>, l: char, b: Seq<char>)
    requires
        forall|i: int| 0 <= i < ps.len() ==> '0' <= #[trigger] ps[i] <= '9' || ps[i] == ';',
        'A' <= l <= 'Z' || 'a' <= l <= 'z',
    ensures
        patterns::without_escapes(seq!['\u{1b}', '['] + ps + seq![l] + b, 0)
            == patterns::without_escapes(b, 0),
{
    let p = seq!['\u{1b}', '['] + ps + seq![l];
    let t = p + b;
    lemma_parameters_end(t, 2, 2 + ps.len() as int);
    assert(t[0] == '\u{1b}' && t[1] == '[' && t[2 + ps.len() as int] == l);
    assert(patterns::escape_end(t, 0) == Some(p.len() as int));
    lemma_escapes_shifted(p, b, 0);
}

/// An escape character that begins no such sequence stays.
pub proof fn law_other_escape_characters_stay(c: char, b: Seq<char>)
    requires
        c != '[',
    ensures
        patterns::without_escapes(seq!['\u{1b}', c] + b, 0) == seq!['\u{1b}']
            + patterns::without_escapes(seq![c] + b, 0),
{
    let t = seq!['\u{1b}', c] + b;
    assert(t =~= seq!['\u{1b}'] + (seq![c] + b));
    lemma_escapes_shifted(seq!['\u{1b}'], seq![c] + b, 0);
    assert(t[1] == c && t[0] == '\u{1b}');
    assert(patterns::escape_end(t, 0) is None);
}

proof fn lemma_parameters_end(t: Seq<char>, i: int, e: int)
    requires
        0 <= i <= e < t.len(),
        forall|k: int| i <= k < e ==> '0' <= #[trigger] t[k] <= '9' || t[k] == ';',
        !('0' <= t[e] <= '9' || t[e] == ';'),
    ensures
        patterns::behind_parameters(t, i) == e,
    decreases e - i,
{
    if i < e {
        lemma_parameters_end(t, i + 1, e);
    }
}

/// A request without messages is not edited, and of one with messages nothing else is.
pub proof fn law_edits_touch_messages_alone(
    body: JsonView,
    pass: Pass,
    drops: Set<Seq<char>>,
    k: Seq<char>,
)
    ensures
        json::arr_field(body, "messages"@) is None ==> transform::messages_edited(body, pass, drops)
            == body,
        k != "messages"@ ==> json::field(transform::messages_edited(body, pass, drops), k)
            == json::field(body, k),
{
    broadcast use json::group_json_fields;

}

/// The transform is the one that is asked for: tools are dropped that are named, escapes are stripped
/// unless that is set to 0, and the Bash tool is cut where that is set to 1.
pub open spec fn asked_for(
    drop_tools: Option<Seq<char>>,
    strip_ansi: Option<Seq<char>>,
    trim_bash_git: Option<Seq<char>>,
    t: Transform,
) -> bool {
    &&& drop_tools is None ==> t.drops() == Set::<Seq<char>>::empty()
    &&& drop_tools matches Some(l) ==> forall|n: Seq<char>| #[trigger]
        t.drops().contains(n) <==> n.len() > 0 && exists|i: int|
            0 <= i < text::split_of(l, ',').len() && n == text::trim_of(
                #[trigger] text::split_of(l, ',')[i],
            )
    &&& t.strips() <==> strip_ansi != Some("0"@)
    &&& t.trims() <==> trim_bash_git == Some("1"@)
}

/// What the log says of dropped tools names them with commas between them, or says that there are none.
pub proof fn law_dropped_tools_are_told(names: Seq<Seq<char>>, n: Seq<char>)
    ensures
        transform::drop_note(Seq::empty()) == "[transform] DROP_TOOLS="@ + "(none)"@,
        transform::drop_note(seq![n]) == "[transform] DROP_TOOLS="@ + n,
        names.len() > 0 ==> transform::drop_note(names.push(n)) == transform::drop_note(names) + ","@
            + n,
{
    let head = "[transform] DROP_TOOLS="@;
    assert(names.push(n).drop_last() =~= names);
    let j = text::join_of(names, ","@);
    assert(head + (j + ","@ + n) =~= head + j + ","@ + n);
}

} // verus!
