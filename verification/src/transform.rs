//! The body transform: drops unused tools, takes their names out of reminders, hoists static
//! context to the first message, drops stale scaffolding and strips terminal escapes.

use vstd::prelude::*;

use crate::config;
use crate::edit_laws;
use crate::json;
use crate::json::{Json, JsonView};
use crate::patterns;
use crate::text;
use crate::transform_laws;

verus! {

broadcast use crate::json::group_json_view;

/// What the transform does to a request body.
#[derive(Debug)]
pub struct Transform {
    drop_tools: Vec<String>,
    strip_ansi: bool,
    trim_bash_git: bool,
}

/// The names in a comma-separated list: its pieces without the white space around them, where
/// something is left.
pub open spec fn listed_names(list: Seq<char>) -> Set<Seq<char>> {
    Set::new(
        |t: Seq<char>|
            t.len() > 0 && exists|i: int|
                0 <= i < text::split_of(list, ',').len() && t == text::trim_of(
                    #[trigger] text::split_of(list, ',')[i],
                ),
    )
}

impl Transform {
    /// The names of the tools that are dropped.
    pub closed spec fn drops(self) -> Set<Seq<char>> {
        text::text_set(self.drop_tools@)
    }

    /// Terminal escapes are stripped.
    pub closed spec fn strips(self) -> bool {
        self.strip_ansi
    }

    /// The Bash tool's description ends before its section on git.
    pub closed spec fn trims(self) -> bool {
        self.trim_bash_git
    }

    /// The transform that the variables `DROP_TOOLS`, `STRIP_ANSI` and `TRIM_BASH_GIT` ask for.
    pub fn from_env(
        drop_tools: Option<&str>,
        strip_ansi: Option<&str>,
        trim_bash_git: Option<&str>,
    ) -> (r: Transform)
        ensures
            r.drops() == (match drop_tools {
                Some(l) => listed_names(l@),
                None => Set::<Seq<char>>::empty(),
            }),
            r.strips() == !(strip_ansi matches Some(v) && v@ == "0"@),
            r.trims() == (trim_bash_git matches Some(v) && v@ == "1"@),
            edit_laws::asked_for(
                text::opt_str(drop_tools),
                text::opt_str(strip_ansi),
                text::opt_str(trim_bash_git),
                r,
            ),
    {
        let mut names: Vec<String> = Vec::new();
        match drop_tools {
            Some(l) => {
                let pieces: Vec<String> = text::split(l, ',');
                let n: usize = pieces.len();
                let mut i: usize = 0;
                let ghost ps = text::split_of(l@, ',');
                while i < n
                    invariant
                        n == pieces@.len(),
                        i <= n,
                        text::texts(pieces@) == ps,
                        forall|t: Seq<char>| #[trigger]
                            text::text_set(names@).contains(t) <==> (t.len() > 0 && exists|j: int|
                                0 <= j < i && t == text::trim_of(#[trigger] ps[j])),
                    decreases n - i,
                {
                    let ghost before = names@;
                    let name: String = text::trim(pieces[i].as_str());
                    assert(ps[i as int] == pieces@[i as int]@);
                    if !name.as_str().is_empty() {
                        names.push(name);
                    }
                    proof {
                        let t0 = text::trim_of(ps[i as int]);
                        assert forall|t: Seq<char>| #[trigger]
                            text::text_set(names@).contains(t) <==> (t.len() > 0 && exists|j: int|
                                0 <= j < i + 1 && t == text::trim_of(#[trigger] ps[j])) by {
                            if text::text_set(names@).contains(t) {
                                let j = choose|j: int| 0 <= j < names@.len() && (#[trigger] names@[j])@ == t;
                                if j < before.len() {
                                    assert(before[j]@ == t);
                                    assert(text::text_set(before).contains(t));
                                } else {
                                    assert(t == text::trim_of(ps[i as int]));
                                }
                            }
                            if t.len() > 0 && exists|j: int|
                                0 <= j < i + 1 && t == text::trim_of(#[trigger] ps[j]) {
                                let j = choose|j: int|
                                    0 <= j < i + 1 && t == text::trim_of(#[trigger] ps[j]);
                                if j < i {
                                    assert(text::text_set(before).contains(t));
                                    let q = choose|q: int| 0 <= q < before.len() && (#[trigger] before[q])@ == t;
                                    assert(names@[q]@ == t);
                                } else {
                                    assert(names@[before.len() as int]@ == t);
                                }
                            }
                        }
                    }
                    i += 1;
                }
                assert(text::text_set(names@) =~= listed_names(l@));
            },
            None => {
                assert(text::text_set(names@) =~= Set::<Seq<char>>::empty());
            },
        }
        let strip: bool = match strip_ansi {
            Some(v) => !text::same(v, "0"),
            None => true,
        };
        let trim: bool = match trim_bash_git {
            Some(v) => text::same(v, "1"),
            None => false,
        };
        let r: Transform = Transform { drop_tools: names, strip_ansi: strip, trim_bash_git: trim };
        proof {
            if let Some(l) = text::opt_str(drop_tools) {
                assert(r.drops() == listed_names(l));
                assert forall|n: Seq<char>| #[trigger] r.drops().contains(n) <==> n.len() > 0
                    && exists|i: int|
                    0 <= i < text::split_of(l, ',').len() && n == text::trim_of(
                        #[trigger] text::split_of(l, ',')[i],
                    ) by {
                    assert(listed_names(l).contains(n) <==> r.drops().contains(n));
                }
            }
        }
        r
    }

    /// The names of the tools that are dropped, each once and in order.
    pub fn dropped_names(&self) -> (r: Vec<String>)
        ensures
            text::ascending(text::texts(r@)),
            forall|t: Seq<char>| #[trigger]
                text::texts(r@).contains(t) <==> self.drops().contains(t),
    {
        let mut out: Vec<String> = Vec::new();
        let n: usize = self.drop_tools.len();
        let mut i: usize = 0;
        while i < n
            invariant
                n == self.drop_tools@.len(),
                i <= n,
                text::ascending(text::texts(out@)),
                forall|t: Seq<char>| #[trigger]
                    text::texts(out@).contains(t) <==> text::texts(self.drop_tools@).take(
                        i as int,
                    ).contains(t),
            decreases n - i,
        {
            let ghost before = text::texts(out@);
            let ghost names = text::texts(self.drop_tools@);
            text::put_in_order(&mut out, self.drop_tools[i].as_str());
            assert forall|t: Seq<char>| #[trigger]
                text::texts(out@).contains(t) <==> names.take(i + 1).contains(t) by {
                assert(names.take(i + 1) =~= names.take(i as int).push(names[i as int]));
                assert(names.take(i as int).push(names[i as int]).contains(t) <==> (names.take(
                    i as int,
                ).contains(t) || t == names[i as int])) by {
                    broadcast use vstd::seq_lib::group_seq_properties;

                }
                assert(before.contains(t) <==> names.take(i as int).contains(t));
            }
            i += 1;
        }
        proof {
            let names = text::texts(self.drop_tools@);
            assert(names.take(n as int) =~= names);
            assert forall|t: Seq<char>| #[trigger]
                text::texts(out@).contains(t) <==> self.drops().contains(t) by {
                if names.contains(t) {
                    let j = choose|j: int| 0 <= j < names.len() && names[j] == t;
                    assert(self.drop_tools@[j]@ == t);
                }
                if self.drops().contains(t) {
                    let j = choose|j: int|
                        0 <= j < self.drop_tools@.len() && (#[trigger] self.drop_tools@[j])@ == t;
                    assert(names[j] == t);
                }
            }
        }
        out
    }

    /// What the log says of the transform when it is set up.
    pub fn announcement(&self) -> (r: (String, String))
        ensures
            exists|names: Seq<Seq<char>>|
                text::ascending(names) && (forall|t: Seq<char>| #[trigger]
                    names.contains(t) <==> self.drops().contains(t)) && r.0@
                    == #[trigger] drop_note(names),
            r.1@ == "[transform] STRIP_ANSI="@ + config::bool_of(self.strips())
                + " TRIM_BASH_GIT="@ + config::bool_of(self.trims()),
    {
        let names: Vec<String> = self.dropped_names();
        let list: String = if names.len() == 0 {
            "(none)".to_owned()
        } else {
            text::join(&names, ",")
        };
        let first: String = text::glue("[transform] DROP_TOOLS=", list.as_str());
        assert(first@ == drop_note(text::texts(names@)));
        let mut second: String = text::glue(
            "[transform] STRIP_ANSI=",
            config::bool_text(self.strip_ansi),
        );
        second.append(" TRIM_BASH_GIT=");
        second.append(config::bool_text(self.trim_bash_git));
        (first, second)
    }
}

/// What the log says of the names of dropped tools.
pub open spec fn drop_note(names: Seq<Seq<char>>) -> Seq<char> {
    "[transform] DROP_TOOLS="@ + (if names.len() == 0 {
        "(none)"@
    } else {
        text::join_of(names, ","@)
    })
}

/// The heading at which the section on git begins in the Bash tool's description.
pub const GIT_SECTION: &'static str = "# Committing changes with git";

/// The name of a tool; a tool without one counts as named by the empty text.
pub open spec fn tool_name(t: JsonView) -> Seq<char> {
    match json::text_field(t, "name"@) {
        Some(n) => n,
        None => Seq::empty(),
    }
}

/// A description without what stands from the section on git on.
pub open spec fn without_git(d: Seq<char>) -> Seq<char> {
    match text::first_from(d, GIT_SECTION@, 0) {
        Some(i) => text::trim_end_of(d.take(i)),
        None => d,
    }
}

/// The tool, with a shorter description where it is the Bash tool.
pub open spec fn git_trimmed(t: JsonView) -> JsonView {
    if json::text_field(t, "name"@) == Some("Bash"@) {
        match json::text_field(t, "description"@) {
            Some(d) => json::with_field(t, "description"@, JsonView::Str(without_git(d))),
            None => t,
        }
    } else {
        t
    }
}

/// The tools that are not dropped.
pub open spec fn tools_kept(a: Seq<JsonView>, drops: Set<Seq<char>>) -> Seq<JsonView> {
    a.filter(|t: JsonView| !drops.contains(tool_name(t)))
}

/// The tools after those that are dropped were taken out and the Bash tool was trimmed.
pub open spec fn tools_trimmed(a: Seq<JsonView>, drops: Set<Seq<char>>, git: bool) -> Seq<JsonView> {
    let kept = tools_kept(a, drops);
    if git {
        kept.map_values(|t: JsonView| git_trimmed(t))
    } else {
        kept
    }
}

/// The body with its tools trimmed.
pub open spec fn with_tools_trimmed(body: JsonView, drops: Set<Seq<char>>, git: bool) -> JsonView {
    match json::arr_field(body, "tools"@) {
        Some(a) => json::with_field(body, "tools"@, JsonView::Arr(tools_trimmed(a, drops, git))),
        None => body,
    }
}

/// Shortens the description where the tool is the Bash tool.
fn trim_git(t: &mut Json)
    ensures
        final(t)@ == git_trimmed(old(t)@),
{
    broadcast use json::group_json_fields;

    if t.has_text("name", "Bash") {
        let short: Option<String> = match t.get_text("description") {
            Some(d) => match text::find(d, GIT_SECTION) {
                Some(i) => {
                    assert(d@.subrange(0, i as int) =~= d@.take(i as int));
                    Some(text::trim_end(d.substring_char(0, i)))
                },
                None => None,
            },
            None => None,
        };
        match short {
            Some(d) => {
                t.set("description", Json::Str(d));
            },
            None => {},
        }
    }
}

/// The tools that none of the names drops.
fn keep_tools(tools: Vec<Json>, names: &Vec<String>) -> (r: Vec<Json>)
    ensures
        json::arr_view(r@) == tools_kept(json::arr_view(tools@), text::text_set(names@)),
{
    let ghost v = json::arr_view(tools@);
    let ghost p = |t: JsonView| !text::text_set(names@).contains(tool_name(t));
    let mut out: Vec<Json> = Vec::new();
    proof {
        text::lemma_filter_all(v, p);
        assert(json::arr_view(out@) =~= Seq::empty());
    }
    for t in it: tools
        invariant
            it.seq() == tools@,
            v == json::arr_view(tools@),
            p == (|t: JsonView| !text::text_set(names@).contains(tool_name(t))),
            json::arr_view(out@) == v.take(it.index() as int).filter(p),
    {
        proof {
            text::lemma_filter_step(v, it.index() as int, p);
        }
        let dropped: bool = match t.get_text("name") {
            Some(n) => text::one_of(names, n),
            None => text::one_of(names, ""),
        };
        proof {
            reveal_strlit("");
            assert(""@ =~= Seq::<char>::empty());
        }
        if !dropped {
            out.push(t);
        }
    }
    assert(v.take(v.len() as int) =~= v);
    out
}

/// The opening tag of a reminder.
pub const REMINDER_OPEN: &'static str = "<system-reminder>";

/// The closing tag of a reminder.
pub const REMINDER_CLOSE: &'static str = "</system-reminder>";

/// The lines of a reminder that are not the name of a dropped tool.
pub open spec fn lines_kept(inner: Seq<char>, drops: Set<Seq<char>>) -> Seq<Seq<char>> {
    text::split_of(inner, '\n').filter(|l: Seq<char>| !drops.contains(text::trim_of(l)))
}

/// A reminder without the lines that name dropped tools, where it lists deferred tools; any other
/// as it is.
pub open spec fn reminder_cleaned(
    whole: Seq<char>,
    inner: Seq<char>,
    deferred: bool,
    drops: Set<Seq<char>>,
) -> Seq<char> {
    if deferred {
        REMINDER_OPEN@ + text::join_of(lines_kept(inner, drops), "\n"@) + REMINDER_CLOSE@
    } else {
        whole
    }
}

/// The text of a group, or nothing where it took no part.
pub open spec fn group_text(g: Seq<Option<Seq<char>>>, i: int) -> Seq<char> {
    match patterns::group_of(g, i) {
        Some(t) => t,
        None => Seq::empty(),
    }
}

/// What stands in place of each reminder that was found.
pub open spec fn reminders_cleaned(
    found: Seq<Seq<Option<Seq<char>>>>,
    drops: Set<Seq<char>>,
) -> Seq<Seq<char>> {
    found.map_values(
        |g: Seq<Option<Seq<char>>>|
            reminder_cleaned(
                group_text(g, 0),
                group_text(g, 1),
                patterns::deferred_listed(group_text(g, 1)),
                drops,
            ),
    )
}

/// None of the reminders that were found lists deferred tools.
pub open spec fn none_deferred(found: Seq<Seq<Option<Seq<char>>>>) -> bool {
    forall|i: int|
        0 <= i < found.len() ==> !patterns::deferred_listed(
            group_text(#[trigger] found[i], 1),
        )
}

/// The text with the names of dropped tools taken out of its reminders on deferred tools.
pub open spec fn names_scrubbed(t: Seq<char>, drops: Set<Seq<char>>) -> Seq<char> {
    patterns::woven(
        patterns::around_reminders(t, 0, 0),
        reminders_cleaned(patterns::reminders(t, 0), drops),
    )
}

/// The reminder without the lines that name dropped tools, where it lists deferred tools.
pub fn clean_reminder(whole: &str, inner: &str, deferred: bool, names: &Vec<String>) -> (r: String)
    ensures
        r@ == reminder_cleaned(whole@, inner@, deferred, text::text_set(names@)),
{
    if !deferred {
        return whole.to_owned();
    }
    let lines: Vec<String> = text::split(inner, '\n');
    let ghost v = text::split_of(inner@, '\n');
    let ghost p = |l: Seq<char>| !text::text_set(names@).contains(text::trim_of(l));
    let n: usize = lines.len();
    let mut kept: Vec<String> = Vec::new();
    let mut i: usize = 0;
    proof {
        text::lemma_filter_all(v, p);
        assert(text::texts(kept@) =~= Seq::empty());
    }
    while i < n
        invariant
            n == lines@.len(),
            i <= n,
            v == text::texts(lines@),
            p == (|l: Seq<char>| !text::text_set(names@).contains(text::trim_of(l))),
            text::texts(kept@) == v.take(i as int).filter(p),
        decreases n - i,
    {
        proof {
            text::lemma_filter_step(v, i as int, p);
        }
        assert(v[i as int] == lines@[i as int]@);
        if !text::one_of(names, text::trim(lines[i].as_str()).as_str()) {
            let ghost before = text::texts(kept@);
            let line: String = lines[i].clone();
            kept.push(line);
            assert(text::texts(kept@) =~= before.push(v[i as int]));
        }
        i += 1;
    }
    assert(v.take(n as int) =~= v);
    let body: String = text::join(&kept, "\n");
    text::glue(text::glue(REMINDER_OPEN, body.as_str()).as_str(), REMINDER_CLOSE)
}

proof fn lemma_woven_step(pieces: Seq<Seq<char>>, fillings: Seq<Seq<char>>, i: int)
    requires
        0 <= i < fillings.len(),
        pieces.len() == fillings.len() + 1,
    ensures
        patterns::woven(pieces.take(i + 2), fillings.take(i + 1)) == patterns::woven(
            pieces.take(i + 1),
            fillings.take(i),
        ) + fillings[i] + pieces[i + 1],
    decreases i,
{
    let p = pieces.take(i + 2);
    let f = fillings.take(i + 1);
    reveal_with_fuel(patterns::woven, 3);
    if i == 0 {
        assert(p.drop_first() =~= seq![pieces[1]]);
        assert(f.drop_first() =~= Seq::empty());
        assert(pieces.take(1) =~= seq![pieces[0]]);
        assert(patterns::woven(p, f) =~= pieces[0] + fillings[0] + pieces[1]);
    } else {
        let ps = pieces.drop_first();
        let fs = fillings.drop_first();
        lemma_woven_step(ps, fs, i - 1);
        assert(p.drop_first() =~= ps.take(i + 1));
        assert(f.drop_first() =~= fs.take(i));
        assert(pieces.take(i + 1).drop_first() =~= ps.take(i));
        assert(fillings.take(i).drop_first() =~= fs.take(i - 1));
        assert(patterns::woven(p, f) =~= patterns::woven(pieces.take(i + 1), fillings.take(i))
            + fillings[i] + pieces[i + 1]);
    }
}

/// The pieces with the fillings between them, in turn.
pub fn weave(pieces: &Vec<String>, fillings: &Vec<String>) -> (r: String)
    requires
        pieces@.len() == fillings@.len() + 1,
    ensures
        r@ == patterns::woven(text::texts(pieces@), text::texts(fillings@)),
{
    let ghost p = text::texts(pieces@);
    let ghost f = text::texts(fillings@);
    let n: usize = fillings.len();
    let mut out: String = pieces[0].clone();
    let mut i: usize = 0;
    assert(p.take(1) =~= seq![p[0]]);
    while i < n
        invariant
            n == fillings@.len(),
            pieces@.len() == n + 1,
            i <= n,
            p == text::texts(pieces@),
            f == text::texts(fillings@),
            out@ == patterns::woven(p.take(i + 1), f.take(i as int)),
        decreases n - i,
    {
        proof {
            lemma_woven_step(p, f, i as int);
        }
        out.append(fillings[i].as_str());
        out.append(pieces[i + 1].as_str());
        i += 1;
    }
    assert(p.take(n + 1) =~= p);
    assert(f.take(n as int) =~= f);
    out
}

/// Takes the names of dropped tools out of the reminders on deferred tools in a text.
pub fn scrub_names(t: &str, names: &Vec<String>) -> (r: String)
    ensures
        r@ == names_scrubbed(t@, text::text_set(names@)),
        none_deferred(patterns::reminders(t@, 0)) ==> r@ == t@,
{
    let pieces: Vec<String> = patterns::split(patterns::REMINDER, t);
    let found: Vec<Vec<Option<String>>> = patterns::captures_iter(patterns::REMINDER, t);
    proof {
        patterns::law_reminders_and_the_rest_are_the_text(t@, 0, 0);
        assert(t@.skip(0) =~= t@);
    }
    let n: usize = found.len();
    let mut fillings: Vec<String> = Vec::new();
    let mut i: usize = 0;
    let ghost want = reminders_cleaned(patterns::matches_of(found@), text::text_set(names@));
    assert(text::texts(fillings@) =~= want.take(0));
    while i < n
        invariant
            n == found@.len(),
            i <= n,
            want == reminders_cleaned(patterns::matches_of(found@), text::text_set(names@)),
            text::texts(fillings@) == want.take(i as int),
        decreases n - i,
    {
        let whole: &str = match patterns::group(&found[i], 0) {
            Some(w) => w,
            None => "",
        };
        let inner: &str = match patterns::group(&found[i], 1) {
            Some(w) => w,
            None => "",
        };
        proof {
            reveal_strlit("");
            assert(""@ =~= Seq::<char>::empty());
        }
        let deferred: bool = patterns::is_match(patterns::DEFERRED, inner);
        let ghost before = text::texts(fillings@);
        fillings.push(clean_reminder(whole, inner, deferred, names));
        proof {
            let g = patterns::matches_of(found@)[i as int];
            assert(g == patterns::groups_of(found@[i as int]@));
            assert(whole@ == group_text(g, 0));
            assert(inner@ == group_text(g, 1));
            assert(text::texts(fillings@) =~= before.push(want[i as int]));
            assert(want.take(i + 1) =~= want.take(i as int).push(want[i as int]));
        }
        i += 1;
    }
    proof {
        assert(want.take(n as int) =~= want);
        let ms = patterns::matches_of(found@);
        if none_deferred(ms) {
            assert forall|j: int| 0 <= j < ms.len() implies #[trigger] want[j]
                == patterns::wholes(ms)[j] by {
                assert(!patterns::deferred_listed(group_text(ms[j], 1)));
            }
            assert(want =~= patterns::wholes(ms));
        }
    }
    weave(&pieces, &fillings)
}

/// The text without terminal escapes.
pub open spec fn ansi_stripped(t: Seq<char>) -> Seq<char> {
    patterns::without_escapes(t, 0)
}

/// One of the two edits made on the texts of messages.
#[derive(Clone, Copy, Debug, PartialEq, Eq, Structural)]
pub enum Pass {
    Reminders,
    Escapes,
}

/// The text after the edit.
pub open spec fn edited(t: Seq<char>, pass: Pass, drops: Set<Seq<char>>) -> Seq<char> {
    match pass {
        Pass::Reminders => names_scrubbed(t, drops),
        Pass::Escapes => ansi_stripped(t),
    }
}

/// The block after the edit of the text under the key `k`, where it has one.
pub open spec fn text_edited(b: JsonView, k: Seq<char>, pass: Pass, drops: Set<Seq<char>>) -> JsonView {
    match json::text_field(b, k) {
        Some(t) => json::with_field(b, k, JsonView::Str(edited(t, pass, drops))),
        None => b,
    }
}

/// The block after the edit of its text and, for escapes, of the texts in its own content.
pub open spec fn block_edited(b: JsonView, pass: Pass, drops: Set<Seq<char>>) -> JsonView {
    let b1 = text_edited(b, "text"@, pass, drops);
    match pass {
        Pass::Reminders => b1,
        Pass::Escapes => match json::arr_field(b1, "content"@) {
            Some(inner) => json::with_field(
                b1,
                "content"@,
                JsonView::Arr(
                    inner.map_values(|x: JsonView| text_edited(x, "text"@, pass, drops)),
                ),
            ),
            None => text_edited(b1, "content"@, pass, drops),
        },
    }
}

/// The message after the edit of its content.
pub open spec fn message_edited(m: JsonView, pass: Pass, drops: Set<Seq<char>>) -> JsonView {
    match json::arr_field(m, "content"@) {
        Some(bs) => json::with_field(
            m,
            "content"@,
            JsonView::Arr(bs.map_values(|b: JsonView| block_edited(b, pass, drops))),
        ),
        None => text_edited(m, "content"@, pass, drops),
    }
}

/// The body after the edit of its messages.
pub open spec fn messages_edited(body: JsonView, pass: Pass, drops: Set<Seq<char>>) -> JsonView {
    match json::arr_field(body, "messages"@) {
        Some(ms) => json::with_field(
            body,
            "messages"@,
            JsonView::Arr(ms.map_values(|m: JsonView| message_edited(m, pass, drops))),
        ),
        None => body,
    }
}

/// Makes the edit on a text.
fn edit(t: &str, pass: Pass, names: &Vec<String>) -> (r: String)
    ensures
        r@ == edited(t@, pass, text::text_set(names@)),
{
    proof {
        reveal_strlit("");
    }
    match pass {
        Pass::Reminders => scrub_names(t, names),
        Pass::Escapes => patterns::replace_all(patterns::ANSI, t, ""),
    }
}

/// Makes the edit on the text under the key `k`.
fn edit_text(b: &mut Json, k: &str, pass: Pass, names: &Vec<String>)
    ensures
        final(b)@ == text_edited(old(b)@, k@, pass, text::text_set(names@)),
{
    let next: Option<String> = match b.get_text(k) {
        Some(t) => Some(edit(t, pass, names)),
        None => None,
    };
    match next {
        Some(t) => {
            b.set(k, Json::Str(t));
        },
        None => {},
    }
}

/// Makes the edit on a block.
fn edit_block(b: &mut Json, pass: Pass, names: &Vec<String>)
    ensures
        final(b)@ == block_edited(old(b)@, pass, text::text_set(names@)),
{
    broadcast use json::group_json_fields;

    let ghost drops = text::text_set(names@);
    edit_text(b, "text", pass, names);
    match pass {
        Pass::Reminders => {
            return;
        },
        Pass::Escapes => {},
    }
    let mut nested: bool = false;
    match b.get_mut("content") {
        Some(Json::Arr(inner)) => {
            nested = true;
            let ghost v = json::arr_view(inner@);
            let n: usize = inner.len();
            let mut i: usize = 0;
            while i < n
                invariant
                    n == inner@.len(),
                    n == v.len(),
                    i <= n,
                    drops == text::text_set(names@),
                    forall|j: int|
                        0 <= j < i ==> (#[trigger] inner@[j])@ == text_edited(
                            v[j],
                            "text"@,
                            pass,
                            drops,
                        ),
                    forall|j: int| i <= j < n ==> (#[trigger] inner@[j])@ == v[j],
                decreases n - i,
            {
                edit_text(&mut inner[i], "text", pass, names);
                i += 1;
            }
            assert(json::arr_view(inner@) =~= v.map_values(
                |x: JsonView| text_edited(x, "text"@, pass, drops),
            ));
        },
        _ => {},
    }
    if !nested {
        edit_text(b, "content", pass, names);
    }
}

/// Makes the edit on a message.
fn edit_message(m: &mut Json, pass: Pass, names: &Vec<String>)
    ensures
        final(m)@ == message_edited(old(m)@, pass, text::text_set(names@)),
{
    broadcast use json::group_json_fields;

    let ghost drops = text::text_set(names@);
    let mut listed: bool = false;
    match m.get_mut("content") {
        Some(Json::Arr(bs)) => {
            listed = true;
            let ghost v = json::arr_view(bs@);
            let n: usize = bs.len();
            let mut i: usize = 0;
            while i < n
                invariant
                    n == bs@.len(),
                    n == v.len(),
                    i <= n,
                    drops == text::text_set(names@),
                    forall|j: int|
                        0 <= j < i ==> (#[trigger] bs@[j])@ == block_edited(v[j], pass, drops),
                    forall|j: int| i <= j < n ==> (#[trigger] bs@[j])@ == v[j],
                decreases n - i,
            {
                edit_block(&mut bs[i], pass, names);
                i += 1;
            }
            assert(json::arr_view(bs@) =~= v.map_values(
                |b: JsonView| block_edited(b, pass, drops),
            ));
        },
        _ => {},
    }
    if !listed {
        edit_text(m, "content", pass, names);
    }
}

/// Makes the edit on every message of the body.
fn edit_messages(body: &mut Json, pass: Pass, names: &Vec<String>)
    ensures
        final(body)@ == messages_edited(old(body)@, pass, text::text_set(names@)),
{
    broadcast use json::group_json_fields;

    let ghost drops = text::text_set(names@);
    match body.get_mut("messages") {
        Some(Json::Arr(ms)) => {
            let ghost v = json::arr_view(ms@);
            let n: usize = ms.len();
            let mut i: usize = 0;
            while i < n
                invariant
                    n == ms@.len(),
                    n == v.len(),
                    i <= n,
                    drops == text::text_set(names@),
                    forall|j: int|
                        0 <= j < i ==> (#[trigger] ms@[j])@ == message_edited(v[j], pass, drops),
                    forall|j: int| i <= j < n ==> (#[trigger] ms@[j])@ == v[j],
                decreases n - i,
            {
                edit_message(&mut ms[i], pass, names);
                i += 1;
            }
            assert(json::arr_view(ms@) =~= v.map_values(
                |m: JsonView| message_edited(m, pass, drops),
            ));
        },
        _ => {},
    }
}

/// Where the client keeps what it knows of projects, with an underscore between the parts.
pub const PROJECTS_DIR: &'static str = ".claude_projects";

/// Where the client keeps its plans, with an underscore between the parts.
pub const PLANS_DIR: &'static str = ".claude_plans";

/// The text is static context that belongs in the first message.
pub open spec fn core_context(t: Seq<char>) -> bool {
    &&& !text::holds(t, "<local-command-stdout>"@)
    &&& !text::holds(t, "<local-command-caveat>"@)
    &&& (text::holds(t, "ToolSearch"@) || text::holds(t, "claudeMd"@) || text::holds(
        t,
        text::path_of(PROJECTS_DIR@),
    ) || text::holds(t, text::path_of(PLANS_DIR@)))
}

/// The text is scaffolding that is of no use once another message follows.
pub open spec fn stale_removable(t: Seq<char>) -> bool {
    ||| text::begins(t, "<system-reminder>"@)
    ||| text::begins(t, "<local-command-stdout>"@)
    ||| text::begins(t, "<local-command-caveat>"@)
    ||| text::begins(t, "<command-name>"@)
}

/// Whether the text is static context that belongs in the first message.
pub fn is_core_context(t: &str) -> (r: bool)
    ensures
        r == core_context(t@),
{
    if text::contains(t, "<local-command-stdout>") || text::contains(t, "<local-command-caveat>") {
        return false;
    }
    text::contains(t, "ToolSearch") || text::contains(t, "claudeMd") || text::contains(
        t,
        text::path(PROJECTS_DIR).as_str(),
    ) || text::contains(t, text::path(PLANS_DIR).as_str())
}

/// Whether the text is scaffolding that is of no use once another message follows.
pub fn is_stale_removable(t: &str) -> (r: bool)
    ensures
        r == stale_removable(t@),
{
    text::starts_with(t, "<system-reminder>") || text::starts_with(t, "<local-command-stdout>")
        || text::starts_with(t, "<local-command-caveat>") || text::starts_with(t, "<command-name>")
}

/// The message with a text for content turned into one block of that text.
pub open spec fn as_blocks(m: JsonView) -> JsonView {
    match json::text_field(m, "content"@) {
        Some(t) => json::with_field(m, "content"@, JsonView::Arr(seq![json::text_block_of(t)])),
        None => m,
    }
}

/// The block holds static context.
pub open spec fn core_block(b: JsonView) -> bool {
    match json::text_field(b, "text"@) {
        Some(t) => core_context(t),
        None => false,
    }
}

/// The block stays in its message, which is the last one (`tail`) or is not.
pub open spec fn block_stays(b: JsonView, tail: bool) -> bool {
    match json::text_field(b, "text"@) {
        Some(t) => !core_context(t) && (tail || !stale_removable(t)),
        None => true,
    }
}

/// The blocks of a message, where its content is a list.
pub open spec fn content_blocks(m: JsonView) -> Seq<JsonView> {
    match json::arr_field(m, "content"@) {
        Some(bs) => bs,
        None => Seq::empty(),
    }
}

/// What stands under the key `k`, or null.
pub open spec fn at_key(v: JsonView, k: Seq<char>) -> JsonView {
    match json::field(v, k) {
        Some(x) => x,
        None => JsonView::Null,
    }
}

/// `v` with `x` under the key `k`; null counts as an object without entries.
pub open spec fn put_at(v: JsonView, k: Seq<char>, x: JsonView) -> JsonView {
    match v {
        JsonView::Null => JsonView::Obj(seq![(k, x)]),
        _ => json::with_field(v, k, x),
    }
}

/// The message without the blocks that leave it.
pub open spec fn sifted(m: JsonView, tail: bool) -> JsonView {
    put_at(
        m,
        "content"@,
        match json::arr_field(m, "content"@) {
            Some(bs) => JsonView::Arr(bs.filter(|b: JsonView| block_stays(b, tail))),
            None => at_key(m, "content"@),
        },
    )
}

/// The static context in the messages, in order.
pub open spec fn cores(ms: Seq<JsonView>) -> Seq<JsonView>
    decreases ms.len(),
{
    if ms.len() == 0 {
        Seq::empty()
    } else {
        cores(ms.drop_last()) + content_blocks(ms.last()).filter(|b: JsonView| core_block(b))
    }
}

/// The text of a block; a block without one counts as empty.
pub open spec fn block_text(b: JsonView) -> Seq<char> {
    match json::text_field(b, "text"@) {
        Some(t) => t,
        None => Seq::empty(),
    }
}

/// Some block has the text `t`.
pub open spec fn text_seen(bs: Seq<JsonView>, t: Seq<char>) -> bool {
    exists|i: int| 0 <= i < bs.len() && block_text(#[trigger] bs[i]) == t
}

/// The first of the blocks with each text.
pub open spec fn firsts(bs: Seq<JsonView>) -> Seq<JsonView>
    decreases bs.len(),
{
    if bs.len() == 0 {
        bs
    } else if text_seen(bs.drop_last(), block_text(bs.last())) {
        firsts(bs.drop_last())
    } else {
        firsts(bs.drop_last()).push(bs.last())
    }
}

/// The first message with the static context in front of its own blocks.
pub open spec fn hoisted_into(m: JsonView, core: Seq<JsonView>) -> JsonView {
    put_at(
        put_at(m, "content"@, JsonView::Arr(firsts(core) + content_blocks(m))),
        "role"@,
        JsonView::Str("user"@),
    )
}

/// The messages with the static context in front of the first one's blocks, where there is any.
pub open spec fn hoisted(ms: Seq<JsonView>, core: Seq<JsonView>) -> Seq<JsonView> {
    if core.len() == 0 {
        ms
    } else {
        ms.update(0, hoisted_into(ms[0], core))
    }
}

/// The message has something to say.
pub open spec fn has_content(m: JsonView) -> bool {
    content_blocks(m).len() > 0
}

/// The messages with every content a list of blocks, without the blocks that leave them.
pub open spec fn all_sifted(ms: Seq<JsonView>) -> Seq<JsonView> {
    Seq::new(ms.len(), |i: int| sifted(ms[i], i == ms.len() - 1))
}

/// The messages with static context hoisted to the first one, stale scaffolding dropped from all but
/// the last, and those left without content dropped.
pub open spec fn restructured(ms: Seq<JsonView>) -> Seq<JsonView> {
    if ms.len() < 2 {
        ms
    } else {
        let listed = ms.map_values(|m: JsonView| as_blocks(m));
        hoisted(all_sifted(listed), cores(listed)).filter(|m: JsonView| has_content(m))
    }
}

/// The body with its messages restructured.
pub open spec fn with_restructured(body: JsonView) -> JsonView {
    match json::arr_field(body, "messages"@) {
        Some(ms) => json::with_field(body, "messages"@, JsonView::Arr(restructured(ms))),
        None => body,
    }
}

/// Messages that can be restructured: each is an object or null, unless there are fewer than two.
pub open spec fn messages_addressable(body: JsonView) -> bool {
    match json::arr_field(body, "messages"@) {
        Some(ms) => ms.len() < 2 || forall|i: int|
            0 <= i < ms.len() ==> (#[trigger] ms[i] is Obj || ms[i] is Null),
        None => true,
    }
}

/// Whether the messages can be restructured.
pub fn can_restructure(body: &Json) -> (r: bool)
    ensures
        r == messages_addressable(body@),
{
    match body.get_items("messages") {
        Some(ms) => {
            let ghost v = json::arr_view(ms@);
            let n: usize = ms.len();
            if n < 2 {
                return true;
            }
            let mut i: usize = 0;
            while i < n
                invariant
                    n == ms@.len(),
                    n >= 2,
                    i <= n,
                    v == json::arr_view(ms@),
                    json::arr_field(body@, "messages"@) == Some(v),
                    forall|j: int| 0 <= j < i ==> (#[trigger] v[j] is Obj || v[j] is Null),
                decreases n - i,
            {
                assert(v[i as int] == ms@[i as int]@);
                match &ms[i] {
                    Json::Obj(_) => {},
                    Json::Null => {},
                    _ => {
                        return false;
                    },
                }
                i += 1;
            }
            true
        },
        None => true,
    }
}

/// Trimming the tools and editing the reminders leaves the messages fit to be restructured.
proof fn lemma_still_addressable(body: JsonView, drops: Set<Seq<char>>, git: bool)
    requires
        messages_addressable(body),
    ensures
        messages_addressable(with_tools_trimmed(body, drops, git)),
        messages_addressable(
            messages_edited(with_tools_trimmed(body, drops, git), Pass::Reminders, drops),
        ),
{
    broadcast use json::group_json_fields;

    reveal_strlit("tools");
    reveal_strlit("messages");
    assert("tools"@.len() != "messages"@.len());
    let b1 = with_tools_trimmed(body, drops, git);
    assert(json::field(b1, "messages"@) == json::field(body, "messages"@));
    let b2 = messages_edited(b1, Pass::Reminders, drops);
    if let Some(ms) = json::arr_field(b1, "messages"@) {
        let es = ms.map_values(|m: JsonView| message_edited(m, Pass::Reminders, drops));
        assert(json::arr_field(b2, "messages"@) == Some(es));
        assert forall|i: int| 0 <= i < es.len() && es.len() >= 2 implies (#[trigger] es[i] is Obj
            || es[i] is Null) by {
            assert(ms[i] is Obj || ms[i] is Null);
        }
    }
}

/// Puts `x` under the key `k`; null becomes an object.
fn put(v: &mut Json, k: &str, x: Json)
    requires
        old(v)@ is Obj || old(v)@ is Null,
    ensures
        final(v)@ == put_at(old(v)@, k@, x@),
{
    let is_null: bool = match v {
        Json::Null => true,
        _ => false,
    };
    if is_null {
        let mut o: Vec<(String, Json)> = Vec::new();
        o.push((k.to_owned(), x));
        assert(json::obj_view(o@) =~= seq![(k@, x@)]);
        *v = Json::Obj(o);
    } else {
        v.set(k, x);
    }
}

/// Parts the blocks that stay in their message from those that hold static context.
fn sift(blocks: Vec<Json>, tail: bool) -> (r: (Vec<Json>, Vec<Json>))
    ensures
        json::arr_view(r.0@) == json::arr_view(blocks@).filter(|b: JsonView| block_stays(b, tail)),
        json::arr_view(r.1@) == json::arr_view(blocks@).filter(|b: JsonView| core_block(b)),
{
    let ghost v = json::arr_view(blocks@);
    let ghost p = |b: JsonView| block_stays(b, tail);
    let ghost q = |b: JsonView| core_block(b);
    let mut kept: Vec<Json> = Vec::new();
    let mut core: Vec<Json> = Vec::new();
    proof {
        text::lemma_filter_all(v, p);
        text::lemma_filter_all(v, q);
        assert(json::arr_view(kept@) =~= Seq::empty());
        assert(json::arr_view(core@) =~= Seq::empty());
    }
    for b in it: blocks
        invariant
            it.seq() == blocks@,
            v == json::arr_view(blocks@),
            p == (|b: JsonView| block_stays(b, tail)),
            q == (|b: JsonView| core_block(b)),
            json::arr_view(kept@) == v.take(it.index() as int).filter(p),
            json::arr_view(core@) == v.take(it.index() as int).filter(q),
    {
        proof {
            text::lemma_filter_step(v, it.index() as int, p);
            text::lemma_filter_step(v, it.index() as int, q);
        }
        let (is_core, stale): (bool, bool) = match b.get_text("text") {
            Some(t) => (is_core_context(t), is_stale_removable(t)),
            None => (false, false),
        };
        if is_core {
            core.push(b);
        } else if tail || !stale {
            kept.push(b);
        }
    }
    assert(v.take(v.len() as int) =~= v);
    (kept, core)
}

/// Takes the blocks that leave a message out of it, and adds the static context among them to
/// `core`.
fn sift_message(m: &mut Json, tail: bool, core: &mut Vec<Json>)
    requires
        old(m)@ is Obj || old(m)@ is Null,
    ensures
        final(m)@ == sifted(old(m)@, tail),
        json::arr_view(final(core)@) == json::arr_view(old(core)@) + content_blocks(
            old(m)@,
        ).filter(|b: JsonView| core_block(b)),
{
    broadcast use json::group_json_fields;

    let ghost m0 = m@;
    let ghost c0 = json::arr_view(core@);
    let mut taken: Option<Vec<Json>> = None;
    match m.get_mut("content") {
        Some(Json::Arr(bs)) => {
            let mut own: Vec<Json> = Vec::new();
            std::mem::swap(bs, &mut own);
            taken = Some(own);
        },
        _ => {},
    }
    match taken {
        Some(bs) => {
            let (kept, mut found): (Vec<Json>, Vec<Json>) = sift(bs, tail);
            let ghost fv = json::arr_view(found@);
            m.set("content", Json::Arr(kept));
            core.append(&mut found);
            assert(json::arr_view(core@) =~= c0 + fv);
            proof {
                json::lemma_with_twice(
                    m0,
                    "content"@,
                    JsonView::Arr(Seq::empty()),
                    JsonView::Arr(json::arr_view(kept@)),
                );
                assert(json::arr_view(Seq::<Json>::empty()) =~= Seq::empty());
            }
        },
        None => {
            if m.get("content").is_none() {
                put(m, "content", Json::Null);
            }
            proof {
                text::lemma_filter_all(Seq::<JsonView>::empty(), |b: JsonView| core_block(b));
                assert(content_blocks(m0) =~= Seq::<JsonView>::empty());
                assert(json::arr_view(core@) =~= c0 + Seq::<JsonView>::empty());
                assert(Seq::<JsonView>::empty().take(0) =~= Seq::<JsonView>::empty());
            }
        },
    }
}

proof fn lemma_text_seen_push(bs: Seq<JsonView>, i: int, t: Seq<char>)
    requires
        0 <= i < bs.len(),
    ensures
        text_seen(bs.take(i + 1), t) == (text_seen(bs.take(i), t) || block_text(bs[i]) == t),
{
    let a = bs.take(i);
    let b = bs.take(i + 1);
    if text_seen(b, t) {
        let j = choose|j: int| 0 <= j < b.len() && block_text(#[trigger] b[j]) == t;
        if j < i {
            assert(a[j] == b[j]);
        }
    }
    if text_seen(a, t) {
        let j = choose|j: int| 0 <= j < a.len() && block_text(#[trigger] a[j]) == t;
        assert(b[j] == a[j]);
    }
    if block_text(bs[i]) == t {
        assert(b[i] == bs[i]);
    }
}

/// The first of the blocks with each text.
fn first_of_each(blocks: Vec<Json>) -> (r: Vec<Json>)
    ensures
        json::arr_view(r@) == firsts(json::arr_view(blocks@)),
{
    let ghost v = json::arr_view(blocks@);
    let mut out: Vec<Json> = Vec::new();
    let mut seen: Vec<String> = Vec::new();
    assert(json::arr_view(out@) =~= firsts(v.take(0)));
    for b in it: blocks
        invariant
            it.seq() == blocks@,
            v == json::arr_view(blocks@),
            json::arr_view(out@) == firsts(v.take(it.index() as int)),
            forall|t: Seq<char>| #[trigger]
                text::text_set(seen@).contains(t) == text_seen(v.take(it.index() as int), t),
    {
        let ghost i = it.index() as int;
        proof {
            assert(v.take(i + 1).drop_last() =~= v.take(i));
        }
        let ghost before = seen@;
        let t: String = match b.get_text("text") {
            Some(t) => t.to_owned(),
            None => String::new(),
        };
        assert(t@ == block_text(v[i]));
        if !text::one_of(&seen, t.as_str()) {
            seen.push(t);
            out.push(b);
        }
        proof {
            assert forall|q: Seq<char>| #[trigger]
                text::text_set(seen@).contains(q) == text_seen(v.take(i + 1), q) by {
                lemma_text_seen_push(v, i, q);
                assert(text::text_set(before).contains(q) == text_seen(v.take(i), q));
                if text::text_set(seen@).contains(q) {
                    let j = choose|j: int| 0 <= j < seen@.len() && (#[trigger] seen@[j])@ == q;
                    if j < before.len() {
                        assert(before[j]@ == q);
                    }
                }
                if text::text_set(before).contains(q) {
                    let j = choose|j: int| 0 <= j < before.len() && (#[trigger] before[j])@ == q;
                    assert(seen@[j]@ == q);
                }
                if block_text(v[i]) == q && !text_seen(v.take(i), q) {
                    assert(seen@[before.len() as int]@ == q);
                }
            }
        }
    }
    assert(v.take(v.len() as int) =~= v);
    out
}

/// Puts the static context in front of the blocks of the first message.
fn hoist_into(m: &mut Json, core: Vec<Json>)
    requires
        old(m)@ is Obj || old(m)@ is Null,
    ensures
        final(m)@ == hoisted_into(old(m)@, json::arr_view(core@)),
{
    broadcast use json::group_json_fields;

    let ghost m0 = m@;
    let mut combined: Vec<Json> = first_of_each(core);
    let ghost cv = json::arr_view(combined@);
    let mut own: Vec<Json> = Vec::new();
    let mut listed: bool = false;
    match m.get_mut("content") {
        Some(Json::Arr(bs)) => {
            listed = true;
            std::mem::swap(bs, &mut own);
        },
        _ => {},
    }
    let ghost ov = json::arr_view(own@);
    assert(ov =~= content_blocks(m0));
    combined.append(&mut own);
    assert(json::arr_view(combined@) =~= cv + ov);
    put(m, "content", Json::Arr(combined));
    proof {
        if listed {
            json::lemma_with_twice(
                m0,
                "content"@,
                JsonView::Arr(json::arr_view(Seq::<Json>::empty())),
                JsonView::Arr(cv + ov),
            );
        }
    }
    put(m, "role", Json::Str("user".to_owned()));
}

/// The messages that have something to say.
fn keep_with_content(ms: Vec<Json>) -> (r: Vec<Json>)
    ensures
        json::arr_view(r@) == json::arr_view(ms@).filter(|m: JsonView| has_content(m)),
{
    let ghost v = json::arr_view(ms@);
    let ghost p = |m: JsonView| has_content(m);
    let mut out: Vec<Json> = Vec::new();
    proof {
        text::lemma_filter_all(v, p);
        assert(json::arr_view(out@) =~= Seq::empty());
    }
    for m in it: ms
        invariant
            it.seq() == ms@,
            v == json::arr_view(ms@),
            p == (|m: JsonView| has_content(m)),
            json::arr_view(out@) == v.take(it.index() as int).filter(p),
    {
        proof {
            text::lemma_filter_step(v, it.index() as int, p);
        }
        let full: bool = match m.get_items("content") {
            Some(bs) => bs.len() > 0,
            None => false,
        };
        if full {
            out.push(m);
        }
    }
    assert(v.take(v.len() as int) =~= v);
    out
}

/// Turns a text for content into one block of that text.
fn list_content(m: &mut Json)
    ensures
        final(m)@ == as_blocks(old(m)@),
        old(m)@ is Obj ==> final(m)@ is Obj,
        old(m)@ is Null ==> final(m)@ is Null,
{
    let lone: Option<String> = match m.get_text("content") {
        Some(t) => Some(t.to_owned()),
        None => None,
    };
    match lone {
        Some(t) => {
            let ghost tv = t@;
            let mut bs: Vec<Json> = Vec::new();
            bs.push(json::text_block(t));
            assert(json::arr_view(bs@) =~= seq![json::text_block_of(tv)]);
            m.set("content", Json::Arr(bs));
        },
        None => {},
    }
}

/// Restructures the messages.
fn restructure(messages: Vec<Json>) -> (r: Vec<Json>)
    requires
        messages@.len() < 2 || forall|i: int|
            0 <= i < messages@.len() ==> ((#[trigger] messages@[i])@ is Obj
                || messages@[i]@ is Null),
    ensures
        json::arr_view(r@) == restructured(json::arr_view(messages@)),
{
    let n: usize = messages.len();
    if n < 2 {
        return messages;
    }
    let mut ms: Vec<Json> = messages;
    let ghost v = json::arr_view(ms@);
    let ghost listed = v.map_values(|m: JsonView| as_blocks(m));
    let mut i: usize = 0;
    while i < n
        invariant
            n == ms@.len(),
            n == v.len(),
            i <= n,
            forall|j: int| 0 <= j < i ==> (#[trigger] ms@[j])@ == as_blocks(v[j]),
            forall|j: int| i <= j < n ==> (#[trigger] ms@[j])@ == v[j],
            forall|j: int| 0 <= j < n ==> ((#[trigger] ms@[j])@ is Obj || ms@[j]@ is Null),
        decreases n - i,
    {
        list_content(&mut ms[i]);
        i += 1;
    }
    assert(json::arr_view(ms@) =~= listed);
    let mut core: Vec<Json> = Vec::new();
    let ghost ms1 = ms@;
    i = 0;
    assert(json::arr_view(core@) =~= cores(listed.take(0)));
    while i < n
        invariant
            n == ms@.len(),
            n == listed.len(),
            i <= n,
            forall|j: int|
                0 <= j < i ==> (#[trigger] ms@[j])@ == sifted(listed[j], j == n - 1) && ms@[j]@ is Obj,
            forall|j: int| i <= j < n ==> (#[trigger] ms@[j])@ == listed[j],
            forall|j: int| i <= j < n ==> ((#[trigger] ms@[j])@ is Obj || ms@[j]@ is Null),
            json::arr_view(core@) == cores(listed.take(i as int)),
        decreases n - i,
    {
        proof {
            assert(listed.take(i + 1).drop_last() =~= listed.take(i as int));
        }
        sift_message(&mut ms[i], i == n - 1, &mut core);
        i += 1;
    }
    proof {
        assert(listed.take(n as int) =~= listed);
        assert(json::arr_view(ms@) =~= all_sifted(listed));
    }
    if core.len() > 0 {
        let ghost cv = json::arr_view(core@);
        let ghost before = json::arr_view(ms@);
        hoist_into(&mut ms[0], core);
        assert(json::arr_view(ms@) =~= before.update(0, hoisted_into(before[0], cv)));
    } else {
        assert(json::arr_view(core@).len() == 0);
    }
    keep_with_content(ms)
}

impl Transform {
    /// What the transform makes of a request body.
    pub open spec fn applied(self, body: JsonView) -> JsonView {
        let b1 = with_tools_trimmed(body, self.drops(), self.trims());
        let b2 = if self.drops() == Set::<Seq<char>>::empty() {
            b1
        } else {
            messages_edited(b1, Pass::Reminders, self.drops())
        };
        let b3 = with_restructured(b2);
        if self.strips() {
            messages_edited(b3, Pass::Escapes, self.drops())
        } else {
            b3
        }
    }

    /// Drops tools and trims the Bash tool.
    fn trim_tools(&self, body: &mut Json)
        ensures
            final(body)@ == with_tools_trimmed(old(body)@, self.drops(), self.trims()),
    {
        broadcast use json::group_json_fields;

        match body.get_mut("tools") {
            Some(Json::Arr(a)) => {
                let ghost a0 = json::arr_view(a@);
                let mut own: Vec<Json> = Vec::new();
                std::mem::swap(a, &mut own);
                let mut kept: Vec<Json> = keep_tools(own, &self.drop_tools);
                let ghost kv = json::arr_view(kept@);
                if self.trim_bash_git {
                    let n: usize = kept.len();
                    let mut i: usize = 0;
                    while i < n
                        invariant
                            n == kept@.len(),
                            n == kv.len(),
                            i <= n,
                            forall|j: int| 0 <= j < i ==> (#[trigger] kept@[j])@ == git_trimmed(kv[j]),
                            forall|j: int| i <= j < n ==> (#[trigger] kept@[j])@ == kv[j],
                        decreases n - i,
                    {
                        trim_git(&mut kept[i]);
                        i += 1;
                    }
                    assert(json::arr_view(kept@) =~= kv.map_values(|t: JsonView| git_trimmed(t)));
                }
                std::mem::swap(a, &mut kept);
            },
            _ => {},
        }
    }

    /// Restructures the messages of the body. What it leaves it can be given again, and leaves as it
    /// is.
    pub fn restructure_v123(&self, body: &mut Json)
        requires
            messages_addressable(old(body)@),
        ensures
            final(body)@ == with_restructured(old(body)@),
            messages_addressable(final(body)@),
            with_restructured(final(body)@) == final(body)@,
    {
        broadcast use json::group_json_fields;

        proof {
            transform_laws::law_bodies_restructure_once(body@);
        }
        match body.get_mut("messages") {
            Some(Json::Arr(ms)) => {
                let ghost v = json::arr_view(ms@);
                let mut own: Vec<Json> = Vec::new();
                std::mem::swap(ms, &mut own);
                assert forall|i: int| 0 <= i < own@.len() && own@.len() >= 2 implies ((
                #[trigger] own@[i])@ is Obj || own@[i]@ is Null) by {
                    assert(v[i] == own@[i]@);
                }
                let mut next: Vec<Json> = restructure(own);
                std::mem::swap(ms, &mut next);
            },
            _ => {},
        }
    }

    /// Applies the transform to a request body.
    pub fn apply(&self, body: &mut Json)
        requires
            messages_addressable(old(body)@),
        ensures
            final(body)@ == self.applied(old(body)@),
    {
        proof {
            lemma_still_addressable(body@, self.drops(), self.trims());
        }
        self.trim_tools(body);
        if self.drop_tools.len() > 0 {
            proof {
                assert(self.drops().contains(self.drop_tools@[0]@));
            }
            edit_messages(body, Pass::Reminders, &self.drop_tools);
        } else {
            assert(self.drops() =~= Set::<Seq<char>>::empty());
        }
        self.restructure_v123(body);
        if self.strip_ansi {
            edit_messages(body, Pass::Escapes, &self.drop_tools);
        }
    }
}

} // verus!
