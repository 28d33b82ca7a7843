//! The regular expressions that texts are searched with, and the searches, which the `regex` crate
//! makes.

use vstd::prelude::*;

use crate::text;

verus! {

/// Terminal escape sequences.
pub const ANSI: &'static str = r"\x1b\[[0-9;]*[A-Za-z]";

/// Reminders to the model; the group is what stands between the tags.
pub const REMINDER: &'static str = r"(?s)<system-reminder>(.*?)</system-reminder>";

/// The words by which a reminder that lists deferred tools is known.
pub const DEFERRED: &'static str = r"(?i)deferred tools|ToolSearch";

/// The input, cache creation and cache read counts at the start of a usage report.
pub const USAGE_START: &'static str =
    r#""usage":\{"input_tokens":(\d+),"cache_creation_input_tokens":(\d+),"cache_read_input_tokens":(\d+)"#;

/// The cache creation counts by lifetime.
pub const USAGE_SPLIT: &'static str =
    r#""ephemeral_5m_input_tokens":(\d+),"ephemeral_1h_input_tokens":(\d+)"#;

/// An output count.
pub const USAGE_OUTPUT: &'static str = r#""output_tokens":(\d+)"#;

/// The families that prices are known of.
pub const KNOWN_FAMILY: &'static str = r"(?i)opus|haiku|sonnet|fable|mythos";

/// The model that a response names.
pub const RESPONSE_MODEL: &'static str = r#""model":"([^"]+)""#;

/// The working directory that a system prompt names.
pub const WORKING_DIR: &'static str =
    r#"(?:cwd|[Ww]orking directory)["\s:]*?(/[^"\\,\n]{3,160})"#;

/// The model id that system prompts call themselves by, with underscores for its hyphens.
pub const SOURCE_ID: &'static str = r"claude_opus_4_7(?:_\d{8})?";

/// The model name that system prompts call themselves by.
pub const SOURCE_NAME: &'static str = r"Opus 4\.7";

/// The date at the end of a model id.
pub const TRAILING_DATE: &'static str = r"-\d{8}$";

/// `p` is one of the expressions above.
pub open spec fn known_pattern(p: Seq<char>) -> bool {
    ||| p == ANSI@
    ||| p == REMINDER@
    ||| p == DEFERRED@
    ||| p == USAGE_START@
    ||| p == USAGE_SPLIT@
    ||| p == USAGE_OUTPUT@
    ||| p == KNOWN_FAMILY@
    ||| p == RESPONSE_MODEL@
    ||| p == WORKING_DIR@
    ||| p == text::kebab_of(SOURCE_ID@)
    ||| p == SOURCE_NAME@
    ||| p == TRAILING_DATE@
}

/// The text `b` behind the text `a`, with a line feed between them.
pub open spec fn lines_joined(a: Seq<char>, b: Seq<char>) -> Seq<char> {
    a + "\n"@ + b
}

/// `p` is one of the expressions for token counts: digits behind a fixed text. A match holds no line
/// feed, and whether there is one does not depend on what stands around it.
pub open spec fn within_lines(p: Seq<char>) -> bool {
    p == USAGE_START@ || p == USAGE_SPLIT@ || p == USAGE_OUTPUT@
}

/// What the groups of one match hold.
pub open spec fn groups_of(g: Seq<Option<String>>) -> Seq<Option<Seq<char>>> {
    g.map_values(|o: Option<String>| text::opt_text(o))
}

/// What the groups of an optional match hold.
pub open spec fn opt_groups(g: Option<Vec<Option<String>>>) -> Option<Seq<Option<Seq<char>>>> {
    match g {
        Some(v) => Some(groups_of(v@)),
        None => None,
    }
}

/// What the groups of several matches hold.
pub open spec fn matches_of(m: Seq<Vec<Option<String>>>) -> Seq<Seq<Option<Seq<char>>>> {
    m.map_values(|g: Vec<Option<String>>| groups_of(g@))
}

/// The text of the group `i`, where it took part in the match.
pub open spec fn group_of(g: Seq<Option<Seq<char>>>, i: int) -> Option<Seq<char>> {
    if 0 <= i < g.len() {
        g[i]
    } else {
        None
    }
}

/// The pieces with the fillings between them, in turn.
pub open spec fn woven(pieces: Seq<Seq<char>>, fillings: Seq<Seq<char>>) -> Seq<char>
    decreases pieces.len(),
{
    if pieces.len() == 0 {
        Seq::empty()
    } else if pieces.len() == 1 || fillings.len() == 0 {
        pieces[0]
    } else {
        pieces[0] + fillings[0] + woven(pieces.drop_first(), fillings.drop_first())
    }
}

/// The whole text of each match.
pub open spec fn wholes(m: Seq<Seq<Option<Seq<char>>>>) -> Seq<Seq<char>> {
    m.map_values(
        |g: Seq<Option<Seq<char>>>|
            match group_of(g, 0) {
                Some(t) => t,
                None => Seq::empty(),
            },
    )
}

/// What `regex::Regex::is_match` answers for the expression `p` on the text `t`.
pub uninterp spec fn regex_is_match(p: Seq<char>, t: Seq<char>) -> bool;

/// The groups of the match that `regex::Regex::captures` finds for the expression `p` in the text
/// `t`.
pub uninterp spec fn regex_captures(p: Seq<char>, t: Seq<char>) -> Option<Seq<Option<Seq<char>>>>;

/// The groups of the matches that `regex::Regex::captures_iter` goes through for the expression `p`
/// in the text `t`.
pub uninterp spec fn regex_captures_iter(p: Seq<char>, t: Seq<char>) -> Seq<
    Seq<Option<Seq<char>>>,
>;

/// What `regex::Regex::replace` makes of the text `t` for the expression `p` and the replacement
/// `rep`.
pub uninterp spec fn regex_replace(p: Seq<char>, t: Seq<char>, rep: Seq<char>) -> Seq<char>;

/// What `regex::Regex::replace_all` makes of the text `t` for the expression `p` and the replacement
/// `rep`.
pub uninterp spec fn regex_replace_all(p: Seq<char>, t: Seq<char>, rep: Seq<char>) -> Seq<char>;

/// The texts that stand before the counts of the expression `p`.
pub open spec fn count_keys(p: Seq<char>) -> Seq<Seq<char>> {
    if p == USAGE_START@ {
        seq![
            "\"usage\":{\"input_tokens\":"@,
            ",\"cache_creation_input_tokens\":"@,
            ",\"cache_read_input_tokens\":"@,
        ]
    } else if p == USAGE_SPLIT@ {
        seq!["\"ephemeral_5m_input_tokens\":"@, ",\"ephemeral_1h_input_tokens\":"@]
    } else {
        seq!["\"output_tokens\":"@]
    }
}

/// The position behind the ASCII digits that stand at `i`.
pub open spec fn behind_digits(t: Seq<char>, i: int) -> int
    decreases t.len() - i,
{
    if 0 <= i < t.len() && '0' <= t[i] <= '9' {
        behind_digits(t, i + 1)
    } else {
        i
    }
}

/// The counts behind the keys that stand at `i` one behind the other, and the position behind them.
pub open spec fn counts_at(t: Seq<char>, keys: Seq<Seq<char>>, i: int) -> Option<
    (Seq<Option<Seq<char>>>, int),
>
    decreases keys.len(),
{
    if keys.len() == 0 {
        Some((Seq::empty(), i))
    } else {
        let from = i + keys[0].len();
        let e = behind_digits(t, from);
        if text::occurs_at(t, keys[0], i) && e > from {
            match counts_at(t, keys.drop_first(), e) {
                Some((g, end)) => Some((seq![Some(t.subrange(from, e))] + g, end)),
                None => None,
            }
        } else {
            None
        }
    }
}

/// The first place at or behind `i` where the keys stand with their counts: the whole and the counts.
pub open spec fn first_counts(t: Seq<char>, keys: Seq<Seq<char>>, i: int) -> Option<
    Seq<Option<Seq<char>>>,
>
    decreases t.len() - i,
{
    if i < 0 || i >= t.len() {
        None
    } else {
        match counts_at(t, keys, i) {
            Some((g, e)) => Some(seq![Some(t.subrange(i, e))] + g),
            None => first_counts(t, keys, i + 1),
        }
    }
}

/// Every place at or behind `i` where the keys stand with their counts.
pub open spec fn each_counts(t: Seq<char>, keys: Seq<Seq<char>>, i: int) -> Seq<
    Seq<Option<Seq<char>>>,
>
    decreases t.len() - i,
{
    if i < 0 || i >= t.len() {
        Seq::empty()
    } else {
        match counts_at(t, keys, i) {
            Some((g, e)) => if i < e <= t.len() {
                seq![seq![Some(t.subrange(i, e))] + g] + each_counts(t, keys, e)
            } else {
                Seq::empty()
            },
            None => each_counts(t, keys, i + 1),
        }
    }
}

/// No digits behind a colon are followed by a character beyond ASCII, which could be a digit too.
pub open spec fn plain_counts(t: Seq<char>) -> bool {
    forall|i: int|
        0 < i <= t.len() && (#[trigger] t[i - 1]) == ':' ==> behind_digits(t, i) >= t.len()
            || t[behind_digits(t, i)] <= '\u{7f}'
}

/// The first match of an expression for token counts in the text `t`.
pub open spec fn counts_found(p: Seq<char>, t: Seq<char>) -> Option<Seq<Option<Seq<char>>>> {
    if plain_counts(t) {
        first_counts(t, count_keys(p), 0)
    } else {
        regex_captures(p, t)
    }
}

/// The matches of an expression for token counts in the text `t`.
pub open spec fn counts_each(p: Seq<char>, t: Seq<char>) -> Seq<Seq<Option<Seq<char>>>> {
    if plain_counts(t) {
        each_counts(t, count_keys(p), 0)
    } else {
        regex_captures_iter(p, t)
    }
}

/// `found` is what is found in the first part of the text `t`, where something is, whatever lines
/// follow it.
pub open spec fn first_stays(
    p: Seq<char>,
    t: Seq<char>,
    found: Option<Seq<Option<Seq<char>>>>,
) -> bool {
    forall|a: Seq<char>, b: Seq<char>|
        t == #[trigger] lines_joined(a, b) && counts_found(p, a) is Some ==> found
            == counts_found(p, a)
}

/// `found` is what is found in the first part of the text `t` and then what is found in the lines
/// that follow it.
pub open spec fn matches_add_up(
    p: Seq<char>,
    t: Seq<char>,
    found: Seq<Seq<Option<Seq<char>>>>,
) -> bool {
    forall|a: Seq<char>, b: Seq<char>|
        t == #[trigger] lines_joined(a, b) ==> found == counts_each(p, a) + counts_each(p, b)
}

/// A text in lower case names one of the families that prices are known of.
pub open spec fn names_family(m: Seq<char>) -> bool {
    ||| text::holds(m, "opus"@)
    ||| text::holds(m, "haiku"@)
    ||| text::holds(m, "sonnet"@)
    ||| text::holds(m, "fable"@)
    ||| text::holds(m, "mythos"@)
}

/// The model id names a family that prices are known of, in whatever case.
pub open spec fn family_known(model: Seq<char>) -> bool {
    if vstd::utf8::is_ascii_chars(model) {
        names_family(text::ascii_lower_of(model))
    } else {
        regex_is_match(KNOWN_FAMILY@, model)
    }
}

/// A text in lower case holds the words by which a list of deferred tools is known.
pub open spec fn lists_deferred(m: Seq<char>) -> bool {
    text::holds(m, "deferred tools"@) || text::holds(m, "toolsearch"@)
}

/// The text holds the words by which a list of deferred tools is known, in whatever case.
pub open spec fn deferred_listed(t: Seq<char>) -> bool {
    if vstd::utf8::is_ascii_chars(t) {
        lists_deferred(text::ascii_lower_of(t))
    } else {
        regex_is_match(DEFERRED@, t)
    }
}

/// The character is a decimal digit: one of ASCII, or one beyond it.
pub open spec fn digit_like(c: char) -> bool {
    '0' <= c <= '9' || c > '\u{7f}'
}

/// Every group behind the whole match holds digits, at least one.
pub open spec fn counts(g: Seq<Option<Seq<char>>>) -> bool {
    forall|i: int|
        1 <= i < g.len() ==> ((#[trigger] g[i]) matches Some(t) && t.len() > 0 && forall|j: int|
            0 <= j < t.len() ==> digit_like(#[trigger] t[j]))
}

/// Where there is a match, its groups hold digits.
pub open spec fn counts_if_any(found: Option<Seq<Option<Seq<char>>>>) -> bool {
    found matches Some(g) ==> counts(g)
}

/// The groups of every match hold digits.
pub open spec fn all_counts(found: Seq<Seq<Option<Seq<char>>>>) -> bool {
    forall|i: int| 0 <= i < found.len() ==> counts(#[trigger] found[i])
}

/// The name of a model that is given at the position `i`: at least one character between quotes,
/// behind the key.
pub open spec fn model_at(t: Seq<char>, i: int) -> Option<Seq<char>> {
    let from = i + "\"model\":\""@.len();
    if text::occurs_at(t, "\"model\":\""@, i) {
        match text::first_from(t, "\""@, from) {
            Some(e) => if e > from {
                Some(t.subrange(from, e))
            } else {
                None
            },
            None => None,
        }
    } else {
        None
    }
}

/// The first name of a model that is given at or behind the position `i`.
pub open spec fn first_model(t: Seq<char>, i: int) -> Option<Seq<char>>
    decreases t.len() - i,
{
    if i >= t.len() {
        None
    } else if model_at(t, i) is Some {
        model_at(t, i)
    } else {
        first_model(t, i + 1)
    }
}

/// The position behind the words for a working directory that stand at `i`, where they do.
pub open spec fn directory_words(t: Seq<char>, i: int) -> Option<int> {
    if text::occurs_at(t, "cwd"@, i) {
        Some(i + "cwd"@.len())
    } else if text::occurs_at(t, "working directory"@, i) || text::occurs_at(
        t,
        "Working directory"@,
        i,
    ) {
        Some(i + "working directory"@.len())
    } else {
        None
    }
}

/// The position behind the quotes, colons and ASCII white space that stand at `i`.
pub open spec fn behind_gap(t: Seq<char>, i: int) -> int
    decreases t.len() - i,
{
    if 0 <= i < t.len() && (t[i] == '"' || t[i] == ':' || t[i] == ' ' || '\t' <= t[i] <= '\r') {
        behind_gap(t, i + 1)
    } else {
        i
    }
}

/// The position behind the characters of a path that stand at `i`, at most `n` of them.
pub open spec fn behind_path(t: Seq<char>, i: int, n: nat) -> int
    decreases n,
{
    if n > 0 && 0 <= i < t.len() && t[i] != '"' && t[i] != '\\' && t[i] != ',' && t[i] != '\n' {
        behind_path(t, i + 1, (n - 1) as nat)
    } else {
        i
    }
}

/// The working directory that is named at the position `i`: a slash and at least three characters of
/// a path behind the words.
pub open spec fn directory_at(t: Seq<char>, i: int) -> Option<Seq<char>> {
    match directory_words(t, i) {
        Some(k) => {
            let from = behind_gap(t, k);
            let e = behind_path(t, from + 1, 160);
            if from < t.len() && t[from] == '/' && e >= from + 4 {
                Some(t.subrange(from, e))
            } else {
                None
            }
        },
        None => None,
    }
}

/// The first working directory that is named at or behind the position `i`.
pub open spec fn first_directory(t: Seq<char>, i: int) -> Option<Seq<char>>
    decreases t.len() - i,
{
    if i >= t.len() {
        None
    } else if directory_at(t, i) is Some {
        directory_at(t, i)
    } else {
        first_directory(t, i + 1)
    }
}

/// What stands between the words for a working directory and what follows is ASCII, so that no other
/// white space is among it.
pub open spec fn plain_gaps(t: Seq<char>) -> bool {
    forall|i: int|
        (#[trigger] directory_words(t, i)) matches Some(k) ==> behind_gap(t, k) >= t.len()
            || t[behind_gap(t, k)] <= '\u{7f}'
}

/// The text of the first group of a match.
pub open spec fn first_group(found: Option<Seq<Option<Seq<char>>>>) -> Option<Seq<char>> {
    match found {
        Some(g) => group_of(g, 1),
        None => None,
    }
}

/// The working directory that the text names first.
pub open spec fn directory_in(t: Seq<char>) -> Option<Seq<char>> {
    if plain_gaps(t) {
        first_directory(t, 0)
    } else {
        first_group(regex_captures(WORKING_DIR@, t))
    }
}

/// The position behind the digits and semicolons that stand at `i`.
pub open spec fn behind_parameters(t: Seq<char>, i: int) -> int
    decreases t.len() - i,
{
    if 0 <= i < t.len() && ('0' <= t[i] <= '9' || t[i] == ';') {
        behind_parameters(t, i + 1)
    } else {
        i
    }
}

/// The position behind the terminal escape sequence that stands at `i`, where one does: the escape
/// character, a bracket, parameters and a letter.
pub open spec fn escape_end(t: Seq<char>, i: int) -> Option<int> {
    let e = behind_parameters(t, i + 2);
    if 0 <= i && i + 2 <= e < t.len() && t[i] == '\u{1b}' && t[i + 1] == '[' && ('A' <= t[e] <= 'Z'
        || 'a' <= t[e] <= 'z') {
        Some(e + 1)
    } else {
        None
    }
}

/// The text from the position `i` on without terminal escape sequences.
pub open spec fn without_escapes(t: Seq<char>, i: int) -> Seq<char>
    decreases t.len() - i,
{
    if i < 0 || i >= t.len() {
        Seq::empty()
    } else {
        match escape_end(t, i) {
            Some(e) => if e > i {
                without_escapes(t, e)
            } else {
                Seq::empty()
            },
            None => seq![t[i]] + without_escapes(t, i + 1),
        }
    }
}

/// The text with `new` in place of `needle`, wherever that stands.
pub open spec fn replaced(t: Seq<char>, needle: Seq<char>, new: Seq<char>) -> Seq<char>
    decreases t.len(),
{
    match text::first_from(t, needle, 0) {
        Some(i) => if needle.len() > 0 && 0 <= i && i + needle.len() <= t.len() {
            t.take(i) + new + replaced(t.skip(i + needle.len()), needle, new)
        } else {
            t
        },
        None => t,
    }
}

/// A hyphen and eight digits stand at the position `i`.
pub open spec fn date_at(t: Seq<char>, i: int) -> bool {
    &&& 0 <= i
    &&& i + 9 <= t.len()
    &&& t[i] == '-'
    &&& forall|j: int| i < j < i + 9 ==> '0' <= #[trigger] t[j] <= '9'
}

/// The source model's id without a date.
pub open spec fn bare_id() -> Seq<char> {
    text::kebab_of("claude_opus_4_7"@)
}

/// The text from the position `i` on with `new` in place of the source model's id and the date behind
/// it, wherever that stands.
pub open spec fn ids_replaced(t: Seq<char>, new: Seq<char>, i: int) -> Seq<char>
    decreases t.len() - i,
{
    let e = i + bare_id().len();
    if i < 0 || i >= t.len() {
        Seq::empty()
    } else if text::occurs_at(t, bare_id(), i) && e > i {
        new + ids_replaced(
            t,
            new,
            if date_at(t, e) {
                e + 9
            } else {
                e
            },
        )
    } else {
        seq![t[i]] + ids_replaced(t, new, i + 1)
    }
}

/// The text ends in a hyphen and eight digits.
pub open spec fn dated(t: Seq<char>) -> bool {
    date_at(t, t.len() - 9)
}

/// The text without the date that it ends in.
pub open spec fn undated(t: Seq<char>) -> Seq<char> {
    if dated(t) {
        t.take(t.len() - 9)
    } else {
        t
    }
}

/// The model id without the date at its end.
pub open spec fn date_off(model: Seq<char>) -> Seq<char> {
    if vstd::utf8::is_ascii_chars(model) {
        undated(model)
    } else {
        regex_replace(TRAILING_DATE@, model, ""@)
    }
}

/// The text with `new` in place of the source model's id. Where `new` has a dollar sign, that stands
/// for a group of the match.
pub open spec fn ids_put(t: Seq<char>, new: Seq<char>) -> Seq<char> {
    if vstd::utf8::is_ascii_chars(t) && !new.contains('$') {
        ids_replaced(t, new, 0)
    } else {
        regex_replace_all(text::kebab_of(SOURCE_ID@), t, new)
    }
}

/// The text with `new` in place of the source model's name. Where `new` has a dollar sign, that
/// stands for a group of the match.
pub open spec fn names_put(t: Seq<char>, new: Seq<char>) -> Seq<char> {
    if !new.contains('$') {
        replaced(t, "Opus 4.7"@, new)
    } else {
        regex_replace_all(SOURCE_NAME@, t, new)
    }
}

/// The position behind the reminder that stands at `i`, where one does: it goes on to the first
/// closing tag.
pub open spec fn reminder_end(t: Seq<char>, i: int) -> Option<int> {
    if text::occurs_at(t, "<system-reminder>"@, i) {
        match text::first_from(t, "</system-reminder>"@, i + "<system-reminder>"@.len()) {
            Some(e) => Some(e + "</system-reminder>"@.len()),
            None => None,
        }
    } else {
        None
    }
}

/// The reminders in the text from the position `i` on: each whole, and what stands between its tags.
pub open spec fn reminders(t: Seq<char>, i: int) -> Seq<Seq<Option<Seq<char>>>>
    decreases t.len() - i,
{
    if i < 0 || i >= t.len() {
        Seq::empty()
    } else {
        match reminder_end(t, i) {
            Some(e) => if i < e <= t.len() {
                seq![
                    seq![
                        Some(t.subrange(i, e)),
                        Some(
                            t.subrange(
                                i + "<system-reminder>"@.len(),
                                e - "</system-reminder>"@.len(),
                            ),
                        ),
                    ],
                ] + reminders(t, e)
            } else {
                Seq::empty()
            },
            None => reminders(t, i + 1),
        }
    }
}

/// What stands before, between and after the reminders in the text from the position `i` on, the
/// first of it from the position `from`.
pub open spec fn around_reminders(t: Seq<char>, from: int, i: int) -> Seq<Seq<char>>
    decreases t.len() - i,
{
    if i < 0 || i >= t.len() {
        seq![t.skip(from)]
    } else {
        match reminder_end(t, i) {
            Some(e) => if i < e <= t.len() {
                seq![t.subrange(from, i)] + around_reminders(t, e, e)
            } else {
                Seq::empty()
            },
            None => around_reminders(t, from, i + 1),
        }
    }
}

/// The reminders and what stands around them, in turn, are the text.
pub proof fn law_reminders_and_the_rest_are_the_text(t: Seq<char>, from: int, i: int)
    requires
        0 <= from <= i <= t.len(),
    ensures
        woven(around_reminders(t, from, i), wholes(reminders(t, i))) == t.skip(from),
        around_reminders(t, from, i).len() == reminders(t, i).len() + 1,
    decreases t.len() - i,
{
    reveal_with_fuel(woven, 2);
    if i < t.len() {
        match reminder_end(t, i) {
            Some(e) => {
                let open = "<system-reminder>"@;
                let close = "</system-reminder>"@;
                reveal_strlit("</system-reminder>");
                text::lemma_first_from(t, close, i + open.len());
                assert(i < e <= t.len());
                law_reminders_and_the_rest_are_the_text(t, e, e);
                let pieces = around_reminders(t, from, i);
                let found = reminders(t, i);
                assert(pieces.drop_first() =~= around_reminders(t, e, e));
                assert(found.drop_first() =~= reminders(t, e));
                assert(wholes(found).drop_first() =~= wholes(reminders(t, e)));
                assert(wholes(found)[0] == t.subrange(i, e));
                assert(t.skip(from) =~= t.subrange(from, i) + t.subrange(i, e) + t.skip(e));
            },
            None => {
                law_reminders_and_the_rest_are_the_text(t, from, i + 1);
            },
        }
    } else {
        assert(around_reminders(t, from, i).len() == 1);
    }
}

/// `regex::Regex::is_match`: whether the expression matches somewhere in the text. In a text of
/// ASCII characters the expressions that ignore case find what is in the text in lower case.
#[verifier::external_body]
pub(crate) fn is_match(p: &str, t: &str) -> (r: bool)
    requires
        known_pattern(p@),
    ensures
        r == regex_is_match(p@, t@),
        p@ == KNOWN_FAMILY@ && vstd::utf8::is_ascii_chars(t@) ==> r == names_family(
            text::ascii_lower_of(t@),
        ),
        p@ == DEFERRED@ && vstd::utf8::is_ascii_chars(t@) ==> r == lists_deferred(
            text::ascii_lower_of(t@),
        ),
{
    regex::Regex::new(p).unwrap().is_match(t)
}

/// `regex::Regex::captures`: the groups of the first match, the whole match first. For the token
/// counts a match in one line stays the first, whatever lines follow, and its groups hold digits: the
/// ASCII ones behind the keys, where no other character could be one. The model that a response names
/// is what stands between quotes behind the first key that has something there. The working directory
/// is the path behind the first words for one, where no white space beyond ASCII could be between.
#[verifier::external_body]
pub(crate) fn captures(p: &str, t: &str) -> (r: Option<Vec<Option<String>>>)
    requires
        known_pattern(p@),
    ensures
        opt_groups(r) == regex_captures(p@, t@),
        within_lines(p@) ==> first_stays(p@, t@, opt_groups(r)),
        within_lines(p@) ==> counts_if_any(opt_groups(r)),
        within_lines(p@) && plain_counts(t@) ==> opt_groups(r) == first_counts(
            t@,
            count_keys(p@),
            0,
        ),
        p@ == RESPONSE_MODEL@ ==> first_group(opt_groups(r)) == first_model(t@, 0),
        p@ == WORKING_DIR@ && plain_gaps(t@) ==> first_group(opt_groups(r)) == first_directory(
            t@,
            0,
        ),
{
    let re = regex::Regex::new(p).unwrap();
    re.captures(t).map(|c| c.iter().map(|m| m.map(|m| m.as_str().to_string())).collect())
}

/// `regex::Regex::captures_iter`: the groups of every match, the whole match first. For the token counts the
/// matches in lines that follow one another are those in the first and those in the rest, and their
/// groups hold digits, as for the first match. A reminder goes from its opening tag to the first closing one.
#[verifier::external_body]
pub(crate) fn captures_iter(p: &str, t: &str) -> (r: Vec<Vec<Option<String>>>)
    requires
        known_pattern(p@),
    ensures
        matches_of(r@) == regex_captures_iter(p@, t@),
        within_lines(p@) ==> matches_add_up(p@, t@, matches_of(r@)),
        within_lines(p@) ==> all_counts(matches_of(r@)),
        within_lines(p@) && plain_counts(t@) ==> matches_of(r@) == each_counts(
            t@,
            count_keys(p@),
            0,
        ),
        p@ == REMINDER@ ==> matches_of(r@) == reminders(t@, 0),
{
    let re = regex::Regex::new(p).unwrap();
    re.captures_iter(t).map(
        |c| c.iter().map(|m| m.map(|m| m.as_str().to_string())).collect(),
    ).collect()
}

/// `regex::Regex::split`: the texts before, between and after the reminders in a text.
#[verifier::external_body]
pub(crate) fn split(p: &str, t: &str) -> (r: Vec<String>)
    requires
        p@ == REMINDER@,
    ensures
        text::texts(r@) == around_reminders(t@, 0, 0),
{
    regex::Regex::new(p).unwrap().split(t).map(|s| s.to_string()).collect()
}

/// `regex::Regex::replace`: the text with its first match replaced. A date at the end of a text of
/// ASCII characters is taken off where nothing is put in.
#[verifier::external_body]
pub(crate) fn replace(p: &str, t: &str, rep: &str) -> (r: String)
    requires
        known_pattern(p@),
    ensures
        r@ == regex_replace(p@, t@, rep@),
        p@ == TRAILING_DATE@ && rep@.len() == 0 && vstd::utf8::is_ascii_chars(t@) ==> r@
            == undated(t@),
{
    regex::Regex::new(p).unwrap().replace(t, rep).into_owned()
}

/// `regex::Regex::replace_all`: the text with every match replaced. A replacement without a dollar
/// sign is put in as it stands: in place of the source model's name, and in a text of ASCII
/// characters in place of its id. Terminal escape sequences are left out where nothing is put in.
#[verifier::external_body]
pub(crate) fn replace_all(p: &str, t: &str, rep: &str) -> (r: String)
    requires
        known_pattern(p@),
    ensures
        r@ == regex_replace_all(p@, t@, rep@),
        p@ == ANSI@ && rep@.len() == 0 ==> r@ == without_escapes(t@, 0),
        p@ == SOURCE_NAME@ && !rep@.contains('$') ==> r@ == replaced(t@, "Opus 4.7"@, rep@),
        p@ == text::kebab_of(SOURCE_ID@) && !rep@.contains('$') && vstd::utf8::is_ascii_chars(t@)
            ==> r@ == ids_replaced(t@, rep@, 0),
{
    regex::Regex::new(p).unwrap().replace_all(t, rep).into_owned()
}

/// The text of the group `i`, where it took part in the match.
pub fn group(g: &Vec<Option<String>>, i: usize) -> (r: Option<&str>)
    ensures
        match r {
            Some(s) => group_of(groups_of(g@), i as int) == Some(s@),
            None => group_of(groups_of(g@), i as int) is None,
        },
{
    if i < g.len() {
        match &g[i] {
            Some(s) => Some(s.as_str()),
            None => None,
        }
    } else {
        None
    }
}

} // verus!
