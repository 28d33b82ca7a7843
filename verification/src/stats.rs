//! The savings as a table of text.

use vstd::prelude::*;
use vstd::string::*;

use crate::identity;
use crate::text;

verus! {

/// The most characters that a session or an agent is shown by.
pub const SHORT_LEN: usize = 16;

/// What a group is shown as.
pub open spec fn short_of(key: Seq<char>, group_by: Seq<char>) -> Seq<char> {
    if group_by == "project"@ {
        if key == identity::UNKNOWN@ {
            key
        } else {
            text::split_of(key, '/').last()
        }
    } else if group_by == "session"@ || group_by == "agent"@ {
        if key.len() == 0 {
            "(none)"@
        } else if key.len() > SHORT_LEN {
            key.take(SHORT_LEN as int)
        } else {
            key
        }
    } else {
        key
    }
}

/// What a group is shown as: a project by the last part of its path, a session or an agent by the
/// beginning of its id, anything else by itself.
pub fn short(key: &str, group_by: &str) -> (r: String)
    ensures
        r@ == short_of(key@, group_by@),
{
    if text::same(group_by, "project") {
        if text::same(key, identity::UNKNOWN) {
            return key.to_owned();
        }
        let parts: Vec<String> = text::split(key, '/');
        let last: usize = parts.len() - 1;
        assert(text::texts(parts@)[last as int] == parts@[last as int]@);
        return parts[last].clone();
    }
    if text::same(group_by, "session") || text::same(group_by, "agent") {
        if key.is_empty() {
            return "(none)".to_owned();
        }
        if key.unicode_len() > SHORT_LEN {
            let r: String = key.substring_char(0, SHORT_LEN).to_owned();
            assert(r@ =~= key@.take(SHORT_LEN as int));
            return r;
        }
    }
    key.to_owned()
}

/// `s` with spaces behind it, at least `n` characters wide.
pub fn pad(s: &str, n: usize) -> (r: String)
    ensures
        r@ == text::pad_back_of(s@, ' ', n as nat),
{
    proof {
        reveal_strlit(" ");
    }
    text::pad_back(s, " ", n)
}

/// `s` with spaces in front of it, at least `n` characters wide.
pub fn pad_l(s: &str, n: usize) -> (r: String)
    ensures
        r@ == text::pad_front_of(s@, ' ', n as nat),
{
    proof {
        reveal_strlit(" ");
    }
    text::pad_front(s, " ", n)
}

/// One line of the table.
pub open spec fn line_of(
    name: Seq<char>,
    requests: Seq<char>,
    read: Seq<char>,
    billed: Seq<char>,
    saved: Seq<char>,
    percent: Seq<char>,
) -> Seq<char> {
    "  "@ + text::pad_back_of(name, ' ', 22) + text::pad_front_of(requests, ' ', 6)
        + text::pad_front_of(read, ' ', 11) + text::pad_front_of(billed, ' ', 10)
        + text::pad_front_of(saved, ' ', 10) + text::pad_front_of(percent, ' ', 7)
}

/// One line of the table.
pub fn table_line(
    name: &str,
    requests: &str,
    read: &str,
    billed: &str,
    saved: &str,
    percent: &str,
) -> (r: String)
    ensures
        r@ == line_of(name@, requests@, read@, billed@, saved@, percent@),
{
    let mut out: String = text::glue("  ", pad(name, 22).as_str());
    out.append(pad_l(requests, 6).as_str());
    out.append(pad_l(read, 11).as_str());
    out.append(pad_l(billed, 10).as_str());
    out.append(pad_l(saved, 10).as_str());
    out.append(pad_l(percent, 7).as_str());
    out
}

/// The heads of the columns.
pub fn heads() -> (r: String)
    ensures
        r@ == line_of("name"@, "reqs"@, "cache rd"@, "billed"@, "saved"@, "%"@),
{
    table_line("name", "reqs", "cache rd", "billed", "saved", "%")
}

/// The title of the table. `since` is the beginning of its window, as it was asked for by
/// `since_arg`; 0 is the beginning of time.
pub fn title(group_by: &str, since: i64, since_arg: &str) -> (r: String)
    ensures
        r@ == "  pino savings · by "@ + group_by@ + (if since != 0 {
            " · since "@ + since_arg@
        } else {
            Seq::empty()
        }),
{
    let mut out: String = text::glue("  pino savings · by ", group_by);
    if since != 0 {
        out.append(text::glue(" · since ", since_arg).as_str());
    }
    assert(out@ + Seq::<char>::empty() =~= out@);
    out
}

/// A line is 68 characters wide where every cell fits its column.
pub proof fn law_lines_are_even(
    name: Seq<char>,
    requests: Seq<char>,
    read: Seq<char>,
    billed: Seq<char>,
    saved: Seq<char>,
    percent: Seq<char>,
)
    requires
        name.len() <= 22,
        requests.len() <= 6,
        read.len() <= 11,
        billed.len() <= 10,
        saved.len() <= 10,
        percent.len() <= 7,
    ensures
        line_of(name, requests, read, billed, saved, percent).len() == 68,
{
    reveal_strlit("  ");
}

} // verus!
