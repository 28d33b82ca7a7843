use pino::stats::{heads, pad, pad_l, short, table_line, title};

#[test]
fn groups_are_shown_short() {
    assert_eq!(short("/home/me/pino", "project"), "pino");
    assert_eq!(short("/home/me/", "project"), "");
    assert_eq!(short("unknown", "project"), "unknown");
    assert_eq!(short("plain", "project"), "plain");
    assert_eq!(short("", "session"), "(none)");
    assert_eq!(short("0123456789abcdefXYZ", "agent"), "0123456789abcdef");
    assert_eq!(short("åäö", "agent"), "åäö");
    assert_eq!(short("", "model"), "");
    assert_eq!(short("a/b", "day"), "a/b");
}

#[test]
fn cells_are_padded_by_characters() {
    assert_eq!(pad("å", 3), "å  ");
    assert_eq!(pad_l("å", 3), "  å");
    assert_eq!(pad("long", 2), "long");
    assert_eq!(pad_l("", 0), "");
}

#[test]
fn lines_are_even() {
    assert_eq!(
        heads(),
        "  name                    reqs   cache rd    billed     saved      %"
    );
    let l = table_line("pino", "2", "3k", "$0.02", "$0.09", "81%");
    assert_eq!(l, "  pino                       2         3k     $0.02     $0.09    81%");
    assert_eq!(l.len(), 68);
    assert_eq!(heads().len(), 68);
}

#[test]
fn titles_name_the_window() {
    assert_eq!(title("agent", 5, "24h"), "  pino savings · by agent · since 24h");
    assert_eq!(title("agent", 0, "0"), "  pino savings · by agent");
}
