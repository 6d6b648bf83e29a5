use ksearch::cheatsheet::Cheatsheet;
use ksearch::knowledge::{show_topic, Knowledge};
use ksearch::render::RenderMode;

fn record(description: &str, data: &[&str], tags: &[&str]) -> Knowledge {
    Knowledge {
        description: String::from(description),
        data: data.iter().map(|d| String::from(*d)).collect(),
        tags: tags.iter().map(|t| String::from(*t)).collect(),
    }
}

// Rendering a topic plain with no filters reproduces every description
// and every entry line exactly once, in source order.
#[test]
fn plain_render_round_trips_every_record() {
    let records = vec![
        record("first note", &["cmd one", "cmd two"], &["tag-a", "tag-b"]),
        record("second note", &[], &[]),
    ];
    let (lines, found) = show_topic(&records, "demo", "", "", RenderMode::Plain, false);
    assert!(found);
    assert_eq!(
        lines,
        [
            "",
            "[demo][tag-a tag-b] first note",
            "- cmd one",
            "- cmd two",
            "",
            "[demo] second note",
        ]
    );
}

// A comment-marked entry line is written verbatim, not as an entry.
#[test]
fn comment_entries_are_written_verbatim() {
    let records = vec![record("note", &["// remember this", "real command"], &[])];
    let (lines, _) = show_topic(&records, "t", "", "", RenderMode::Plain, false);
    assert_eq!(lines, ["", "[t] note", "// remember this", "- real command"]);
}

// Both flavours render alike: a comment-marked entry is written verbatim
// in the JSON flavour too.
#[test]
fn cheatsheet_comment_entries_are_written_verbatim() {
    let sheet = Cheatsheet {
        description: String::from("note"),
        data: vec![String::from("// a remark"), String::from("real command")],
        tags: vec![],
    };
    let lines = sheet.render("t", "", RenderMode::Plain, false);
    assert_eq!(lines, ["", "[t] note", "// a remark", "- real command"]);
    let colorized = sheet.render("t", "", RenderMode::Colorized, false);
    assert_eq!(
        colorized,
        [
            "",
            "\u{1b}[93;1m[t]\u{1b}[0m",
            "\u{1b}[92;1m#\u{1b}[0m note",
            "\u{1b}[90;1m// a remark\u{1b}[0m",
            "\u{1b}[92;1m>>>\u{1b}[0m \u{1b}[95mreal command\u{1b}[0m",
        ]
    );
}

// Colorized mode wraps header, description and entries in fixed styles,
// each reset after the styled segment.
#[test]
fn colorized_render_styles_each_line() {
    let records = vec![record("note", &["cmd", "// hint"], &["tag"])];
    let (lines, _) = show_topic(&records, "t", "", "", RenderMode::Colorized, false);
    assert_eq!(
        lines,
        [
            "",
            "\u{1b}[93;1m[t]\u{1b}[0m\u{1b}[94;1m[tag]\u{1b}[0m",
            "\u{1b}[92;1m#\u{1b}[0m note",
            "\u{1b}[92;1m>>>\u{1b}[0m \u{1b}[95mcmd\u{1b}[0m",
            "\u{1b}[90;1m// hint\u{1b}[0m",
        ]
    );
}

// A topic with no tags omits the tag bracket entirely.
#[test]
fn colorized_header_without_tags_has_no_tag_bracket() {
    let records = vec![record("note", &[], &[])];
    let (lines, _) = show_topic(&records, "t", "", "", RenderMode::Colorized, false);
    assert_eq!(lines, ["", "\u{1b}[93;1m[t]\u{1b}[0m", "\u{1b}[92;1m#\u{1b}[0m note"]);
}

// A term present twice non-overlapping is emphasized exactly twice and
// the rest of the description is unchanged.
#[test]
fn highlight_emphasizes_both_occurrences() {
    let k = record("quick brown quick fox", &[], &[]);
    let highlighted = k.colorized_match("quick");
    assert_eq!(
        highlighted,
        "\u{1b}[91;1mquick\u{1b}[0m brown \u{1b}[91;1mquick\u{1b}[0m fox"
    );
}

// Occurrences are replaced left to right without overlapping: in "aaa"
// the pattern "aa" is found once, and the trailing "a" stays.
#[test]
fn highlight_does_not_overlap_matches() {
    let k = record("aaa", &[], &[]);
    assert_eq!(k.colorized_match("aa"), "\u{1b}[91;1maa\u{1b}[0ma");
}

// With the highlight flag set the rendered description carries the
// emphasis; without it the description is untouched.
#[test]
fn match_highlight_is_applied_only_when_asked() {
    let records = vec![record("a quick note", &[], &[])];
    let (plain, _) = show_topic(&records, "t", "quick", "", RenderMode::Plain, false);
    assert_eq!(plain, ["", "[t] a quick note"]);
    let (marked, _) = show_topic(&records, "t", "quick", "", RenderMode::Plain, true);
    assert_eq!(marked, ["", "[t] a \u{1b}[91;1mquick\u{1b}[0m note"]);
}

// An empty search term highlights nothing even when the flag is set.
#[test]
fn empty_term_highlights_nothing() {
    let k = record("some note", &[], &[]);
    assert_eq!(k.colorized_match(""), "some note");
}

// Zero matches render as no lines at all, with the found flag unset.
#[test]
fn no_matching_record_renders_nothing() {
    let records = vec![record("note", &["cmd"], &["tag"])];
    let (lines, found) = show_topic(&records, "t", "absent", "", RenderMode::Plain, false);
    assert!(lines.is_empty());
    assert!(!found);
}
