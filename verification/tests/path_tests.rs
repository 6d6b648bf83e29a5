use ksearch::cheatsheet::is_json_file;
use ksearch::inventory::{inventory_ids, lex_le_str, sort_ids, topic_ids};
use ksearch::knowledge::{is_toml_file, topic_file_path, Knowledge};
use ksearch::render::RenderMode;
use ksearch::search_path::{configured_directories, lookup_topic, TopicOutcome};
use ksearch::text::{contains_str, eq_str, join_strings, replace_str, split_on_char, stem_of};
use ksearch::KError;

// An absent search-path value is a configuration error, raised before
// anything else happens.
#[test]
fn missing_search_path_is_a_config_error() {
    assert_eq!(configured_directories(None), Err(KError::ConfigError));
}

// The search-path value splits on `:` in order, keeping duplicates and
// empty parts, with no trimming.
#[test]
fn search_path_splits_in_order() {
    assert_eq!(
        configured_directories(Some("/a:/b:/a")).unwrap(),
        ["/a", "/b", "/a"]
    );
    assert_eq!(configured_directories(Some("")).unwrap(), [""]);
    assert_eq!(configured_directories(Some("/a::/b")).unwrap(), ["/a", "", "/b"]);
    assert_eq!(configured_directories(Some(" /a : /b")).unwrap(), [" /a ", " /b"]);
}

// A named-topic lookup across two directories: the first holds the topic,
// the second does not.  The first directory's records are rendered, the
// second is reported as unknown, and its failure aborts nothing.
#[test]
fn lookup_reports_missing_directory_and_continues() {
    let loaded = TopicOutcome::Loaded(vec![Knowledge {
        description: String::from("quick show branch and file changes"),
        data: vec![String::from("git status -s -b")],
        tags: vec![String::from("git-status")],
    }]);
    let outcomes = vec![loaded, TopicOutcome::Missing];
    let (lines, found) = lookup_topic(&outcomes, "git", "", "", RenderMode::Plain, false);
    assert!(found);
    assert_eq!(
        lines,
        [
            "",
            "[git][git-status] quick show branch and file changes",
            "- git status -s -b",
            "Unknown topic named 'git'",
        ]
    );
}

// The missing directory comes first: its diagnostic line leads and the
// later directory is still processed.
#[test]
fn lookup_missing_first_still_processes_the_rest() {
    let loaded = TopicOutcome::Loaded(vec![Knowledge {
        description: String::from("note"),
        data: vec![],
        tags: vec![],
    }]);
    let outcomes = vec![TopicOutcome::Missing, loaded];
    let (lines, found) = lookup_topic(&outcomes, "git", "", "", RenderMode::Plain, false);
    assert!(found);
    assert_eq!(lines, ["Unknown topic named 'git'", "", "[git] note"]);
}

// A lookup that finds the topic nowhere reports every directory and sets
// no found flag.
#[test]
fn lookup_with_no_directory_holding_the_topic() {
    let outcomes = vec![TopicOutcome::Missing, TopicOutcome::Missing];
    let (lines, found) = lookup_topic(&outcomes, "tmux", "", "", RenderMode::Plain, false);
    assert!(!found);
    assert_eq!(lines, ["Unknown topic named 'tmux'", "Unknown topic named 'tmux'"]);
}

// Extension recognition: only the file name's last dot counts, a leading
// dot is no extension, and directories play no part.
#[test]
fn extension_recognition() {
    assert!(is_toml_file("git.toml"));
    assert!(is_toml_file("/base/dir/git.toml"));
    assert!(is_toml_file("archive.tar.toml"));
    assert!(!is_toml_file("git.json"));
    assert!(!is_toml_file(".toml"));
    assert!(!is_toml_file("dir.toml/file"));
    assert!(!is_toml_file("toml"));
    assert!(is_json_file("git.json"));
    assert!(!is_json_file("git.toml"));
}

// The topic identifier is the file name with its extension stripped.
#[test]
fn stems_drop_only_the_extension() {
    assert_eq!(stem_of("git.toml"), "git");
    assert_eq!(stem_of("/base/dir/git.toml"), "git");
    assert_eq!(stem_of("archive.tar.toml"), "archive.tar");
    assert_eq!(stem_of(".hidden"), ".hidden");
    assert_eq!(stem_of("plain"), "plain");
}

// The on-disk path of a named topic under a directory.
#[test]
fn topic_paths_are_joined_with_the_extension() {
    assert_eq!(topic_file_path("/base/dir", "git"), "/base/dir/git.toml");
}

// An inventory keeps exactly the names with the right extension, stripped
// to identifiers and sorted for a deterministic listing.
#[test]
fn inventory_filters_strips_and_sorts() {
    let names = vec![
        String::from("tmux.toml"),
        String::from("git.toml"),
        String::from("notes.json"),
        String::from("README"),
        String::from("ansible.toml"),
    ];
    assert_eq!(topic_ids(&names, "toml"), ["tmux", "git", "ansible"]);
    assert_eq!(inventory_ids(&names, "toml"), ["ansible", "git", "tmux"]);
    assert_eq!(inventory_ids(&names, "json"), ["notes"]);
}

// Sorting is lexicographic by character value and keeps repetitions.
#[test]
fn sorting_is_lexicographic_and_keeps_duplicates() {
    let ids = vec![
        String::from("b"),
        String::from("ab"),
        String::from("a"),
        String::from("ab"),
    ];
    assert_eq!(sort_ids(&ids), ["a", "ab", "ab", "b"]);
    assert!(lex_le_str("a", "ab"));
    assert!(lex_le_str("ab", "ab"));
    assert!(!lex_le_str("b", "ab"));
    assert!(lex_le_str("A", "a"));
}

// Substring search is literal and case-sensitive; the empty pattern is
// found everywhere.
#[test]
fn substring_search_cases() {
    assert!(contains_str("quick show branch", "branch"));
    assert!(contains_str("quick show branch", ""));
    assert!(!contains_str("quick show branch", "Branch"));
    assert!(!contains_str("ab", "abc"));
    assert!(contains_str("aaab", "aab"));
}

// Replacement rewrites every occurrence, scanning left to right.
#[test]
fn replacement_rewrites_every_occurrence() {
    assert_eq!(replace_str("a-b-c", "-", "+"), "a+b+c");
    assert_eq!(replace_str("aaa", "aa", "x"), "xa");
    assert_eq!(replace_str("none here", "zz", "x"), "none here");
}

// Joining and splitting round out the small text toolbox.
#[test]
fn join_and_split_behave_like_their_contracts() {
    let parts = vec![String::from("a"), String::from("b"), String::from("c")];
    assert_eq!(join_strings(&parts, " "), "a b c");
    assert_eq!(join_strings(&vec![], " "), "");
    assert_eq!(split_on_char("a:b::c", ':'), ["a", "b", "", "c"]);
    assert_eq!(split_on_char("", ':'), [""]);
    assert!(eq_str("same", "same"));
    assert!(!eq_str("same", "sama"));
}

// The error taxonomy distinguishes its three kinds, each with its own
// single-line diagnostic.
#[test]
fn error_kinds_are_distinct() {
    assert_ne!(KError::ConfigError, KError::ScanError);
    assert_ne!(KError::ScanError, KError::LoadError);
    assert_ne!(KError::LoadError, KError::ConfigError);
    assert_eq!(
        KError::ConfigError.message(),
        "Environment variable KSEARCH_PATH not defined."
    );
    assert_eq!(KError::ScanError.message(), "Cannot read directory.");
    assert_eq!(KError::LoadError.message(), "Unknown or unreadable topic.");
}
