use ksearch::cheatsheet::{parse_topic as parse_cheatsheet_topic, Cheatsheet};
use ksearch::knowledge::{parse_topic as parse_knowledge_topic, Knowledge};

fn get_git_cheatsheet() -> Vec<Cheatsheet> {
    vec![
        Cheatsheet {
            description: String::from("quick show branch and file changes"),
            data: vec![String::from("git status -s -b")],
            tags: vec![String::from("git-status")],
        },
        Cheatsheet {
            description: String::from("quick show submodules status"),
            data: vec![String::from("git submodule status")],
            tags: vec![String::from("git-submodule")],
        },
        Cheatsheet {
            description: String::from("search for terms/string in commit message history"),
            data: vec![
                String::from("git log --all --grep='<message>'"),
                String::from("git log --grep='<message>'"),
                String::from("git log --author='<username>'"),
            ],
            tags: vec![],
        },
    ]
}

fn get_git_knowledge() -> Vec<Knowledge> {
    vec![
        Knowledge {
            description: String::from("quick show branch and file changes"),
            data: vec![String::from("git status -s -b")],
            tags: vec![String::from("git-status")],
        },
        Knowledge {
            description: String::from("quick show submodules status"),
            data: vec![String::from("git submodule status")],
            tags: vec![String::from("git-submodule")],
        },
        Knowledge {
            description: String::from("search for terms/string in commit message history"),
            data: vec![
                String::from("git log --all --grep='<message>'"),
                String::from("git log --grep='<message>'"),
                String::from("git log --author='<username>'"),
            ],
            tags: vec![],
        },
    ]
}

#[test]
fn test_git_cheatsheet_without_filter_should_return_one() {
    let cheatsheets = get_git_cheatsheet();
    let search = "branch";
    let filter = "";
    match parse_cheatsheet_topic(&cheatsheets, &search, &filter) {
        Ok(res) => {
            assert_eq!(res.len(), 1);
            assert_eq!(res[0].data, ["git status -s -b"]);
            assert_eq!(res[0].tags, ["git-status"]);
        }
        Err(_) => panic!("test failed"),
    }
}

#[test]
fn test_git_cheatsheet_without_filter_should_return_two() {
    let cheatsheets = get_git_cheatsheet();
    let search = "quick";
    let filter = "";
    match parse_cheatsheet_topic(&cheatsheets, &search, &filter) {
        Ok(res) => {
            assert_eq!(res.len(), 2);
            assert_eq!(res[0].data, ["git status -s -b"]);
            assert_eq!(res[0].tags, ["git-status"]);
        }
        Err(_) => panic!("test failed"),
    }
}

#[test]
fn test_git_cheatsheet_with_filter_should_return_one() {
    let cheatsheets = get_git_cheatsheet();
    let search = "";
    let filter = "git-status";
    match parse_cheatsheet_topic(&cheatsheets, &search, &filter) {
        Ok(res) => {
            assert_eq!(res.len(), 1);
            assert_eq!(res[0].data, ["git status -s -b"]);
            assert_eq!(res[0].tags, ["git-status"]);
        }
        Err(_) => panic!("test failed"),
    }
}

#[test]
fn test_git_cheatsheet_without_search_or_filter_should_return_three() {
    let cheatsheets = get_git_cheatsheet();
    let search = "";
    let filter = "";
    match parse_cheatsheet_topic(&cheatsheets, &search, &filter) {
        Ok(res) => {
            assert_eq!(res.len(), 3);
        }
        Err(_) => panic!("test failed"),
    }
}

#[test]
fn test_git_knowledge_without_filter_should_return_one() {
    let knowledges = get_git_knowledge();
    let search = "branch";
    let filter = "";
    match parse_knowledge_topic(&knowledges, &search, &filter) {
        Ok(res) => {
            assert_eq!(res.len(), 1);
            assert_eq!(res[0].data, ["git status -s -b"]);
            assert_eq!(res[0].tags, ["git-status"]);
        }
        Err(_) => panic!("test failed"),
    }
}

#[test]
fn test_git_knowledge_without_filter_should_return_two() {
    let knowledges = get_git_knowledge();
    let search = "quick";
    let filter = "";
    match parse_knowledge_topic(&knowledges, &search, &filter) {
        Ok(res) => {
            assert_eq!(res.len(), 2);
            assert_eq!(res[0].data, ["git status -s -b"]);
            assert_eq!(res[0].tags, ["git-status"]);
        }
        Err(_) => panic!("test failed"),
    }
}

#[test]
fn test_git_knowledge_with_filter_should_return_one() {
    let knowledges = get_git_knowledge();
    let search = "";
    let filter = "git-status";
    match parse_knowledge_topic(&knowledges, &search, &filter) {
        Ok(res) => {
            assert_eq!(res.len(), 1);
            assert_eq!(res[0].data, ["git status -s -b"]);
            assert_eq!(res[0].tags, ["git-status"]);
        }
        Err(_) => panic!("test failed"),
    }
}

#[test]
fn test_git_knowledge_without_search_or_filter_should_return_three() {
    let knowledges = get_git_knowledge();
    let search = "";
    let filter = "";
    match parse_knowledge_topic(&knowledges, &search, &filter) {
        Ok(res) => {
            assert_eq!(res.len(), 3);
        }
        Err(_) => panic!("test failed"),
    }
}

// Both filter axes together combine with AND: the term matches two
// records but only one of them carries the tag.
#[test]
fn term_and_tag_combine_with_and() {
    let knowledges = get_git_knowledge();
    let res = parse_knowledge_topic(&knowledges, "quick", "git-submodule").unwrap();
    assert_eq!(res.len(), 1);
    assert_eq!(res[0].description, "quick show submodules status");
}

// A term that matches nothing yields an empty list, not an error.
#[test]
fn no_match_is_a_silent_empty_result() {
    let knowledges = get_git_knowledge();
    let res = parse_knowledge_topic(&knowledges, "no such term", "").unwrap();
    assert_eq!(res.len(), 0);
}

// Matching is case-sensitive and restricted to the description: text that
// only occurs in entry lines is never found.
#[test]
fn entries_are_not_searched_and_case_matters() {
    let knowledges = get_git_knowledge();
    assert_eq!(parse_knowledge_topic(&knowledges, "Quick", "").unwrap().len(), 0);
    assert_eq!(parse_knowledge_topic(&knowledges, "submodule status", "").unwrap().len(), 0);
    assert_eq!(parse_knowledge_topic(&knowledges, "--author", "").unwrap().len(), 0);
}

// Filtering its own output again with the same criteria returns the
// identical list.
#[test]
fn filtering_twice_returns_the_same_list() {
    let knowledges = get_git_knowledge();
    let once = parse_knowledge_topic(&knowledges, "quick", "").unwrap();
    let twice = parse_knowledge_topic(&once, "quick", "").unwrap();
    assert_eq!(once.len(), twice.len());
    for (a, b) in once.iter().zip(twice.iter()) {
        assert_eq!(a.description, b.description);
        assert_eq!(a.data, b.data);
        assert_eq!(a.tags, b.tags);
    }
}

// The output is an order-preserving subsequence of the input.
#[test]
fn filter_preserves_input_order() {
    let knowledges = get_git_knowledge();
    let res = parse_knowledge_topic(&knowledges, "quick", "").unwrap();
    assert_eq!(res.len(), 2);
    assert_eq!(res[0].description, "quick show branch and file changes");
    assert_eq!(res[1].description, "quick show submodules status");
}
