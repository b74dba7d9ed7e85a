use jj_spr::backend::{ChangeId, Revision};
use jj_spr::config::Config;
use jj_spr::message::Message;
use jj_spr::render::{finalize_revision_comment, prepare_revision_comment, replace_all};
use jj_spr::tree::Tree;

fn basic() -> Config {
    Config::new(
        "test_owner".to_string(),
        "test_repo".to_string(),
        "origin".to_string(),
        "main".to_string(),
        "spr/test/".to_string(),
    )
}

fn revision(number: u64, title: &str) -> Revision {
    Revision {
        id: ChangeId::from("change"),
        commit: 0,
        parent_ids: Vec::new(),
        pull_request_number: Some(number),
        title: title.to_string(),
        message: Message::new(),
        bookmarks: Vec::new(),
        conflicted: false,
        divergent: false,
    }
}

#[test]
fn single() {
    let lines = prepare_revision_comment(&Tree::new(revision(1, "My Title")), &basic());
    let str_lines: Vec<_> = lines.iter().map(|s| s.as_str()).collect();

    assert_eq!(
        str_lines.as_slice(),
        &["• [My Title](https://github.com/test_owner/test_repo/pull/1)"],
        "Lines didn't match expectation: {str_lines:?}"
    );
}

#[test]
fn list() {
    let mut tree = Tree::new(revision(1, "My Title"));
    tree.add_child_value(revision(2, "My Other Title"));
    let lines = prepare_revision_comment(&tree, &basic());
    let str_lines: Vec<_> = lines.iter().map(|s| s.as_str()).collect();

    assert_eq!(
        str_lines.as_slice(),
        &[
            "• [My Title](https://github.com/test_owner/test_repo/pull/1)",
            "• [My Other Title](https://github.com/test_owner/test_repo/pull/2)"
        ],
        "Lines didn't match expectation {str_lines:?}"
    );
}

#[test]
fn tree() {
    let mut tree = Tree::new(revision(1, "My Title"));
    tree.add_child_value(revision(2, "My Other Title"));
    tree.add_child_value(revision(3, "My Third Title"));
    let lines = prepare_revision_comment(&tree, &basic());
    let str_lines: Vec<_> = lines.iter().map(|s| s.as_str()).collect();

    assert_eq!(
        str_lines.as_slice(),
        &[
            "• [My Title](https://github.com/test_owner/test_repo/pull/1)",
            format!(
                "{}{}{}",
                "┣",
                " ",
                "• [My Other Title](https://github.com/test_owner/test_repo/pull/2)"
            )
            .as_ref(),
            "• [My Third Title](https://github.com/test_owner/test_repo/pull/3)"
        ],
        "Lines didn't match: {str_lines:?}",
    );
}

#[test]
fn with_cont() {
    let mut tree = Tree::new(revision(1, "My Title"));
    let mut child = Tree::new(revision(3, "My Third Title"));
    child.add_child_value(revision(4, "My Fourth Title"));
    tree.add_child(child);
    tree.add_child_value(revision(2, "My Other Title"));
    let lines = prepare_revision_comment(&tree, &basic());
    let str_lines: Vec<_> = lines.iter().map(|s| s.as_str()).collect();

    assert_eq!(
        str_lines.as_slice(),
        &[
            "• [My Title](https://github.com/test_owner/test_repo/pull/1)",
            format!(
                "{}{}{}",
                "┣",
                " ",
                "• [My Third Title](https://github.com/test_owner/test_repo/pull/3)"
            )
            .as_ref(),
            format!(
                "{}{}{}",
                "┃",
                " ",
                "• [My Fourth Title](https://github.com/test_owner/test_repo/pull/4)"
            )
            .as_ref(),
            "• [My Other Title](https://github.com/test_owner/test_repo/pull/2)"
        ],
        "Lines didn't match: {str_lines:?}",
    );
}

#[test]
fn finalize_replaces_own_link_with_plain_title() {
    let rev = revision(1, "My Title");
    let prepared = prepare_revision_comment(&Tree::new(revision(1, "My Title")), &basic());
    let content = finalize_revision_comment(&rev, &basic(), &prepared);
    assert_eq!(content, "This PR is part of a 1 changes series\n• My Title");
}

#[test]
fn finalize_keeps_other_links() {
    let mut tree = Tree::new(revision(1, "My Title"));
    tree.add_child_value(revision(2, "My Other Title"));
    let prepared = prepare_revision_comment(&tree, &basic());
    let content = finalize_revision_comment(&revision(2, "My Other Title"), &basic(), &prepared);
    assert_eq!(
        content,
        "This PR is part of a 2 changes series\n• [My Title](https://github.com/test_owner/test_repo/pull/1)\n• My Other Title"
    );
}

#[test]
fn replace_all_replaces_every_occurrence() {
    assert_eq!(replace_all("abcabca", "a", "xy"), "xybcxybcxy");
    assert_eq!(replace_all("no match here", "zzz", "y"), "no match here");
    assert_eq!(replace_all("aaaa", "aa", "b"), "bb");
}
