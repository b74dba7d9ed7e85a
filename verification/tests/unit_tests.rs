use jj_spr::backend::{ChangeId, Revision};
use jj_spr::error::{Error, ErrorKind, ResultExt};
use jj_spr::github::{GHPullRequest, PullRequest, PullRequestState, PullRequestUpdate,
    ReviewBackend};
use jj_spr::message::{Message, MessageSection, build_github_body, validate_commit_message};
use jj_spr::output::{Icons, icon_to_string};
use jj_spr::selector::Selector;
use jj_spr::tree::{Forest, Tree};

#[test]
fn error_carries_context() {
    let mut e = Error::new("first");
    assert_eq!(e.kind(), ErrorKind::BackendError);
    assert!(!e.is_empty());
    e.push("second".to_string());
    assert_eq!(e.messages().as_slice(), &["first".to_string(), "second".to_string()]);
    assert_eq!(e.text(), "second");
    assert!(Error::empty().is_empty());
    assert_eq!(Error::empty().kind(), ErrorKind::ValidationFailure);
    assert_eq!(Error::empty().text(), "unknown error");
}

#[test]
fn results_keep_their_context_stack() {
    let r: Result<u64, Error> = Err(Error::new("inner"));
    let r = r.context("outer".to_string());
    let e = r.expect_err("still an error");
    assert_eq!(e.messages().as_slice(), &["inner".to_string(), "outer".to_string()]);

    let r: Result<u64, Error> = Err(Error::new("inner"));
    let e = r.reword("replaced".to_string()).expect_err("still an error");
    assert_eq!(e.messages().as_slice(), &["replaced".to_string()]);

    let ok: Result<u64, Error> = Ok(3);
    assert_eq!(ok.context("ignored".to_string()).expect("still fine"), 3);
}

#[test]
fn messages_store_trailers() {
    let mut m = Message::new();
    assert!(m.get(MessageSection::Title).is_none());
    m.insert(MessageSection::Title, "A title".to_string());
    m.insert(MessageSection::Summary, "A body".to_string());
    assert_eq!(m.get(MessageSection::Title).expect("set above"), "A title");
    assert_eq!(build_github_body(&m), "A body");
    assert!(validate_commit_message(&m).is_ok());
    let empty = Message::new();
    let e = validate_commit_message(&empty).expect_err("no title");
    assert_eq!(e.kind(), ErrorKind::ValidationFailure);
    assert_eq!(build_github_body(&empty), "");
}

#[test]
fn trees_insert_below_the_first_match() {
    let mut tree = Tree::new(1u64);
    tree.add_child_value(2);
    tree.insert_below(&|v: &u64| *v == 2, 3).expect("2 is present");
    assert!(tree.insert_below(&|v: &u64| *v == 9, 4).is_err());
    let two = tree.find_mut(&|v: &u64| *v == 2).expect("2 is present");
    assert_eq!(*two.get(), 2);
    assert_eq!(two.get_children().len(), 1);
    assert!(tree.find_mut(&|v: &u64| *v == 9).is_none());
    assert_eq!(tree.width(), 1);
    assert_eq!(tree.checked_size(100), Some(3));
    assert_eq!(tree.checked_size(2), None);

    let mut it = tree.into_iter();
    assert_eq!(it.next(), Some(1));
    assert_eq!(it.next(), Some(2));
    assert_eq!(it.next(), Some(3));
    assert_eq!(it.next(), None);
}

#[test]
fn forests_group_by_parent() {
    let mut forest: Forest<u64> = Forest::new();
    forest.insert_below(&|_: &u64| false, 1);
    forest.insert_below(&|v: &u64| *v == 1, 2);
    forest.insert_below(&|_: &u64| false, 7);
    assert_eq!(forest.trees().len(), 2);
    let mut it = forest.into_iter();
    assert_eq!(it.next(), Some(7));
    assert_eq!(it.next(), Some(1));
    assert_eq!(it.next(), Some(2));
    assert_eq!(it.next(), None);
}

#[test]
fn tree_width_counts_nested_forks() {
    let mut tree = Tree::new(0u64);
    let mut left = Tree::new(1u64);
    left.add_child_value(2);
    left.add_child_value(3);
    tree.add_child(left);
    tree.add_child_value(4);
    assert_eq!(tree.width(), 3);
}

#[test]
fn change_ids_compare_by_content() {
    let a = ChangeId::from("abc");
    let b = ChangeId::from("abc");
    let c = ChangeId::from("xyz");
    assert!(a == b);
    assert!(a != c);
    assert_eq!(a.as_ref(), "abc");
}

#[test]
fn pull_request_accessors() {
    let pr = PullRequest {
        number: 5,
        state: PullRequestState::Open,
        title: "A title".to_string(),
        body: None,
        base: "main".to_string(),
        head: "spr/x".to_string(),
    };
    assert_eq!(pr.pr_number(), 5);
    assert_eq!(pr.head_branch_name(), "spr/x");
    assert_eq!(pr.base_branch_name(), "main");
    assert_eq!(pr.title(), "A title");
    assert_eq!(pr.body(), "");
    assert!(!pr.closed());
}

#[test]
fn pull_request_updates_stage_differences() {
    let pr = PullRequest {
        number: 5,
        state: PullRequestState::Open,
        title: "Old".to_string(),
        body: Some("Old body".to_string()),
        base: "main".to_string(),
        head: "spr/x".to_string(),
    };
    let mut update = PullRequestUpdate::default();
    assert!(update.is_empty());
    let mut m = Message::new();
    m.insert(MessageSection::Title, "New".to_string());
    m.insert(MessageSection::Summary, "New body".to_string());
    update.update_message(&pr, &m);
    assert_eq!(update.title.as_deref(), Some("New"));
    assert_eq!(update.body.as_deref(), Some("New body"));
    assert!(!update.is_empty());

    let mut unchanged = PullRequestUpdate::default();
    let mut same = Message::new();
    same.insert(MessageSection::Title, "Old".to_string());
    same.insert(MessageSection::Summary, "Old body".to_string());
    unchanged.update_message(&pr, &same);
    assert!(unchanged.title.is_none());
    assert!(unchanged.body.is_none());
}

#[test]
fn review_backend_numbers_requests() {
    let mut gh = ReviewBackend::new();
    let first = gh.new_pull_request("One", "", "main", "spr/a", false).expect("creation works");
    let second = gh.new_pull_request("Two", "", "main", "spr/b", false).expect("creation works");
    assert_eq!(first.number, 1);
    assert_eq!(second.number, 2);
    assert_eq!(gh.record_count(), 2);
    assert_eq!(gh.pull_request(1).expect("exists").title, "One");
    assert!(gh.pull_request(9).is_err());
    assert_eq!(gh.pull_request_by_head("spr/b").expect("exists").number, 2);
    gh.add_reviewers(1, vec!["alice".to_string()]).expect("request exists");
    assert_eq!(gh.record_at(0).reviewers.as_slice(), &["alice".to_string()]);
}

#[test]
fn review_comment_updates_are_idempotent() {
    let mut gh = ReviewBackend::new();
    gh.new_pull_request("One", "", "main", "spr/a", false).expect("creation works");
    gh.update_pr_comment(1, "overview").expect("request exists");
    assert_eq!(gh.record_at(0).comments.len(), 1);
    let w = gh.write_count();
    gh.update_pr_comment(1, "overview").expect("request exists");
    assert_eq!(gh.record_at(0).comments.len(), 1, "no duplicate comment");
    assert_eq!(gh.write_count(), w, "an unchanged comment writes nothing");
    gh.update_pr_comment(1, "new overview").expect("request exists");
    assert_eq!(gh.record_at(0).comments.len(), 1, "updated in place");
    assert!(gh.record_at(0).comments[0].body.starts_with("new overview"));
}

#[test]
fn selectors_compose() {
    let sel = Selector::current().ancestors().without(
        Selector::immutable().or(Selector::description("exact:\"\"".to_string())),
    );
    match sel {
        Selector::Difference(a, b) => {
            assert!(matches!(*a, Selector::AncestorsOf(_)));
            assert!(matches!(*b, Selector::Union(_, _)));
        },
        _ => panic!("unexpected selector shape"),
    }
    assert!(matches!(Selector::root(), Selector::Root));
    assert!(matches!(
        Selector::mutable().heads().unique(),
        Selector::Unique(_)
    ));
}

#[test]
fn icons_have_their_text() {
    assert_eq!(icon_to_string(Icons::OK), "✅");
    assert_eq!(icon_to_string(Icons::Wave), "👋");
    assert_eq!(icon_to_string(Icons::Stop), "🛑");
    let defaults = jj_spr::icons::Icons::default();
    assert_eq!(defaults.ok.as_ref(), "✅");
    let drawing = jj_spr::drawing::Drawing::default();
    assert_eq!(drawing.fork, "┣");
    assert_eq!(drawing.cont, "┃");
    assert_eq!(drawing.space, " ");
}

#[test]
fn revision_fields_round_trip() {
    let rev = Revision {
        id: ChangeId::from("abc"),
        commit: 0,
        parent_ids: vec![ChangeId::from("root")],
        pull_request_number: None,
        title: "t".to_string(),
        message: Message::new(),
        bookmarks: vec!["mark".to_string()],
        conflicted: false,
        divergent: false,
    };
    assert_eq!(rev.parent_ids.len(), 1);
    assert_eq!(rev.bookmarks[0], "mark");
}
