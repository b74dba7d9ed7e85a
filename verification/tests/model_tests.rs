use jj_spr::backend::{ChangeId, Revision, VersionControlBackend};
use jj_spr::config::Config;
use jj_spr::error::ErrorKind;
use jj_spr::fetch::detect_base_motion;
use jj_spr::github::{PullRequest, PullRequestComment, PullRequestRecord, PullRequestState,
    ReviewBackend};
use jj_spr::message::{Message, MessageSection};
use jj_spr::reconcile::{PushOptions, push};

fn basic() -> Config {
    Config::new(
        "test_owner".to_string(),
        "test_repo".to_string(),
        "origin".to_string(),
        "main".to_string(),
        "spr/test/".to_string(),
    )
}

/// A world with one trunk commit that the `main` branch points at.
fn world() -> VersionControlBackend {
    let mut vcs = VersionControlBackend::new();
    let trunk = vcs.add_commit(Vec::new(), 1, "Initial commit".to_string());
    vcs.set_branch("main", trunk);
    vcs
}

fn commit_revision(vcs: &mut VersionControlBackend, id: &str, title: &str, parent: usize,
    tree: u64) -> Revision {
    let c = vcs.add_commit(vec![parent], tree, title.to_string());
    let mut message = Message::new();
    message.insert(MessageSection::Title, title.to_string());
    let rev = Revision {
        id: ChangeId::from(id),
        commit: c,
        parent_ids: vec![ChangeId::from("root")],
        pull_request_number: None,
        title: title.to_string(),
        message,
        bookmarks: Vec::new(),
        conflicted: false,
        divergent: false,
    };
    vcs.add_revision(rev.clone());
    rev
}

fn stored_stack(vcs: &VersionControlBackend) -> Vec<Revision> {
    let mut out = Vec::new();
    let mut i = 0;
    while i < vcs.revision_count() {
        out.push(vcs.revision_at(i).clone());
        i += 1;
    }
    out
}

#[test]
fn push_creates_branch_based_on_trunk() {
    let mut vcs = world();
    let mut gh = ReviewBackend::new();
    let rev = commit_revision(&mut vcs, "aaa", "Test commit", 0, 42);
    push(&mut vcs, &mut gh, &basic(), PushOptions::default().with_message(Some("message")), vec![
        rev,
    ])
    .expect("push shouldn't fail");

    let target = vcs.branch_target("spr/test/test-commit").expect("branch should exist");
    assert_ne!(target, 0, "PR and trunk should not be equal");
    assert_eq!(vcs.merge_base(target, 0), Some(0), "PR branch was not based on trunk");
    assert_eq!(vcs.tree_of(target), 42, "pushed tree must equal the revision's tree");
}

#[test]
fn push_twice_without_change_writes_nothing() {
    let mut vcs = world();
    let mut gh = ReviewBackend::new();
    let rev = commit_revision(&mut vcs, "aaa", "Test commit", 0, 42);
    push(&mut vcs, &mut gh, &basic(), PushOptions::default().with_message(Some("message")), vec![
        rev,
    ])
    .expect("push shouldn't fail");
    let target1 = vcs.branch_target("spr/test/test-commit").expect("branch should exist");
    let commits1 = vcs.commit_count();
    let writes1 = gh.write_count();

    let stack = stored_stack(&vcs);
    push(&mut vcs, &mut gh, &basic(), PushOptions::default().with_message(Some("message")), stack)
        .expect("second push shouldn't fail");

    let target2 = vcs.branch_target("spr/test/test-commit").expect("branch should exist");
    assert_eq!(target1, target2, "remote branch moved without a local change");
    assert_eq!(commits1, vcs.commit_count(), "a commit was created without a local change");
    assert_eq!(writes1, gh.write_count(), "the review backend was written without a change");
}

#[test]
fn push_fails_when_remote_is_ahead() {
    let mut vcs = world();
    let mut gh = ReviewBackend::new();
    let rev = commit_revision(&mut vcs, "aaa", "Test commit", 0, 42);
    push(&mut vcs, &mut gh, &basic(), PushOptions::default().with_message(Some("message")), vec![
        rev,
    ])
    .expect("push shouldn't fail");

    let target = vcs.branch_target("spr/test/test-commit").expect("branch should exist");
    let moved = vcs.add_commit(vec![target], 77, "outside change".to_string());
    vcs.set_branch("spr/test/test-commit", moved);

    let mut stack = stored_stack(&vcs);
    stack[0].commit = vcs.add_commit(vec![0], 43, "amended".to_string());
    let err = push(
        &mut vcs,
        &mut gh,
        &basic(),
        PushOptions::default().with_message(Some("message")),
        stack,
    )
    .expect_err("push should fail when upstream is ahead of what we expect");
    assert_eq!(err.kind(), ErrorKind::UnexpectedUpstream);
    assert_eq!(
        vcs.branch_target("spr/test/test-commit"),
        Some(moved),
        "the externally moved branch must not be overwritten"
    );
}

#[test]
fn force_ignores_ahead_upstream() {
    let mut vcs = world();
    let mut gh = ReviewBackend::new();
    let rev = commit_revision(&mut vcs, "aaa", "Test commit", 0, 42);
    push(&mut vcs, &mut gh, &basic(), PushOptions::default().with_message(Some("message")), vec![
        rev,
    ])
    .expect("push shouldn't fail");

    let target = vcs.branch_target("spr/test/test-commit").expect("branch should exist");
    let moved = vcs.add_commit(vec![target], 77, "outside change".to_string());
    vcs.set_branch("spr/test/test-commit", moved);

    let mut stack = stored_stack(&vcs);
    stack[0].commit = vcs.add_commit(vec![0], 43, "amended".to_string());
    push(
        &mut vcs,
        &mut gh,
        &basic(),
        PushOptions::default().with_message(Some("message")).with_force(true),
        stack,
    )
    .expect("push should succeed with force and an ahead upstream");
    let target2 = vcs.branch_target("spr/test/test-commit").expect("branch should exist");
    assert_ne!(target2, moved, "force push should have moved the branch");
    assert_eq!(vcs.tree_of(target2), 43, "force push must still carry the revision's tree");
}

#[test]
fn stacked_child_sits_on_parent() {
    let mut vcs = world();
    let mut gh = ReviewBackend::new();
    let a = commit_revision(&mut vcs, "aaa", "Test commit", 0, 42);
    let b = {
        let c = vcs.add_commit(vec![a.commit], 43, "Test other commit".to_string());
        let mut message = Message::new();
        message.insert(MessageSection::Title, "Test other commit".to_string());
        let rev = Revision {
            id: ChangeId::from("bbb"),
            commit: c,
            parent_ids: vec![ChangeId::from("aaa")],
            pull_request_number: None,
            title: "Test other commit".to_string(),
            message,
            bookmarks: Vec::new(),
            conflicted: false,
            divergent: false,
        };
        vcs.add_revision(rev.clone());
        rev
    };
    push(&mut vcs, &mut gh, &basic(), PushOptions::default().with_message(Some("message")), vec![
        a, b,
    ])
    .expect("push shouldn't fail");

    let pa = vcs.branch_target("spr/test/test-commit").expect("parent branch should exist");
    let pb = vcs.branch_target("spr/test/test-other-commit").expect("child branch should exist");
    assert_eq!(
        vcs.merge_base(pb, pa),
        Some(pa),
        "child PR branch was not based on the parent's PR branch"
    );
}

#[test]
fn multi_parent_revision_is_refused() {
    let mut vcs = world();
    let mut gh = ReviewBackend::new();
    let mut rev = commit_revision(&mut vcs, "aaa", "Test commit", 0, 42);
    rev.parent_ids = vec![ChangeId::from("left"), ChangeId::from("right")];
    let commits = vcs.commit_count();
    let err = push(
        &mut vcs,
        &mut gh,
        &basic(),
        PushOptions::default().with_message(Some("message")),
        vec![rev],
    )
    .expect_err("push should refuse a multi-parent revision");
    assert_eq!(err.kind(), ErrorKind::InvalidStackTopology);
    assert_eq!(vcs.commit_count(), commits, "nothing may be created before validation");
    assert_eq!(gh.record_count(), 0, "no request may be opened before validation");
}

#[test]
fn conflicted_revision_is_refused() {
    let mut vcs = world();
    let mut gh = ReviewBackend::new();
    let mut rev = commit_revision(&mut vcs, "aaa", "Test commit", 0, 42);
    rev.conflicted = true;
    let err = push(
        &mut vcs,
        &mut gh,
        &basic(),
        PushOptions::default().with_message(Some("message")),
        vec![rev],
    )
    .expect_err("push should refuse a conflicted revision");
    assert_eq!(err.kind(), ErrorKind::InvalidStackTopology);
}

#[test]
fn empty_stack_is_a_no_op() {
    let mut vcs = world();
    let mut gh = ReviewBackend::new();
    let commits = vcs.commit_count();
    push(&mut vcs, &mut gh, &basic(), PushOptions::default(), Vec::new())
        .expect("an empty stack is no error");
    assert_eq!(vcs.commit_count(), commits);
    assert_eq!(gh.record_count(), 0);
}

#[test]
fn push_creates_one_overview_comment() {
    let mut vcs = world();
    let mut gh = ReviewBackend::new();
    let rev = commit_revision(&mut vcs, "aaa", "Test commit", 0, 42);
    push(&mut vcs, &mut gh, &basic(), PushOptions::default().with_message(Some("message")), vec![
        rev,
    ])
    .expect("push shouldn't fail");
    assert_eq!(gh.record_count(), 1, "push must have created a request");
    assert_eq!(gh.record_at(0).comments.len(), 1, "push must post one overview comment");

    let stack = stored_stack(&vcs);
    push(&mut vcs, &mut gh, &basic(), PushOptions::default().with_message(Some("message")), stack)
        .expect("second push shouldn't fail");
    assert_eq!(gh.record_at(0).comments.len(), 1, "commenting logic double posted");
}

#[test]
fn unrelated_comment_is_never_modified() {
    let mut vcs = world();
    let mut gh = ReviewBackend::new();
    let mut rev = commit_revision(&mut vcs, "aaa", "Test commit", 0, 42);
    let pr = PullRequest {
        number: 1,
        state: PullRequestState::Open,
        title: "Test commit".to_string(),
        body: Some(String::new()),
        base: "main".to_string(),
        head: "spr/test/test-commit".to_string(),
    };
    let record = PullRequestRecord {
        pr,
        reviewers: Vec::new(),
        assignees: Vec::new(),
        comments: vec![PullRequestComment {
            id: 7,
            editable: true,
            body: "Some other content".to_string(),
        }],
    };
    gh.insert_record(record).expect("seeding the request should work");
    rev.pull_request_number = Some(1);
    let url = basic().pull_request_url(1);
    rev.message.insert(MessageSection::PullRequest, url);
    vcs.update_revision_message(&rev).expect("seeding the revision should work");

    push(&mut vcs, &mut gh, &basic(), PushOptions::default().with_message(Some("message")), vec![
        rev,
    ])
    .expect("push shouldn't fail");

    let comments = &gh.record_at(0).comments;
    assert_eq!(comments.len(), 2, "the overview must be a new comment");
    assert_eq!(comments[0].body, "Some other content", "unrelated comment was modified");
}

#[test]
fn reviewers_and_assignees_are_set() {
    let mut vcs = world();
    let mut gh = ReviewBackend::new();
    let mut rev = commit_revision(&mut vcs, "aaa", "Test commit", 0, 42);
    rev.message.insert(MessageSection::Reviewers, "rev1,rev2, rev3".to_string());
    rev.message.insert(MessageSection::Assignees, "ass1,ass2, ass3".to_string());
    push(&mut vcs, &mut gh, &basic(), PushOptions::default().with_message(Some("message")), vec![
        rev,
    ])
    .expect("push shouldn't fail");
    let record = gh.record_at(0);
    let revs: Vec<&str> = record.reviewers.iter().map(|s| s.as_str()).collect();
    assert_eq!(revs.as_slice(), &["rev1", "rev2", "rev3"], "the requested people were not recorded");
    let asg: Vec<&str> = record.assignees.iter().map(|s| s.as_str()).collect();
    assert_eq!(asg.as_slice(), &["ass1", "ass2", "ass3"], "Assignees didn't get updated");
}

#[test]
fn fork_point_of_siblings_is_their_parent() {
    let mut vcs = VersionControlBackend::new();
    let p = vcs.add_commit(Vec::new(), 1, "p".to_string());
    let x = vcs.add_commit(vec![p], 2, "x".to_string());
    let y = vcs.add_commit(vec![p], 3, "y".to_string());
    assert_eq!(vcs.merge_base(x, y), Some(p));
}

#[test]
fn base_motion_is_detected_only_forward() {
    let mut vcs = VersionControlBackend::new();
    let m2 = vcs.add_commit(Vec::new(), 1, "m2".to_string());
    let m1 = vcs.add_commit(vec![m2], 2, "m1".to_string());
    let trunk = vcs.add_commit(vec![m1], 3, "trunk".to_string());
    let head = vcs.add_commit(vec![m1], 4, "head".to_string());
    let local = vcs.add_commit(vec![m2], 5, "local".to_string());
    assert_eq!(
        detect_base_motion(&vcs, head, local, trunk).expect("triangulation should work"),
        Some(m1),
        "a forward-moved base must be detected"
    );
    let head_old = vcs.add_commit(vec![m2], 6, "older head".to_string());
    assert_eq!(
        detect_base_motion(&vcs, head_old, local, trunk).expect("triangulation should work"),
        None,
        "an unmoved base must not trigger a rebase"
    );
}

#[test]
fn by_head_refuses_an_ambiguous_branch() {
    let mut gh = ReviewBackend::new();
    gh.new_pull_request("One", "", "main", "spr/same", false).expect("creation works");
    gh.new_pull_request("Two", "", "main", "spr/same", false).expect("creation works");
    assert!(gh.pull_request_by_head("spr/same").is_err(), "two candidates must be refused");
    gh.new_pull_request("Three", "", "main", "spr/other", false).expect("creation works");
    assert_eq!(gh.pull_request_by_head("spr/other").expect("one candidate").number, 3);
}

#[test]
fn derived_commits_carry_their_message() {
    let mut vcs = world();
    let mut gh = ReviewBackend::new();
    let rev = commit_revision(&mut vcs, "aaa", "Test commit", 0, 42);
    push(&mut vcs, &mut gh, &basic(), PushOptions::default().with_message(Some("message")), vec![
        rev,
    ])
    .expect("push shouldn't fail");
    let target = vcs.branch_target("spr/test/test-commit").expect("branch should exist");
    assert_eq!(
        vcs.message_of(target),
        "Test commit\n\n\n\nCreated using jj-spr",
        "a first publish synthesizes the message from the trailers"
    );
}

#[test]
fn sync_prunes_closed_requests() {
    let mut vcs = world();
    let mut gh = ReviewBackend::new();
    let rev = commit_revision(&mut vcs, "aaa", "Test commit", 0, 42);
    push(&mut vcs, &mut gh, &basic(), PushOptions::default().with_message(Some("message")), vec![
        rev,
    ])
    .expect("push shouldn't fail");
    let number = gh.record_at(0).pr.number;
    let mut update = jj_spr::github::PullRequestUpdate::default();
    update.state = Some(PullRequestState::Closed);
    gh.update_pull_request(number, update).expect("closing the request should work");

    assert_eq!(vcs.revision_count(), 1);
    jj_spr::sync::sync(
        &mut vcs,
        &gh,
        &basic(),
        &jj_spr::sync::SyncOpts { revset: None },
        vec!["aaa".to_string()],
    )
    .expect("sync shouldn't fail");
    assert_eq!(vcs.revision_count(), 0, "the landed revision must be pruned");
}

#[test]
fn fetch_with_rebase_follows_a_moved_base() {
    let mut vcs = world();
    let mut gh = ReviewBackend::new();
    let rev = commit_revision(&mut vcs, "aaa", "Test commit", 0, 42);
    push(&mut vcs, &mut gh, &basic(), PushOptions::default().with_message(Some("message")), vec![
        rev,
    ])
    .expect("push shouldn't fail");

    // Someone merges new trunk work into the request's branch upstream.
    let new_trunk = vcs.add_commit(vec![0], 7, "new trunk work".to_string());
    vcs.set_branch("main", new_trunk);
    let head = vcs.branch_target("spr/test/test-commit").expect("branch should exist");
    let merged = vcs.add_commit(vec![head, new_trunk], 8, "merge trunk into the request".to_string());
    vcs.set_branch("spr/test/test-commit", merged);

    jj_spr::fetch::fetch(
        jj_spr::fetch::FetchOptions::default().with_rebase(),
        &mut vcs,
        &gh,
        &basic(),
        vec![0],
    )
    .expect("fetch shouldn't fail");

    let local = vcs.revision_at(0).commit;
    assert!(
        vcs.is_ancestor(new_trunk, local),
        "the local revision must now sit on the moved base"
    );
    assert_eq!(
        vcs.merge_base(local, new_trunk),
        Some(new_trunk),
        "the local change's fork point with trunk must be the moved base"
    );
    assert_eq!(vcs.tree_of(local), 8, "the remote content must be folded in");
}

#[test]
fn fetch_without_motion_keeps_the_base() {
    let mut vcs = world();
    let mut gh = ReviewBackend::new();
    let rev = commit_revision(&mut vcs, "aaa", "Test commit", 0, 42);
    push(&mut vcs, &mut gh, &basic(), PushOptions::default().with_message(Some("message")), vec![
        rev,
    ])
    .expect("push shouldn't fail");
    let commits_before = vcs.commit_count();

    jj_spr::fetch::fetch(
        jj_spr::fetch::FetchOptions::default().with_pull_code(),
        &mut vcs,
        &gh,
        &basic(),
        vec![0],
    )
    .expect("fetch shouldn't fail");

    let local = vcs.revision_at(0).commit;
    assert!(vcs.is_ancestor(0, local), "the revision stays on the old trunk");
    assert_eq!(
        vcs.commit_count(),
        commits_before + 1,
        "only the content fold may create a commit"
    );
}

#[test]
fn fetch_takes_over_request_title_and_body() {
    let mut vcs = world();
    let mut gh = ReviewBackend::new();
    let rev = commit_revision(&mut vcs, "aaa", "Test commit", 0, 42);
    push(&mut vcs, &mut gh, &basic(), PushOptions::default().with_message(Some("message")), vec![
        rev,
    ])
    .expect("push shouldn't fail");
    let number = gh.record_at(0).pr.number;
    let mut update = jj_spr::github::PullRequestUpdate::default();
    update.title = Some("New Title".to_string());
    update.body = Some("New Summary".to_string());
    gh.update_pull_request(number, update).expect("the request exists");

    jj_spr::fetch::fetch(
        jj_spr::fetch::FetchOptions::default(),
        &mut vcs,
        &gh,
        &basic(),
        vec![0],
    )
    .expect("fetch shouldn't fail");

    let rev = vcs.revision_at(0);
    assert_eq!(
        rev.message.get(MessageSection::Title).map(|s| s.as_str()),
        Some("New Title"),
        "Title was not updated"
    );
    assert_eq!(
        rev.message.get(MessageSection::Summary).map(|s| s.as_str()),
        Some("New Summary"),
        "Summary was not updated"
    );
}

#[test]
fn adopt_and_patch_bring_requests_in() {
    let mut vcs = world();
    let mut gh = ReviewBackend::new();
    let head_commit = vcs.add_commit(vec![0], 9, "adopted work".to_string());
    vcs.set_branch("spr/test/adopted", head_commit);
    let record = PullRequestRecord {
        pr: PullRequest {
            number: 4,
            state: PullRequestState::Open,
            title: "Adopted".to_string(),
            body: Some("Body".to_string()),
            base: "main".to_string(),
            head: "spr/test/adopted".to_string(),
        },
        reviewers: Vec::new(),
        assignees: Vec::new(),
        comments: Vec::new(),
    };
    gh.insert_record(record).expect("seeding the request should work");

    jj_spr::patch::patch(
        &jj_spr::patch::PatchOptions { pull_request: 4, branch_name: None, no_checkout: true },
        &mut vcs,
        &gh,
        &basic(),
    )
    .expect("patch shouldn't fail");
    assert_eq!(vcs.revision_count(), 1);
    let rev = vcs.revision_at(0);
    assert_eq!(rev.commit, head_commit);
    assert_eq!(rev.pull_request_number, Some(4));
    assert_eq!(rev.parent_ids.len(), 1, "an adopted revision must be pushable");
    assert_eq!(rev.parent_ids[0].as_ref(), "main", "a trunk-based request parents on the trunk");

    let found = jj_spr::adopt::find_commit_for_pr(&vcs, &basic(), 4)
        .expect("the adopted revision names its request");
    assert_eq!(found, 0);
    assert!(jj_spr::adopt::find_commit_for_pr(&vcs, &basic(), 9).is_err());
}

#[test]
fn patch_refuses_a_stacked_request() {
    let mut vcs = world();
    let gh = {
        let mut gh = ReviewBackend::new();
        let record = PullRequestRecord {
            pr: PullRequest {
                number: 4,
                state: PullRequestState::Open,
                title: "Stacked".to_string(),
                body: None,
                base: "spr/test/other".to_string(),
                head: "spr/test/stacked".to_string(),
            },
            reviewers: Vec::new(),
            assignees: Vec::new(),
            comments: Vec::new(),
        };
        gh.insert_record(record).expect("seeding the request should work");
        gh
    };
    assert!(
        jj_spr::patch::patch(
            &jj_spr::patch::PatchOptions { pull_request: 4, branch_name: None, no_checkout: true },
            &mut vcs,
            &gh,
            &basic(),
        )
        .is_err(),
        "a stacked request cannot be patched in directly"
    );
}

#[test]
fn adopt_brings_in_a_stacked_chain() {
    let mut vcs = world();
    let mut gh = ReviewBackend::new();
    let c1 = vcs.add_commit(vec![0], 21, "base work".to_string());
    let c2 = vcs.add_commit(vec![c1], 22, "stacked work".to_string());
    vcs.set_branch("spr/test/base", c1);
    vcs.set_branch("spr/test/stacked", c2);
    gh.insert_record(PullRequestRecord {
        pr: PullRequest {
            number: 1,
            state: PullRequestState::Open,
            title: "Base".to_string(),
            body: None,
            base: "main".to_string(),
            head: "spr/test/base".to_string(),
        },
        reviewers: Vec::new(),
        assignees: Vec::new(),
        comments: Vec::new(),
    })
    .expect("seeding should work");
    gh.insert_record(PullRequestRecord {
        pr: PullRequest {
            number: 2,
            state: PullRequestState::Open,
            title: "Stacked".to_string(),
            body: None,
            base: "spr/test/base".to_string(),
            head: "spr/test/stacked".to_string(),
        },
        reviewers: Vec::new(),
        assignees: Vec::new(),
        comments: Vec::new(),
    })
    .expect("seeding should work");

    jj_spr::adopt::adopt(
        &jj_spr::adopt::AdoptOptions { pull_request: 2, branch_name: None, no_checkout: true },
        &mut vcs,
        &gh,
        &basic(),
    )
    .expect("adopting a stacked chain shouldn't fail");

    assert_eq!(vcs.revision_count(), 2, "both requests of the chain must be adopted");
    let base_idx =
        jj_spr::adopt::find_commit_for_pr(&vcs, &basic(), 1).expect("the base must be local");
    let child_idx =
        jj_spr::adopt::find_commit_for_pr(&vcs, &basic(), 2).expect("the child must be local");
    let base_id = vcs.revision_at(base_idx).id.as_ref().to_string();
    let child = vcs.revision_at(child_idx);
    assert_eq!(child.commit, c2);
    assert_eq!(child.parent_ids.len(), 1);
    assert_eq!(
        child.parent_ids[0].as_ref(),
        base_id,
        "the child must be parented on its base request's revision"
    );
    assert_eq!(vcs.revision_at(base_idx).parent_ids[0].as_ref(), "main");
}

#[test]
fn adopt_stops_at_an_already_adopted_base() {
    let mut vcs = world();
    let mut gh = ReviewBackend::new();
    let c1 = vcs.add_commit(vec![0], 21, "base work".to_string());
    let c2 = vcs.add_commit(vec![c1], 22, "stacked work".to_string());
    vcs.set_branch("spr/test/base", c1);
    vcs.set_branch("spr/test/stacked", c2);
    gh.insert_record(PullRequestRecord {
        pr: PullRequest {
            number: 1,
            state: PullRequestState::Open,
            title: "Base".to_string(),
            body: None,
            base: "main".to_string(),
            head: "spr/test/base".to_string(),
        },
        reviewers: Vec::new(),
        assignees: Vec::new(),
        comments: Vec::new(),
    })
    .expect("seeding should work");
    gh.insert_record(PullRequestRecord {
        pr: PullRequest {
            number: 2,
            state: PullRequestState::Open,
            title: "Stacked".to_string(),
            body: None,
            base: "spr/test/base".to_string(),
            head: "spr/test/stacked".to_string(),
        },
        reviewers: Vec::new(),
        assignees: Vec::new(),
        comments: Vec::new(),
    })
    .expect("seeding should work");

    // The base request is already adopted locally.
    let pr1 = gh.pull_request(1).expect("seeded");
    jj_spr::adopt::do_adopt(&mut vcs, &basic(), &pr1, None).expect("adopting the base works");
    assert_eq!(vcs.revision_count(), 1);

    jj_spr::adopt::adopt(
        &jj_spr::adopt::AdoptOptions { pull_request: 2, branch_name: None, no_checkout: true },
        &mut vcs,
        &gh,
        &basic(),
    )
    .expect("adopting on top of an adopted base shouldn't fail");

    assert_eq!(vcs.revision_count(), 2, "the base must not be adopted twice");
    let base_idx = jj_spr::adopt::find_commit_for_pr(&vcs, &basic(), 1).expect("still local");
    let child_idx = jj_spr::adopt::find_commit_for_pr(&vcs, &basic(), 2).expect("now local");
    let base_id = vcs.revision_at(base_idx).id.as_ref().to_string();
    assert_eq!(
        vcs.revision_at(child_idx).parent_ids[0].as_ref(),
        base_id,
        "the child must be parented on the already-adopted base"
    );
}

#[test]
fn fetch_with_rebase_reparents_a_stacked_request() {
    let mut vcs = world();
    let mut gh = ReviewBackend::new();
    let a = commit_revision(&mut vcs, "aaa", "Test commit", 0, 42);
    let b = {
        let c = vcs.add_commit(vec![a.commit], 43, "Test other commit".to_string());
        let mut message = Message::new();
        message.insert(MessageSection::Title, "Test other commit".to_string());
        let rev = Revision {
            id: ChangeId::from("bbb"),
            commit: c,
            parent_ids: vec![ChangeId::from("aaa")],
            pull_request_number: None,
            title: "Test other commit".to_string(),
            message,
            bookmarks: Vec::new(),
            conflicted: false,
            divergent: false,
        };
        vcs.add_revision(rev.clone());
        rev
    };
    push(&mut vcs, &mut gh, &basic(), PushOptions::default().with_message(Some("message")), vec![
        a, b,
    ])
    .expect("push shouldn't fail");

    let parent_local = vcs.revision_at(0).commit;
    jj_spr::fetch::fetch(
        jj_spr::fetch::FetchOptions::default().with_rebase(),
        &mut vcs,
        &gh,
        &basic(),
        vec![1],
    )
    .expect("fetch shouldn't fail");

    let child = vcs.revision_at(1).commit;
    assert_eq!(
        vcs.parents_of(child).clone(),
        vec![parent_local],
        "the child must be re-parented onto the base request's local revision"
    );
}

#[test]
fn fetch_without_rebase_keeps_the_parents() {
    let mut vcs = world();
    let mut gh = ReviewBackend::new();
    let rev = commit_revision(&mut vcs, "aaa", "Test commit", 0, 42);
    push(&mut vcs, &mut gh, &basic(), PushOptions::default().with_message(Some("message")), vec![
        rev,
    ])
    .expect("push shouldn't fail");
    let local_before = vcs.revision_at(0).commit;
    let parents_before = vcs.parents_of(local_before).clone();

    jj_spr::fetch::fetch(
        jj_spr::fetch::FetchOptions::default().with_pull_code(),
        &mut vcs,
        &gh,
        &basic(),
        vec![0],
    )
    .expect("fetch shouldn't fail");

    let local = vcs.revision_at(0).commit;
    assert_eq!(
        vcs.parents_of(local).clone(),
        parents_before,
        "a pull without motion and without a requested rebase keeps the parents"
    );
}

#[test]
fn sync_keeps_open_requests_and_rebases_them_onto_trunk() {
    let mut vcs = world();
    let mut gh = ReviewBackend::new();
    let rev = commit_revision(&mut vcs, "aaa", "Test commit", 0, 42);
    push(&mut vcs, &mut gh, &basic(), PushOptions::default().with_message(Some("message")), vec![
        rev,
    ])
    .expect("push shouldn't fail");

    // Trunk moves on while the request stays open.
    let new_trunk = vcs.add_commit(vec![0], 7, "new trunk work".to_string());
    vcs.set_branch("main", new_trunk);

    jj_spr::sync::sync(
        &mut vcs,
        &gh,
        &basic(),
        &jj_spr::sync::SyncOpts { revset: None },
        vec!["aaa".to_string()],
    )
    .expect("sync shouldn't fail");

    assert_eq!(vcs.revision_count(), 1, "the open request's revision must be kept");
    let local = vcs.revision_at(0).commit;
    assert!(
        vcs.is_ancestor(new_trunk, local),
        "the kept revision must be rebased onto the current trunk tip"
    );
}
