use jj_spr::config::{AuthTokenSource, Config, GitHubBranch, default_branch_from_jj,
    remote_from_jj, repo_and_owner_from_jj, validate_branch_prefix, value_from_jj};
use jj_spr::utils::{format_u64, parse_u64, slugify, split_commas_trimmed, str_eq, trim_str};

fn config_factory() -> Config {
    Config::new(
        "acme".into(),
        "codez".into(),
        "origin".into(),
        "master".into(),
        "spr/foo/".into(),
    )
}

#[test]
fn test_pull_request_url() {
    let gh = config_factory();

    assert_eq!(&gh.pull_request_url(123), "https://github.com/acme/codez/pull/123");
}

#[test]
fn test_parse_pull_request_field_empty() {
    let gh = config_factory();

    assert_eq!(gh.parse_pull_request_field(""), None);
    assert_eq!(gh.parse_pull_request_field("   "), None);
    assert_eq!(gh.parse_pull_request_field("\n"), None);
}

#[test]
fn test_parse_pull_request_field_number() {
    let gh = config_factory();

    assert_eq!(gh.parse_pull_request_field("123"), Some(123));
    assert_eq!(gh.parse_pull_request_field("   123 "), Some(123));
    assert_eq!(gh.parse_pull_request_field("#123"), Some(123));
    assert_eq!(gh.parse_pull_request_field(" # 123"), Some(123));
}

#[test]
fn test_parse_pull_request_field_url() {
    let gh = config_factory();

    assert_eq!(
        gh.parse_pull_request_field("https://github.com/acme/codez/pull/123"),
        Some(123)
    );
    assert_eq!(
        gh.parse_pull_request_field("  https://github.com/acme/codez/pull/123  "),
        Some(123)
    );
    assert_eq!(
        gh.parse_pull_request_field("https://github.com/acme/codez/pull/123/"),
        Some(123)
    );
    assert_eq!(
        gh.parse_pull_request_field("https://github.com/acme/codez/pull/123?x=a"),
        Some(123)
    );
    assert_eq!(
        gh.parse_pull_request_field("https://github.com/acme/codez/pull/123/foo"),
        Some(123)
    );
    assert_eq!(
        gh.parse_pull_request_field("https://github.com/acme/codez/pull/123#abc"),
        Some(123)
    );
}

#[test]
fn test_branch_prefix_rules() {
    let bad_prefixes: Vec<(&str, &str)> = vec![
        ("spr/.bad", "Cannot start slash-separated component with dot"),
        (".bad", "Cannot start slash-separated component with dot"),
        ("spr/bad.lock", "Cannot end with .lock"),
        ("spr/bad.lock/some_more", "Cannot end slash-separated component with .lock"),
        ("spr/b..ad/bla", "They cannot contain two consecutive dots anywhere"),
        ("spr/bad//bla", "They cannot contain consecutive slashes"),
        ("/bad", "Prefix should not start with slash"),
        ("/bad@{stuff", "Prefix cannot contain sequence @{"),
    ];

    for (branch_prefix, reason) in bad_prefixes {
        assert!(validate_branch_prefix(branch_prefix).is_err(), "{}", reason);
    }

    let ok_prefix = "spr/some.lockprefix/with-stuff/foo";
    assert!(validate_branch_prefix(ok_prefix).is_ok());
}

#[test]
fn test_branch_prefix_rejects_forbidden_characters() {
    assert!(validate_branch_prefix("bad\x1F").is_err());
    assert!(validate_branch_prefix("notbad!").is_ok());
    assert!(validate_branch_prefix("bad /space").is_err(), "Reject space in prefix");
    assert!(validate_branch_prefix("bad~").is_err(), "Reject tilde");
    assert!(validate_branch_prefix("bad^").is_err(), "Reject caret");
    assert!(validate_branch_prefix("bad:").is_err(), "Reject colon");
    assert!(validate_branch_prefix("bad?").is_err(), "Reject ?");
    assert!(validate_branch_prefix("bad*").is_err(), "Reject *");
    assert!(validate_branch_prefix("bad[").is_err(), "Reject [");
    assert!(validate_branch_prefix(r"bad\").is_err(), "Reject \\");
}

#[test]
fn branch_names_avoid_taken_refs() {
    let config = Config::new(
        "test_owner".into(),
        "test_repo".into(),
        "origin".into(),
        "main".into(),
        "spr/test/".into(),
    );
    let existing: Vec<String> = vec![
        "refs/remotes/origin/spr/test/test-commit".to_string(),
        "refs/remotes/origin/spr/test/test-commit-1".to_string(),
    ];
    assert_eq!(config.get_new_branch_name(&Vec::new(), "Test commit"), "spr/test/test-commit");
    assert_eq!(config.get_new_branch_name(&existing, "Test commit"), "spr/test/test-commit-2");
    assert_eq!(config.get_base_branch_name(&Vec::new(), "Test commit"), "spr/test/main.test-commit");
}

#[test]
fn github_branch_reads_refs() {
    let b = GitHubBranch::new_from_ref("refs/heads/main", "origin", "main")
        .expect("a branch ref should parse");
    assert_eq!(b.branch_name(), "main");
    assert!(b.is_master_branch());
    assert_eq!(b.local(), "origin/main");
    assert!(GitHubBranch::new_from_ref("refs/tags/v1", "origin", "main").is_err());

    let other = GitHubBranch::new_from_ref("refs/heads/feature", "origin", "main")
        .expect("a branch ref should parse");
    assert!(!other.is_master_branch());
}

#[test]
fn slugify_flattens_titles() {
    assert_eq!(slugify("Test commit"), "test-commit");
    assert_eq!(slugify("Test other commit"), "test-other-commit");
    assert_eq!(slugify("  Grüße & more  "), "gr-e-more");
    assert_eq!(slugify("UPPER lower 42"), "upper-lower-42");
    assert_eq!(slugify("---"), "");
}

#[test]
fn numbers_render_and_parse() {
    assert_eq!(format_u64(0), "0");
    assert_eq!(format_u64(907), "907");
    assert_eq!(format_u64(u64::MAX), u64::MAX.to_string());
    assert_eq!(parse_u64("907"), Some(907));
    assert_eq!(parse_u64(""), None);
    assert_eq!(parse_u64("12a"), None);
    assert_eq!(parse_u64("99999999999999999999999"), None);
}

#[test]
fn text_helpers() {
    assert!(str_eq("abc", "abc"));
    assert!(!str_eq("abc", "abd"));
    assert_eq!(trim_str("  a b \n"), "a b");
    let parts = split_commas_trimmed("rev1,rev2, rev3");
    let parts: Vec<&str> = parts.iter().map(|s| s.as_str()).collect();
    assert_eq!(parts.as_slice(), &["rev1", "rev2", "rev3"]);
    let single = split_commas_trimmed("only");
    assert_eq!(single.len(), 1);
    assert_eq!(single[0], "only");
}

#[test]
fn remote_guessing() {
    assert_eq!(
        value_from_jj(Some("jj".to_string()), Some("git".to_string())).expect("jj value wins"),
        "jj"
    );
    assert_eq!(value_from_jj(None, Some("git".to_string())).expect("git value stands in"), "git");
    assert!(value_from_jj(None, None).is_err());

    let one = vec!["origin git@github.com/someone/jj-spr.git".to_string()];
    let two = vec![
        "origin git@github.com/someone/jj-spr.git".to_string(),
        "mine git@github.com/user/jj-spr.git".to_string(),
    ];
    assert_eq!(
        remote_from_jj("main@origin", Some("my-remote".to_string()), &two)
            .expect("configured name wins"),
        "my-remote"
    );
    assert_eq!(remote_from_jj("dev@mine", None, &two).expect("alias names the remote"), "mine");
    assert_eq!(remote_from_jj("", None, &one).expect("a single remote is it"), "origin");
    assert!(remote_from_jj("a@b@c", None, &two).is_err());
    assert!(remote_from_jj("", None, &Vec::new()).is_err());

    assert_eq!(
        default_branch_from_jj("main@origin", None).expect("alias names the branch"),
        "main"
    );
    assert_eq!(
        default_branch_from_jj("main@origin", Some("branch".to_string()))
            .expect("configured name wins"),
        "branch"
    );
    assert!(default_branch_from_jj("a@b@c", None).is_err());

    let (repo, owner) = repo_and_owner_from_jj("git@github.com/someone/jj-spr.git", None)
        .expect("the address should parse");
    assert_eq!(owner, "someone");
    assert_eq!(repo, "jj-spr");
    let (repo, owner) =
        repo_and_owner_from_jj("", Some("someone/jj-spr".to_string())).expect("configured");
    assert_eq!(owner, "someone");
    assert_eq!(repo, "jj-spr");
    assert!(repo_and_owner_from_jj("git@gitlab.example/x/y.git", None).is_err());
}

#[test]
fn config_branch_constructors() {
    let config = config_factory();
    let b = config.new_github_branch("master");
    assert!(b.is_master_branch());
    assert_eq!(b.local(), "origin/master");
    let other = config
        .new_github_branch_from_ref("refs/heads/spr/foo/x")
        .expect("a branch ref should parse");
    assert_eq!(other.branch_name(), "spr/foo/x");
    assert!(!other.is_master_branch());
}

#[test]
fn auth_token_sources_hand_out_their_token() {
    assert_eq!(AuthTokenSource::Config("from-config".to_string()).token(), "from-config");
    assert_eq!(AuthTokenSource::GitHubCLI("from-cli".to_string()).token(), "from-cli");
}
