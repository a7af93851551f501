use gdam::git::{default_branch, ensure_repo, extract_repo_name, get_commit_hash, is_valid_git_url, RepoStep};

#[test]
fn repo_name_of_https_url_with_suffix() {
    assert_eq!(extract_repo_name("https://example.com/foo/bar.git"), Some("bar".to_string()));
}

#[test]
fn repo_name_of_scp_style_url() {
    assert_eq!(extract_repo_name("git@example.com:foo/baz"), Some("baz".to_string()));
}

#[test]
fn repo_name_strips_trailing_separators_and_suffixes() {
    assert_eq!(extract_repo_name("https://example.com/foo/repo.git/"), Some("repo".to_string()));
    assert_eq!(extract_repo_name("https://example.com/foo/repo///"), Some("repo".to_string()));
    assert_eq!(extract_repo_name("https://example.com/a.git.git"), Some("a".to_string()));
}

#[test]
fn repo_name_keeps_a_url_without_separator() {
    assert_eq!(extract_repo_name("plain"), Some("plain".to_string()));
}

#[test]
fn repo_name_missing_for_empty_or_separators_only() {
    assert_eq!(extract_repo_name(""), None);
    assert_eq!(extract_repo_name("///"), None);
    assert_eq!(extract_repo_name("https://example.com/foo/.git"), None);
}

#[test]
fn valid_git_urls() {
    assert!(is_valid_git_url("http://example.com/a"));
    assert!(is_valid_git_url("https://example.com/a"));
    assert!(is_valid_git_url("git@example.com:a/b"));
    assert!(is_valid_git_url("git://example.com/a"));
}

#[test]
fn invalid_git_urls() {
    assert!(!is_valid_git_url(""));
    assert!(!is_valid_git_url("ftp://example.com/a"));
    assert!(!is_valid_git_url("example.com/a"));
    assert!(!is_valid_git_url("https:/example.com"));
    assert!(!is_valid_git_url("HTTPS://example.com"));
}

#[test]
fn ensure_repo_clones_or_fetches() {
    assert_eq!(ensure_repo(false), RepoStep::Clone);
    assert_eq!(ensure_repo(true), RepoStep::Fetch);
}

#[test]
fn commit_hash_is_trimmed() {
    assert_eq!(get_commit_hash("  3f2a9c1d\n"), "3f2a9c1d");
    assert_eq!(get_commit_hash(""), "");
}

#[test]
fn default_branch_from_symbolic_ref() {
    assert_eq!(default_branch(true, "origin/develop\n"), "develop");
    assert_eq!(default_branch(true, " trunk "), "trunk");
    assert_eq!(default_branch(false, "origin/develop\n"), "main");
}

#[test]
fn commit_hash_trims_unicode_white_space_like_str_trim() {
    let raw = "\u{3000}\u{a0}\u{2009}abc def\u{85}\u{200a}\r\n";
    assert_eq!(get_commit_hash(raw), raw.trim());
    assert_eq!(get_commit_hash(raw), "abc def");
    let kept = "\u{200b}x\u{180e}";
    assert_eq!(get_commit_hash(kept), kept.trim());
}
