use git_utils::url::repo_title_from_url;
use git_utils::url::strip_refs_heads;
use git_utils::url::username_from_url;

#[test]
fn test_repo_title_ssh_url() {
    let url = "git@github.com:geoffjay/git-utils.git".to_string();
    assert_eq!(repo_title_from_url(&url), "geoffjay/git-utils");
}

#[test]
fn test_repo_title_https_url() {
    let url = "https://github.com/geoffjay/git-utils.git".to_string();
    assert_eq!(repo_title_from_url(&url), "geoffjay/git-utils");
}

#[test]
fn test_repo_title_with_dots_and_hyphens() {
    assert_eq!(
        repo_title_from_url("git@git.example.org:my-team/my.repo.git"),
        "my-team/my.repo"
    );
}

#[test]
fn test_repo_title_passes_unrecognized_urls_through() {
    assert_eq!(repo_title_from_url("ssh://host/x.git"), "ssh://host/x.git");
    assert_eq!(repo_title_from_url("git@github.com:geoffjay/git-utils"), "git@github.com:geoffjay/git-utils");
    assert_eq!(repo_title_from_url(""), "");
}

#[test]
fn test_username_from_ssh_url() {
    assert_eq!(
        username_from_url("git@github.com:geoffjay/git-utils.git"),
        Some("git".to_string())
    );
}

#[test]
fn test_username_from_url_with_named_user() {
    assert_eq!(username_from_url("alice@example.com:a/b.git"), Some("alice".to_string()));
}

#[test]
fn test_username_absent_from_https_url() {
    assert_eq!(username_from_url("https://github.com/geoffjay/git-utils.git"), None);
}

#[test]
fn test_strip_refs_heads_branch() {
    assert_eq!(strip_refs_heads("refs/heads/main"), Some("main".to_string()));
    assert_eq!(strip_refs_heads("refs/heads/feature/x"), Some("feature/x".to_string()));
}

#[test]
fn test_strip_refs_heads_rejects_other_namespaces() {
    assert_eq!(strip_refs_heads("refs/tags/v1.0"), None);
    assert_eq!(strip_refs_heads("HEAD"), None);
}
