use git_utils::auth::negotiate;
use git_utils::auth::AuthConfig;
use git_utils::auth::CredentialRequest;
use git_utils::errors::CommandError;
use git_utils::merge::MergeClassification;
use git_utils::repo::Branch;
use git_utils::repo::RemoteBranch;
use git_utils::repo::RepoState;
use git_utils::sync::sync;
use git_utils::sync::SyncEnv;

fn branch(name: &str, target: u64, tracking: bool, upstream: Option<u64>) -> Branch {
    Branch { name: name.to_string(), target, tracking, upstream }
}

fn remote(name: &str, target: u64) -> RemoteBranch {
    RemoteBranch { name: name.to_string(), target }
}

fn quiet_env(
    default_branch: &str,
    remote_branches: Vec<RemoteBranch>,
    head_is_ancestor: bool,
    n_branches: usize,
) -> SyncEnv {
    SyncEnv {
        default_branch: Some(default_branch.to_string()),
        remote_branches,
        fetch_error: None,
        head_is_ancestor,
        checkout_ok: true,
        delete_ok: vec![true; n_branches],
        default_fetch_error: None,
    }
}

fn branch_names(repo: &RepoState) -> Vec<String> {
    repo.branches.iter().map(|b| b.name.clone()).collect()
}

#[test]
fn test_fast_forward_advances_head() {
    // Local HEAD at commit 1, remote advanced to 2, 1 an ancestor of 2.
    let mut repo = RepoState {
        branches: vec![branch("main", 1, true, Some(1))],
        current: "main".to_string(),
    };
    let env = quiet_env("main", vec![remote("main", 2)], true, 1);
    let report = sync(&mut repo, env).unwrap();
    assert_eq!(report.classification, Some(MergeClassification::FastForwardable(2)));
    assert_eq!(repo.branches[0].target, 2);
    assert_eq!(repo.current, "main");
}

#[test]
fn test_diverged_leaves_head_alone() {
    // Local HEAD at commit 1, remote at sibling commit 3: no ancestry.
    let mut repo = RepoState {
        branches: vec![branch("main", 1, true, Some(1))],
        current: "main".to_string(),
    };
    let env = quiet_env("main", vec![remote("main", 3)], false, 1);
    let report = sync(&mut repo, env).unwrap();
    assert_eq!(report.classification, Some(MergeClassification::Diverged));
    assert_eq!(repo.branches[0].target, 1);
}

#[test]
fn test_up_to_date_is_a_no_op() {
    let mut repo = RepoState {
        branches: vec![branch("main", 5, true, Some(5))],
        current: "main".to_string(),
    };
    let env = quiet_env("main", vec![remote("main", 5)], false, 1);
    let report = sync(&mut repo, env).unwrap();
    assert_eq!(report.classification, Some(MergeClassification::UpToDate));
    assert_eq!(repo.branches[0].target, 5);
}

#[test]
fn test_no_remote_tracking_ref_skips_merge() {
    let mut repo = RepoState {
        branches: vec![branch("main", 5, false, None)],
        current: "main".to_string(),
    };
    let env = quiet_env("main", vec![], false, 1);
    let report = sync(&mut repo, env).unwrap();
    assert_eq!(report.classification, None);
    assert_eq!(repo.branches[0].target, 5);
}

#[test]
fn test_prune_removes_gone_branch_and_keeps_the_rest() {
    // feature-a's upstream is deleted on the remote, feature-b's is intact,
    // main is checked out.
    let mut repo = RepoState {
        branches: vec![
            branch("main", 1, true, Some(1)),
            branch("feature-a", 2, true, Some(9)),
            branch("feature-b", 3, true, Some(3)),
        ],
        current: "main".to_string(),
    };
    let env = quiet_env(
        "main",
        vec![remote("main", 1), remote("feature-b", 3)],
        false,
        3,
    );
    let report = sync(&mut repo, env).unwrap();
    assert_eq!(report.deleted, vec!["feature-a".to_string()]);
    assert_eq!(report.prune_failures, Vec::<String>::new());
    assert_eq!(branch_names(&repo), vec!["main".to_string(), "feature-b".to_string()]);
    assert_eq!(repo.branches[0].target, 1);
}

#[test]
fn test_branch_that_never_had_an_upstream_is_pruned() {
    // The prune criterion is deliberately permissive: no resolvable
    // upstream also matches a branch that never had one configured.
    let mut repo = RepoState {
        branches: vec![
            branch("main", 1, true, Some(1)),
            branch("loose", 2, false, None),
        ],
        current: "main".to_string(),
    };
    let env = quiet_env("main", vec![remote("main", 1)], false, 2);
    let report = sync(&mut repo, env).unwrap();
    assert_eq!(report.deleted, vec!["loose".to_string()]);
    assert_eq!(branch_names(&repo), vec!["main".to_string()]);
}

#[test]
fn test_current_branch_is_never_pruned() {
    // The checked-out branch has no upstream at all; it stays.
    let mut repo = RepoState {
        branches: vec![branch("scratch", 4, false, None)],
        current: "scratch".to_string(),
    };
    let env = quiet_env("main", vec![remote("main", 7)], false, 1);
    let report = sync(&mut repo, env).unwrap();
    assert_eq!(report.deleted, Vec::<String>::new());
    assert!(branch_names(&repo).contains(&"scratch".to_string()));
}

#[test]
fn test_failed_deletion_is_collected_not_fatal() {
    let mut repo = RepoState {
        branches: vec![
            branch("main", 1, true, Some(1)),
            branch("stuck", 2, false, None),
        ],
        current: "main".to_string(),
    };
    let env = SyncEnv {
        default_branch: Some("main".to_string()),
        remote_branches: vec![remote("main", 1)],
        fetch_error: None,
        head_is_ancestor: false,
        checkout_ok: true,
        delete_ok: vec![true, false],
        default_fetch_error: None,
    };
    let report = sync(&mut repo, env).unwrap();
    assert_eq!(report.deleted, Vec::<String>::new());
    assert_eq!(report.prune_failures, vec!["stuck".to_string()]);
    assert!(branch_names(&repo).contains(&"stuck".to_string()));
}

#[test]
fn test_default_branch_is_fetched_into_local_name() {
    // Checked out on feature-a while the remote's default branch is main:
    // a local main appears, tracking the remote's main, without a checkout.
    let mut repo = RepoState {
        branches: vec![branch("feature-a", 2, true, Some(2))],
        current: "feature-a".to_string(),
    };
    let env = quiet_env(
        "main",
        vec![remote("feature-a", 2), remote("main", 7)],
        false,
        1,
    );
    let report = sync(&mut repo, env).unwrap();
    assert_eq!(report.classification, Some(MergeClassification::UpToDate));
    assert_eq!(repo.current, "feature-a");
    let main = repo.branches.iter().find(|b| b.name == "main").unwrap();
    assert_eq!(main.target, 7);
    assert_eq!(main.upstream, Some(7));
    assert!(main.tracking);
}

#[test]
fn test_default_branch_fetch_updates_existing_local_branch() {
    // A local main lags behind while feature-a is checked out: the final
    // stage moves main to the remote's position without checking it out.
    let mut repo = RepoState {
        branches: vec![
            branch("feature-a", 2, true, Some(2)),
            branch("main", 1, true, Some(1)),
        ],
        current: "feature-a".to_string(),
    };
    let env = quiet_env(
        "main",
        vec![remote("feature-a", 2), remote("main", 7)],
        false,
        2,
    );
    sync(&mut repo, env).unwrap();
    assert_eq!(repo.current, "feature-a");
    let main = repo.branches.iter().find(|b| b.name == "main").unwrap();
    assert_eq!(main.target, 7);
    assert_eq!(main.upstream, Some(7));
}

#[test]
fn test_auth_exhaustion_aborts_without_mutation() {
    // The remote keeps demanding an SSH key nobody can supply: the
    // negotiation exhausts its retry bound, the fetch fails with that
    // error, and the repository is untouched.
    let cfg = AuthConfig { url_username: None, ssh_key_path: None, agent_available: false };
    let requests = vec![CredentialRequest::SshKey; 6];
    let auth_error = negotiate(&cfg, &requests).unwrap_err();
    assert_eq!(auth_error, CommandError::AuthExhausted);
    let mut repo = RepoState {
        branches: vec![
            branch("main", 1, true, Some(1)),
            branch("gone", 2, false, None),
        ],
        current: "main".to_string(),
    };
    let env = SyncEnv {
        default_branch: Some("main".to_string()),
        remote_branches: vec![remote("main", 9)],
        fetch_error: Some(auth_error),
        head_is_ancestor: true,
        checkout_ok: true,
        delete_ok: vec![true, true],
        default_fetch_error: None,
    };
    let result = sync(&mut repo, env);
    assert_eq!(result.unwrap_err(), CommandError::AuthExhausted);
    assert_eq!(branch_names(&repo), vec!["main".to_string(), "gone".to_string()]);
    assert_eq!(repo.branches[0].target, 1);
    assert_eq!(repo.branches[0].upstream, Some(1));
}

#[test]
fn test_unresolved_default_branch_aborts() {
    let mut repo = RepoState {
        branches: vec![branch("main", 1, true, Some(1))],
        current: "main".to_string(),
    };
    let env = SyncEnv {
        default_branch: None,
        remote_branches: vec![],
        fetch_error: None,
        head_is_ancestor: false,
        checkout_ok: true,
        delete_ok: vec![true],
        default_fetch_error: None,
    };
    let result = sync(&mut repo, env);
    assert_eq!(result.unwrap_err(), CommandError::RefResolutionFailure);
    assert_eq!(repo.branches[0].target, 1);
}

#[test]
fn test_checkout_failure_is_fatal() {
    let mut repo = RepoState {
        branches: vec![branch("main", 1, true, Some(1))],
        current: "main".to_string(),
    };
    let env = SyncEnv {
        default_branch: Some("main".to_string()),
        remote_branches: vec![remote("main", 2)],
        fetch_error: None,
        head_is_ancestor: true,
        checkout_ok: false,
        delete_ok: vec![true],
        default_fetch_error: None,
    };
    let result = sync(&mut repo, env);
    assert_eq!(result.unwrap_err(), CommandError::CheckoutFailure);
    assert_eq!(repo.branches[0].target, 1);
}

#[test]
fn test_default_branch_fetch_failure_is_fatal_after_pruning() {
    let mut repo = RepoState {
        branches: vec![
            branch("feature-a", 2, true, Some(2)),
            branch("gone", 3, false, None),
        ],
        current: "feature-a".to_string(),
    };
    let env = SyncEnv {
        default_branch: Some("main".to_string()),
        remote_branches: vec![remote("feature-a", 2), remote("main", 7)],
        fetch_error: None,
        head_is_ancestor: false,
        checkout_ok: true,
        delete_ok: vec![true, true],
        default_fetch_error: Some(CommandError::TransportFailure),
    };
    let result = sync(&mut repo, env);
    assert_eq!(result.unwrap_err(), CommandError::TransportFailure);
    // Pruning had already run; the failure concerns only the last stage.
    assert_eq!(branch_names(&repo), vec!["feature-a".to_string()]);
}

#[test]
fn test_second_sync_is_up_to_date_and_deletes_nothing() {
    // Two runs against an unchanged remote: the second finds everything in
    // place.
    let mut repo = RepoState {
        branches: vec![
            branch("main", 1, true, Some(1)),
            branch("feature-a", 2, true, Some(9)),
        ],
        current: "main".to_string(),
    };
    let env1 = quiet_env("main", vec![remote("main", 2)], true, 2);
    let report1 = sync(&mut repo, env1).unwrap();
    assert_eq!(report1.classification, Some(MergeClassification::FastForwardable(2)));
    assert_eq!(report1.deleted, vec!["feature-a".to_string()]);

    let names_after_first = branch_names(&repo);
    let env2 = quiet_env("main", vec![remote("main", 2)], false, repo.branches.len());
    let report2 = sync(&mut repo, env2).unwrap();
    assert_eq!(report2.classification, Some(MergeClassification::UpToDate));
    assert_eq!(report2.deleted, Vec::<String>::new());
    assert_eq!(branch_names(&repo), names_after_first);
    assert_eq!(repo.branches[0].target, 2);
}
