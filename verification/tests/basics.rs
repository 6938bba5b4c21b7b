use git_utils::errors::CommandError;
use git_utils::log_level;
use git_utils::merge::MergeClassification;
use git_utils::merge::analyze;
use git_utils::LogLevel;

#[test]
fn test_log_level_info() {
    assert_eq!(log_level(0), LogLevel::Info);
}

#[test]
fn test_log_level_debug() {
    assert_eq!(log_level(1), LogLevel::Debug);
}

#[test]
fn test_log_level_trace() {
    assert_eq!(log_level(2), LogLevel::Trace);
    assert_eq!(log_level(255), LogLevel::Trace);
}

#[test]
fn test_error_messages() {
    assert_eq!(CommandError::RepositoryNotFound.message(), "repository not found");
    assert_eq!(CommandError::RemoteNotFound.message(), "remote not found");
    assert_eq!(CommandError::AuthExhausted.message(), "authentication retries exhausted");
    assert_eq!(CommandError::TransportFailure.message(), "transport failure");
    assert_eq!(CommandError::RefResolutionFailure.message(), "reference resolution failure");
    assert_eq!(CommandError::FetchFailure.message(), "fetch failure");
    assert_eq!(CommandError::BranchDeletionFailure.message(), "branch deletion failure");
    assert_eq!(CommandError::CheckoutFailure.message(), "checkout failure");
}

#[test]
fn test_analyze_same_commit_is_up_to_date() {
    assert_eq!(analyze(42, 42, false), MergeClassification::UpToDate);
    assert_eq!(analyze(42, 42, true), MergeClassification::UpToDate);
}

#[test]
fn test_analyze_ancestor_is_fast_forwardable() {
    assert_eq!(analyze(1, 2, true), MergeClassification::FastForwardable(2));
}

#[test]
fn test_analyze_unrelated_is_diverged() {
    assert_eq!(analyze(1, 3, false), MergeClassification::Diverged);
}

#[test]
fn test_analyze_is_deterministic() {
    let first = analyze(7, 9, true);
    let second = analyze(7, 9, true);
    assert_eq!(first, second);
}
