use git_utils::auth::AuthConfig;
use git_utils::auth::AuthState;
use git_utils::auth::AuthStep;
use git_utils::auth::CredentialRequest;
use git_utils::auth::CredentialResponse;
use git_utils::auth::MAX_AUTH_ROUNDS;
use git_utils::auth::negotiate;
use git_utils::errors::CommandError;

fn bare_config() -> AuthConfig {
    AuthConfig { url_username: None, ssh_key_path: None, agent_available: false }
}

#[test]
fn test_username_defaults_to_git() {
    let cfg = bare_config();
    let requests = vec![CredentialRequest::Username];
    let responses = negotiate(&cfg, &requests).unwrap();
    assert_eq!(responses, vec![CredentialResponse::Username("git".to_string())]);
}

#[test]
fn test_username_taken_from_url() {
    let cfg = AuthConfig {
        url_username: Some("alice".to_string()),
        ssh_key_path: None,
        agent_available: false,
    };
    let requests = vec![CredentialRequest::Username];
    let responses = negotiate(&cfg, &requests).unwrap();
    assert_eq!(responses, vec![CredentialResponse::Username("alice".to_string())]);
}

#[test]
fn test_ssh_key_prefers_agent() {
    let cfg = AuthConfig {
        url_username: Some("git".to_string()),
        ssh_key_path: Some("/home/user/.ssh/id_ed25519".to_string()),
        agent_available: true,
    };
    let requests = vec![CredentialRequest::SshKey];
    let responses = negotiate(&cfg, &requests).unwrap();
    assert_eq!(responses, vec![CredentialResponse::SshAgent("git".to_string())]);
}

#[test]
fn test_ssh_key_from_configured_path() {
    let cfg = AuthConfig {
        url_username: None,
        ssh_key_path: Some("/home/user/.ssh/id_ed25519".to_string()),
        agent_available: false,
    };
    let requests = vec![CredentialRequest::SshKey];
    let responses = negotiate(&cfg, &requests).unwrap();
    assert_eq!(
        responses,
        vec![CredentialResponse::SshKeyFile(
            "git".to_string(),
            "/home/user/.ssh/id_ed25519".to_string()
        )]
    );
}

#[test]
fn test_ssh_key_without_source_falls_back_to_username() {
    let cfg = bare_config();
    let requests = vec![CredentialRequest::SshKey];
    let responses = negotiate(&cfg, &requests).unwrap();
    assert_eq!(responses, vec![CredentialResponse::Username("git".to_string())]);
}

#[test]
fn test_anonymous_and_default_mechanism() {
    let cfg = bare_config();
    let requests = vec![CredentialRequest::Anonymous, CredentialRequest::DefaultMechanism];
    let responses = negotiate(&cfg, &requests).unwrap();
    assert_eq!(
        responses,
        vec![CredentialResponse::Anonymous, CredentialResponse::DefaultMechanism]
    );
}

#[test]
fn test_negotiation_at_the_bound_succeeds() {
    let cfg = bare_config();
    let requests = vec![CredentialRequest::Username; MAX_AUTH_ROUNDS as usize];
    let responses = negotiate(&cfg, &requests).unwrap();
    assert_eq!(responses.len(), MAX_AUTH_ROUNDS as usize);
}

#[test]
fn test_negotiation_past_the_bound_is_exhausted() {
    let cfg = bare_config();
    let requests = vec![CredentialRequest::SshKey; MAX_AUTH_ROUNDS as usize + 1];
    let result = negotiate(&cfg, &requests);
    assert_eq!(result, Err(CommandError::AuthExhausted));
}

#[test]
fn test_changing_request_kinds_does_not_extend_the_bound() {
    let cfg = bare_config();
    let requests = vec![
        CredentialRequest::Anonymous,
        CredentialRequest::Username,
        CredentialRequest::SshKey,
        CredentialRequest::DefaultMechanism,
        CredentialRequest::Username,
        CredentialRequest::SshKey,
    ];
    let result = negotiate(&cfg, &requests);
    assert_eq!(result, Err(CommandError::AuthExhausted));
}

#[test]
fn test_dispatcher_stops_at_the_bound() {
    let cfg = bare_config();
    let mut state = AuthState::new();
    let mut answered: u32 = 0;
    for _ in 0..100 {
        match state.respond(&cfg, CredentialRequest::SshKey) {
            AuthStep::Attempt(_) => answered += 1,
            AuthStep::Exhausted => break,
        }
    }
    assert_eq!(answered, MAX_AUTH_ROUNDS);
    assert_eq!(state.rounds, MAX_AUTH_ROUNDS);
}
