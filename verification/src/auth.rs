//! The authentication-retry dispatcher.
//!
//! A remote may refuse an attempt and ask for another kind of credential;
//! the transport layer reports each such request, and the dispatcher
//! answers it from the configuration. Instead of a callback invoked
//! recursively by the transport, the negotiation is an explicit sequence of
//! request/response rounds under a fixed bound, so that termination is a
//! stated, checkable property: after `MAX_AUTH_ROUNDS` failed rounds the
//! dispatcher reports `AuthExhausted` rather than answering again.

use vstd::prelude::*;

use crate::errors::CommandError;

verus! {

/// The fixed cap on authentication rounds: the dispatcher answers at most
/// this many credential requests before giving up.
pub const MAX_AUTH_ROUNDS: u32 = 5;

/// The kind of credential a remote asks for at one retry round.
#[derive(Clone, Copy, PartialEq, Eq, Structural, Debug)]
pub enum CredentialRequest {
    /// The remote accepts unauthenticated access.
    Anonymous,
    /// The remote wants a plain username.
    Username,
    /// The remote wants an SSH-key-based signature.
    SshKey,
    /// The remote wants the transport's default credential mechanism.
    DefaultMechanism,
}

/// Credential material supplied for one connection attempt.
#[derive(PartialEq, Eq, Debug)]
pub enum CredentialResponse {
    /// Connect without credentials.
    Anonymous,
    /// Offer the given username.
    Username(String),
    /// Sign with a key held by the local SSH agent, for the given username.
    SshAgent(String),
    /// Sign with the private key at the given path (second field), for the
    /// given username (first field).
    SshKeyFile(String, String),
    /// Use the transport's default credential mechanism.
    DefaultMechanism,
}

/// Mathematical image of a `CredentialResponse`.
pub enum CredentialResponseView {
    Anonymous,
    Username(Seq<char>),
    SshAgent(Seq<char>),
    SshKeyFile(Seq<char>, Seq<char>),
    DefaultMechanism,
}

impl View for CredentialResponse {
    type V = CredentialResponseView;

    open spec fn view(&self) -> CredentialResponseView {
        match self {
            CredentialResponse::Anonymous => CredentialResponseView::Anonymous,
            CredentialResponse::Username(u) => CredentialResponseView::Username(u@),
            CredentialResponse::SshAgent(u) => CredentialResponseView::SshAgent(u@),
            CredentialResponse::SshKeyFile(u, p) => CredentialResponseView::SshKeyFile(u@, p@),
            CredentialResponse::DefaultMechanism => CredentialResponseView::DefaultMechanism,
        }
    }
}

/// What the credential provider has to work with: a username taken from the
/// remote URL if it names one, a private-key path from the environment if
/// one is configured, and whether a local SSH agent is reachable.
pub struct AuthConfig {
    pub url_username: Option<String>,
    pub ssh_key_path: Option<String>,
    pub agent_available: bool,
}

/// Mathematical image of an `AuthConfig`.
pub struct AuthConfigView {
    pub url_username: Option<Seq<char>>,
    pub ssh_key_path: Option<Seq<char>>,
    pub agent_available: bool,
}

impl View for AuthConfig {
    type V = AuthConfigView;

    open spec fn view(&self) -> AuthConfigView {
        AuthConfigView {
            url_username: match self.url_username {
                Option::Some(ref u) => Option::Some(u@),
                Option::None => Option::None,
            },
            ssh_key_path: match self.ssh_key_path {
                Option::Some(ref p) => Option::Some(p@),
                Option::None => Option::None,
            },
            agent_available: self.agent_available,
        }
    }
}

/// The username offered to the remote: the one embedded in the remote URL
/// when present, `git` otherwise.
pub open spec fn resolved_username_spec(cfg: AuthConfigView) -> Seq<char> {
    match cfg.url_username {
        Option::Some(u) => u,
        Option::None => "git"@,
    }
}

/// The response the dispatcher gives to one credential request. An SSH-key
/// request is answered from the agent first, then from a configured key
/// path; with neither available the plain username is offered, which the
/// remote will keep refusing until the retry bound trips.
pub open spec fn response_spec(cfg: AuthConfigView, req: CredentialRequest) -> CredentialResponseView {
    match req {
        CredentialRequest::Anonymous => CredentialResponseView::Anonymous,
        CredentialRequest::Username => CredentialResponseView::Username(
            resolved_username_spec(cfg),
        ),
        CredentialRequest::DefaultMechanism => CredentialResponseView::DefaultMechanism,
        CredentialRequest::SshKey => {
            if cfg.agent_available {
                CredentialResponseView::SshAgent(resolved_username_spec(cfg))
            } else {
                match cfg.ssh_key_path {
                    Option::Some(p) => CredentialResponseView::SshKeyFile(
                        resolved_username_spec(cfg),
                        p,
                    ),
                    Option::None => CredentialResponseView::Username(resolved_username_spec(cfg)),
                }
            }
        },
    }
}

/// The username offered to the remote, as a value.
pub fn resolved_username(cfg: &AuthConfig) -> (u: String)
    ensures
        u@ == resolved_username_spec(cfg@),
{
    match &cfg.url_username {
        Option::Some(u) => u.clone(),
        Option::None => String::from_str("git"),
    }
}

/// The dispatcher's state: how many rounds it has answered so far.
pub struct AuthState {
    pub rounds: u32,
}

/// What the dispatcher does with one more credential request.
pub enum AuthStep {
    /// Try again with this credential material.
    Attempt(CredentialResponse),
    /// The retry bound is reached; give up.
    Exhausted,
}

impl AuthState {
    /// A dispatcher that has not answered any request yet.
    pub fn new() -> (s: AuthState)
        ensures
            s.rounds == 0,
    {
        AuthState { rounds: 0 }
    }

    /// Answer one credential request, or give up once the bound is reached.
    ///
    /// The round counter never passes `MAX_AUTH_ROUNDS`, and at the bound
    /// the state no longer changes: the negotiation cannot loop forever.
    pub fn respond(&mut self, cfg: &AuthConfig, req: CredentialRequest) -> (step: AuthStep)
        requires
            old(self).rounds <= MAX_AUTH_ROUNDS,
        ensures
            final(self).rounds <= MAX_AUTH_ROUNDS,
            old(self).rounds == MAX_AUTH_ROUNDS ==> step is Exhausted && *final(self) == *old(self),
            old(self).rounds < MAX_AUTH_ROUNDS ==> ({
                &&& final(self).rounds == old(self).rounds + 1
                &&& step matches AuthStep::Attempt(r) && r@ == response_spec(cfg@, req)
            }),
    {
        if self.rounds >= MAX_AUTH_ROUNDS {
            return AuthStep::Exhausted;
        }
        self.rounds = self.rounds + 1;
        let user = resolved_username(cfg);
        let resp = match req {
            CredentialRequest::Anonymous => CredentialResponse::Anonymous,
            CredentialRequest::Username => CredentialResponse::Username(user),
            CredentialRequest::DefaultMechanism => CredentialResponse::DefaultMechanism,
            CredentialRequest::SshKey => {
                if cfg.agent_available {
                    CredentialResponse::SshAgent(user)
                } else {
                    match &cfg.ssh_key_path {
                        Option::Some(p) => CredentialResponse::SshKeyFile(user, p.clone()),
                        Option::None => CredentialResponse::Username(user),
                    }
                }
            },
        };
        AuthStep::Attempt(resp)
    }
}

/// Run a whole negotiation against the transcript of credential requests
/// the remote makes on successive failed attempts.
///
/// Every request within the bound is answered exactly as `response_spec`
/// says; a transcript longer than `MAX_AUTH_ROUNDS` means the remote never
/// accepted anything the configuration can supply, and the negotiation
/// surfaces `AuthExhausted` instead of answering past the bound.
pub fn negotiate(cfg: &AuthConfig, requests: &Vec<CredentialRequest>) -> (r: Result<
    Vec<CredentialResponse>,
    CommandError,
>)
    ensures
        requests@.len() <= MAX_AUTH_ROUNDS ==> (r matches Ok(responses)
            && responses@.len() == requests@.len() && (forall|j: int|
            0 <= j < requests@.len() ==> responses@[j]@ == response_spec(cfg@, requests@[j]))),
        requests@.len() > MAX_AUTH_ROUNDS ==> (r matches Err(e) && e == CommandError::AuthExhausted),
        r matches Ok(responses) ==> responses@.len() == auth_rounds_spec(requests@),
{
    let mut state = AuthState::new();
    let mut responses: Vec<CredentialResponse> = Vec::new();
    let mut i: usize = 0;
    while i < requests.len()
        invariant
            i <= requests@.len(),
            state.rounds <= MAX_AUTH_ROUNDS,
            state.rounds == i,
            responses@.len() == i,
            forall|j: int| 0 <= j < i ==> responses@[j]@ == response_spec(cfg@, requests@[j]),
        decreases requests@.len() - i,
    {
        match state.respond(cfg, requests[i]) {
            AuthStep::Attempt(resp) => {
                responses.push(resp);
            },
            AuthStep::Exhausted => {
                return Err(CommandError::AuthExhausted);
            },
        }
        i = i + 1;
    }
    Ok(responses)
}

/// The number of rounds a negotiation over the given transcript answers:
/// one per request, cut off at the bound.
pub open spec fn auth_rounds_spec(requests: Seq<CredentialRequest>) -> nat {
    if requests.len() <= MAX_AUTH_ROUNDS {
        requests.len()
    } else {
        MAX_AUTH_ROUNDS as nat
    }
}

/// However many rounds a remote asks for, and whatever kinds it asks for,
/// the dispatcher answers at most `MAX_AUTH_ROUNDS` of them.
pub proof fn lemma_auth_rounds_bounded(requests: Seq<CredentialRequest>)
    ensures
        auth_rounds_spec(requests) <= MAX_AUTH_ROUNDS,
{
}

} // verus!
