//! The client side of a channel: its endpoint, the login request, and the
//! blocking login confirmation modeled as an explicit state machine.
//!
//! The transport itself (sockets, proxy tunnel, TLS, the framing upgrade)
//! is input and output and lives outside the library; what is verified
//! here is everything the transport carries: which URL each channel uses,
//! the exact login packet, and how each inbound frame moves the handshake
//! forward.

use vstd::prelude::*;
use vstd::string::StringExecFns;

use crate::okx::auth::generate_sign;
use crate::okx::auth::signature_spec;
use crate::okx::protocol::esc;
use crate::okx::protocol::escape_json;
use crate::okx::protocol::opt_str_view;
use crate::okx::protocol::str_is;
use crate::okx::protocol::Endpoint;
use crate::okx::protocol::Envelope;
use crate::okx::protocol::EnvelopeV;

verus! {

/// A connection to one of the two endpoints.
pub struct OkxClient {
    pub endpoint: Endpoint,
}

impl OkxClient {
    pub fn new(endpoint: Endpoint) -> (r: OkxClient)
        ensures
            r.endpoint == endpoint,
    {
        OkxClient { endpoint }
    }
}

/// The login request: credentials, the second-level timestamp, and the
/// signature over the canonical string.
pub open spec fn login_packet_spec(
    key: Seq<char>,
    pass: Seq<char>,
    ts: Seq<char>,
    sign: Seq<char>,
) -> Seq<char> {
    "{\"op\":\"login\",\"args\":[{\"apiKey\":\""@ + esc(key) + "\",\"passphrase\":\""@ + esc(
        pass,
    ) + "\",\"timestamp\":\""@ + esc(ts) + "\",\"sign\":\""@ + esc(sign) + "\"}]}"@
}

/// Builds the login request, signing the timestamp with the secret.
pub fn create_login_packet(
    api_key: &str,
    passphrase: &str,
    secret: &str,
    timestamp: &str,
) -> (r: String)
    ensures
        r@ == login_packet_spec(
            api_key@,
            passphrase@,
            timestamp@,
            signature_spec(secret@, timestamp@),
        ),
{
    let sign = generate_sign(secret, timestamp);
    let mut out = String::new();
    out.append("{\"op\":\"login\",\"args\":[{\"apiKey\":\"");
    let e_key = escape_json(api_key);
    out.append(e_key.as_str());
    out.append("\",\"passphrase\":\"");
    let e_pass = escape_json(passphrase);
    out.append(e_pass.as_str());
    out.append("\",\"timestamp\":\"");
    let e_ts = escape_json(timestamp);
    out.append(e_ts.as_str());
    out.append("\",\"sign\":\"");
    let e_sign = escape_json(sign.as_str());
    out.append(e_sign.as_str());
    out.append("\"}]}");
    out
}

/// What one frame, read while waiting for the login result, means.
pub enum LoginOutcome {
    Success,
    Failure { code: Option<String>, msg: Option<String> },
    Ignore,
}

pub enum LoginOutcomeV {
    Success,
    Failure { code: Option<Seq<char>>, msg: Option<Seq<char>> },
    Ignore,
}

impl View for LoginOutcome {
    type V = LoginOutcomeV;

    open spec fn view(&self) -> LoginOutcomeV {
        match self {
            LoginOutcome::Success => LoginOutcomeV::Success,
            LoginOutcome::Failure { code, msg } => LoginOutcomeV::Failure {
                code: opt_str_view(*code),
                msg: opt_str_view(*msg),
            },
            LoginOutcome::Ignore => LoginOutcomeV::Ignore,
        }
    }
}

/// How a frame is classified while waiting for the login result: the
/// login event with code `0` confirms, an error event rejects with the
/// server's code and message, and every other frame is discarded.
pub open spec fn login_outcome_spec(env: EnvelopeV) -> LoginOutcomeV {
    match env {
        EnvelopeV::SystemEvent { event, code, msg } => {
            if event == "login"@ && code == Some("0"@) {
                LoginOutcomeV::Success
            } else if event == "error"@ {
                LoginOutcomeV::Failure { code, msg }
            } else {
                LoginOutcomeV::Ignore
            }
        },
        _ => LoginOutcomeV::Ignore,
    }
}

/// Classifies one frame read while waiting for the login result.
pub fn classify_login(env: &Envelope) -> (r: LoginOutcome)
    ensures
        r@ == login_outcome_spec(env@),
{
    match env {
        Envelope::SystemEvent { event, code, msg } => {
            let code_is_zero: bool = match code {
                Some(c) => str_is(c.as_str(), "0"),
                None => false,
            };
            if str_is(event.as_str(), "login") && code_is_zero {
                LoginOutcome::Success
            } else if str_is(event.as_str(), "error") {
                let code2: Option<String> = match code {
                    Some(c) => Some(c.clone()),
                    None => None,
                };
                let msg2: Option<String> = match msg {
                    Some(m) => Some(m.clone()),
                    None => None,
                };
                LoginOutcome::Failure { code: code2, msg: msg2 }
            } else {
                LoginOutcome::Ignore
            }
        },
        _ => LoginOutcome::Ignore,
    }
}

/// Where the handshake stands.
#[derive(Clone, Copy, PartialEq, Eq, Structural, Debug)]
pub enum AuthState {
    Authenticating,
    Authenticated,
    Failed,
}

/// The blocking login confirmation, as an explicit state: the request has
/// been sent, and frames arrive one by one until one settles the result.
pub struct AuthHandshake {
    pub state: AuthState,
}

impl AuthHandshake {
    pub fn new() -> (r: AuthHandshake)
        ensures
            r.state == AuthState::Authenticating,
    {
        AuthHandshake { state: AuthState::Authenticating }
    }

    /// Feeds one inbound frame to the handshake.  Only the waiting state
    /// moves: success confirms, an error event fails, anything else is
    /// discarded and the wait goes on.
    pub fn on_frame(&mut self, env: &Envelope)
        ensures
            old(self).state == AuthState::Authenticating ==> final(self).state == (
            match login_outcome_spec(env@) {
                LoginOutcomeV::Success => AuthState::Authenticated,
                LoginOutcomeV::Failure { .. } => AuthState::Failed,
                LoginOutcomeV::Ignore => AuthState::Authenticating,
            }),
            old(self).state != AuthState::Authenticating ==> final(self).state == old(
                self,
            ).state,
    {
        if self.state == AuthState::Authenticating {
            match classify_login(env) {
                LoginOutcome::Success => {
                    self.state = AuthState::Authenticated;
                },
                LoginOutcome::Failure { .. } => {
                    self.state = AuthState::Failed;
                },
                LoginOutcome::Ignore => {},
            }
        }
    }

    /// The channel closed.  A handshake still waiting fails; a settled
    /// one keeps its result.
    pub fn on_close(&mut self)
        ensures
            final(self).state == if old(self).state == AuthState::Authenticating {
                AuthState::Failed
            } else {
                old(self).state
            },
    {
        if self.state == AuthState::Authenticating {
            self.state = AuthState::Failed;
        }
    }

    pub fn is_settled(&self) -> (r: bool)
        ensures
            r == (self.state != AuthState::Authenticating),
    {
        self.state != AuthState::Authenticating
    }
}

} // verus!
