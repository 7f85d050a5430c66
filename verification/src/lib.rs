//! Client-side core of an OAuth2 authorization-code-with-PKCE login flow
//! against a single sign-on provider: canonical scope accounting, PKCE
//! state and verifier material, deterministic authorization-URL
//! construction, the callback listener's state machine, and the login
//! orchestrator's decisions. Outside work — the browser launch, the
//! loopback HTTP server, the outbound HTTP client — is performed by the
//! embedding code, which reports each result back to these machines.

pub mod callback;
pub mod login;
pub mod orchestrator;
pub mod scopes;
