//! The login orchestrator's decision core: one login attempt as a state
//! machine from collaborator results to the next step. The embedding code
//! performs the outside work — opening the browser and serving the
//! loopback listener — and reports each result here; every decision about
//! the attempt is made, and verified, in this machine.

use crate::callback::CallbackOutcome;
use crate::login::CodeVerifier;
use crate::login::StateString;
use crate::login::auth_url;
use crate::login::gen_url;
use crate::login::is_alnum_seq;
use crate::scopes::ScopeManager;
use crate::scopes::render_scopes;
use vstd::prelude::*;

verus! {

/// Every way one login attempt can fail, each surfaced as its own
/// inspectable variant.
#[derive(Clone, Copy, Debug, PartialEq, Eq, Structural)]
pub enum LoginError {
    /// The browser could not be opened; the listener is never started.
    LaunchFailed,
    /// The loopback port could not be bound.
    ListenerBindFailed,
    /// The callback returned a state other than the expected one.
    StateMismatch,
    /// The callback was malformed: state matched but no code came.
    ListenerError,
    /// No valid callback arrived within the caller's budget.
    Timeout,
}

/// Where one attempt stands.
pub enum LoginStage {
    /// The URL is built; the browser collaborator has not reported yet.
    Launching,
    /// The browser was opened; the listener may now be started.
    AwaitingCallback,
    /// The attempt ended, in success or failure.
    Finished,
}

/// One login attempt: the materialized PKCE values, the authorization URL
/// built from them, and the attempt's stage.
pub struct LoginOrchestrator {
    pub state_str: String,
    pub code_ver: [u8; 32],
    pub url: String,
    pub stage: LoginStage,
}

impl LoginOrchestrator {
    /// The attempt's PKCE values, which no step changes.
    pub open spec fn same_material(a: Self, b: Self) -> bool {
        &&& a.state_str@ == b.state_str@
        &&& a.code_ver@ == b.code_ver@
        &&& a.url@ == b.url@
    }

    /// Begins an attempt: materializes the state string and code verifier,
    /// renders the scope set, and builds the authorization URL. The
    /// browser collaborator should now be handed `auth_url()`.
    pub fn begin(
        client_id: &str,
        redirect_uri: &str,
        scopes: &ScopeManager,
        state_mode: StateString,
        verifier_mode: CodeVerifier,
    ) -> (r: LoginOrchestrator)
        requires
            scopes.wf(),
        ensures
            r.stage is Launching,
            r.url@ == auth_url(
                client_id@,
                redirect_uri@,
                render_scopes(scopes@),
                r.state_str@,
                r.code_ver@,
            ),
            state_mode matches StateString::Custom(s) ==> r.state_str == s,
            state_mode is Standard ==> r.state_str@.len() == 16 && is_alnum_seq(r.state_str@),
            verifier_mode matches CodeVerifier::Custom(v) ==> r.code_ver == v,
    {
        let state_str = state_mode.resolve();
        let code_ver = verifier_mode.resolve();
        let url = gen_url(
            client_id,
            redirect_uri,
            scopes.get_scope_string(),
            state_str.as_str(),
            &code_ver,
        );
        LoginOrchestrator { state_str, code_ver, url, stage: LoginStage::Launching }
    }

    /// The authorization URL to hand to the browser collaborator.
    pub fn auth_url(&self) -> (r: &str)
        ensures
            r@ == self.url@,
    {
        self.url.as_str()
    }

    /// Whether the attempt is waiting for the callback; the listener is
    /// started exactly while this holds.
    pub fn awaiting_callback(&self) -> (r: bool)
        ensures
            r == (self.stage is AwaitingCallback),
    {
        match &self.stage {
            LoginStage::AwaitingCallback => true,
            _ => false,
        }
    }

    /// Reports the browser collaborator's result. On failure the attempt
    /// ends at once with `LaunchFailed`, before any listener exists; on
    /// success the attempt waits for the callback.
    pub fn browser_launched(&mut self, ok: bool) -> (r: Result<(), LoginError>)
        requires
            old(self).stage is Launching,
        ensures
            Self::same_material(*old(self), *final(self)),
            ok ==> r is Ok && final(self).stage is AwaitingCallback,
            !ok ==> r == Err::<(), LoginError>(LoginError::LaunchFailed)
                && final(self).stage is Finished,
    {
        if ok {
            self.stage = LoginStage::AwaitingCallback;
            Ok(())
        } else {
            self.stage = LoginStage::Finished;
            Err(LoginError::LaunchFailed)
        }
    }

    /// Reports whether the loopback socket could be bound. On failure the
    /// attempt ends with `ListenerBindFailed`.
    pub fn listener_bound(&mut self, ok: bool) -> (r: Result<(), LoginError>)
        requires
            old(self).stage is AwaitingCallback,
        ensures
            Self::same_material(*old(self), *final(self)),
            ok ==> r is Ok && final(self).stage is AwaitingCallback,
            !ok ==> r == Err::<(), LoginError>(LoginError::ListenerBindFailed)
                && final(self).stage is Finished,
    {
        if ok {
            Ok(())
        } else {
            self.stage = LoginStage::Finished;
            Err(LoginError::ListenerBindFailed)
        }
    }

    /// Maps the listener's outcome to the attempt's result: the captured
    /// code together with the attempt's state string and verifier on
    /// success, and the matching error on a rejected attempt.
    pub fn finish(self, outcome: CallbackOutcome) -> (r: Result<
        (StateString, CodeVerifier, String),
        LoginError,
    >)
        requires
            self.stage is AwaitingCallback,
        ensures
            outcome matches CallbackOutcome::Code(c) ==> (r matches Ok((st, cv, code)) && (
            st matches StateString::Custom(s) && s@ == self.state_str@) && (
            cv matches CodeVerifier::Custom(v) && v@ == self.code_ver@) && code@ == c@),
            outcome is StateMismatch ==> r == Err::<(StateString, CodeVerifier, String), LoginError>(
                LoginError::StateMismatch,
            ),
            outcome is ListenerError ==> r == Err::<
                (StateString, CodeVerifier, String),
                LoginError,
            >(LoginError::ListenerError),
    {
        match outcome {
            CallbackOutcome::Code(code) => Ok(
                (
                    StateString::Custom(self.state_str),
                    CodeVerifier::Custom(self.code_ver),
                    code,
                ),
            ),
            CallbackOutcome::StateMismatch => Err(LoginError::StateMismatch),
            CallbackOutcome::ListenerError => Err(LoginError::ListenerError),
        }
    }

    /// Cancels an attempt whose callback did not arrive within the
    /// caller's budget: the attempt ends with `Timeout`, and the embedding
    /// server releases the socket.
    pub fn timed_out(&mut self) -> (r: Result<(), LoginError>)
        requires
            old(self).stage is AwaitingCallback,
        ensures
            Self::same_material(*old(self), *final(self)),
            r == Err::<(), LoginError>(LoginError::Timeout),
            final(self).stage is Finished,
    {
        self.stage = LoginStage::Finished;
        Err(LoginError::Timeout)
    }
}

} // verus!
