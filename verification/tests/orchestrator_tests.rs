use esi_rust::callback::CallbackListener;
use esi_rust::callback::CallbackOutcome;
use esi_rust::login::CodeVerifier;
use esi_rust::login::StateString;
use esi_rust::orchestrator::LoginError;
use esi_rust::orchestrator::LoginOrchestrator;
use esi_rust::scopes::ScopeList;
use esi_rust::scopes::ScopeManager;

fn fixed_orchestrator() -> LoginOrchestrator {
    let mut scopes = ScopeManager::new();
    let _ = scopes.add_scope(ScopeList::SearchStructures);
    LoginOrchestrator::begin(
        "myclient",
        "http://127.0.0.1:8080/callback",
        &scopes,
        StateString::Custom(String::from("S1")),
        CodeVerifier::Custom([8; 32]),
    )
}

#[test]
fn launch_failure_never_starts_listener() {
    let mut orch = fixed_orchestrator();
    let r = orch.browser_launched(false);
    assert_eq!(r, Err(LoginError::LaunchFailed));
    assert!(!orch.awaiting_callback());
}

#[test]
fn bind_failure_fails_the_attempt() {
    let mut orch = fixed_orchestrator();
    assert_eq!(orch.browser_launched(true), Ok(()));
    assert!(orch.awaiting_callback());
    let r = orch.listener_bound(false);
    assert_eq!(r, Err(LoginError::ListenerBindFailed));
    assert!(!orch.awaiting_callback());
}

#[test]
fn timeout_fails_the_attempt() {
    let mut orch = fixed_orchestrator();
    assert_eq!(orch.browser_launched(true), Ok(()));
    let r = orch.timed_out();
    assert_eq!(r, Err(LoginError::Timeout));
    assert!(!orch.awaiting_callback());
}

#[test]
fn successful_login_round_trip() {
    let mut orch = fixed_orchestrator();
    assert!(orch.auth_url().contains("client_id=myclient"));
    assert!(orch.auth_url().contains("state=S1"));
    assert!(orch.auth_url().contains("scope=esi-search.search_structures.v1"));
    assert_eq!(orch.browser_launched(true), Ok(()));
    assert_eq!(orch.listener_bound(true), Ok(()));

    let mut listener = CallbackListener::new(
        [127, 0, 0, 1],
        8080,
        "/callback",
        StateString::Custom(String::from("S1")),
    );
    listener.start();
    let _ = listener.handle_request("GET", "/callback", "code=authcode&state=S1");
    let outcome = listener.take_outcome().expect("the listener resolved");
    match orch.finish(outcome) {
        Ok((state, verifier, code)) => {
            assert_eq!(code, "authcode");
            match state {
                StateString::Custom(s) => assert_eq!(s, "S1"),
                StateString::Standard => panic!("the returned state must be concrete"),
            }
            match verifier {
                CodeVerifier::Custom(v) => assert_eq!(v, [8; 32]),
                CodeVerifier::Standard => panic!("the returned verifier must be concrete"),
            }
        }
        Err(_) => panic!("a state-matched callback must succeed"),
    }
}

#[test]
fn mismatched_callback_is_rejected() {
    let mut orch = fixed_orchestrator();
    assert_eq!(orch.browser_launched(true), Ok(()));
    let r = orch.finish(CallbackOutcome::StateMismatch);
    assert_eq!(r.err(), Some(LoginError::StateMismatch));
}

#[test]
fn malformed_callback_is_rejected() {
    let mut orch = fixed_orchestrator();
    assert_eq!(orch.browser_launched(true), Ok(()));
    let r = orch.finish(CallbackOutcome::ListenerError);
    assert_eq!(r.err(), Some(LoginError::ListenerError));
}
