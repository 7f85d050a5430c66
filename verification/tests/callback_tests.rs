use esi_rust::callback::CallbackListener;
use esi_rust::callback::CallbackOutcome;
use esi_rust::callback::CallbackResponse;
use esi_rust::callback::lookup_param;
use esi_rust::login::StateString;

fn listener_expecting(state: &str) -> CallbackListener {
    let mut l = CallbackListener::new(
        [127, 0, 0, 1],
        8080,
        "/callback",
        StateString::Custom(state.to_string()),
    );
    l.start();
    l
}

#[test]
fn matching_state_yields_code() {
    let mut l = listener_expecting("S1");
    let r = l.handle_request("GET", "/callback", "code=abc123&state=S1");
    assert!(r == CallbackResponse::Received);
    match l.take_outcome() {
        Some(CallbackOutcome::Code(c)) => assert_eq!(c, "abc123"),
        _ => panic!("expected the authorization code"),
    }
}

#[test]
fn wrong_state_yields_mismatch() {
    let mut l = listener_expecting("S2");
    let r = l.handle_request("GET", "/callback", "code=abc123&state=S1");
    assert!(r == CallbackResponse::Received);
    match l.take_outcome() {
        Some(CallbackOutcome::StateMismatch) => {}
        _ => panic!("expected a state mismatch"),
    }
}

#[test]
fn missing_state_yields_mismatch() {
    let mut l = listener_expecting("S1");
    let _ = l.handle_request("GET", "/callback", "code=abc123");
    match l.take_outcome() {
        Some(CallbackOutcome::StateMismatch) => {}
        _ => panic!("expected a state mismatch"),
    }
}

#[test]
fn missing_code_yields_listener_error() {
    let mut l = listener_expecting("S1");
    let _ = l.handle_request("GET", "/callback", "state=S1");
    match l.take_outcome() {
        Some(CallbackOutcome::ListenerError) => {}
        _ => panic!("expected a listener error"),
    }
}

#[test]
fn unrelated_path_gets_not_found_and_keeps_listening() {
    let mut l = listener_expecting("S1");
    let r = l.handle_request("GET", "/other", "code=abc123&state=S1");
    assert!(r == CallbackResponse::NotFound);
    assert!(l.is_listening());
    let r = l.handle_request("POST", "/callback", "code=abc123&state=S1");
    assert!(r == CallbackResponse::NotFound);
    assert!(l.is_listening());
    let r = l.handle_request("GET", "/callback", "code=abc123&state=S1");
    assert!(r == CallbackResponse::Received);
    match l.take_outcome() {
        Some(CallbackOutcome::Code(c)) => assert_eq!(c, "abc123"),
        _ => panic!("expected the authorization code"),
    }
}

#[test]
fn no_second_outcome_after_resolution() {
    let mut l = listener_expecting("S1");
    let _ = l.handle_request("GET", "/callback", "code=first&state=S1");
    let r = l.handle_request("GET", "/callback", "code=second&state=S1");
    assert!(r == CallbackResponse::NotFound);
    match l.take_outcome() {
        Some(CallbackOutcome::Code(c)) => assert_eq!(c, "first"),
        _ => panic!("expected the first code"),
    }
    assert!(l.take_outcome().is_none());
    let r = l.handle_request("GET", "/callback", "code=third&state=S1");
    assert!(r == CallbackResponse::NotFound);
}

#[test]
fn outcome_before_resolution_is_none() {
    let mut l = listener_expecting("S1");
    assert!(l.take_outcome().is_none());
    assert!(l.is_listening());
}

#[test]
fn lookup_param_finds_first_value() {
    assert_eq!(lookup_param("code=abc123&state=S1", "code").as_deref(), Some("abc123"));
    assert_eq!(lookup_param("code=abc123&state=S1", "state").as_deref(), Some("S1"));
    assert_eq!(lookup_param("a=1&a=2", "a").as_deref(), Some("1"));
    assert_eq!(lookup_param("flag&a=1", "flag").as_deref(), Some(""));
    assert_eq!(lookup_param("a=1&b=2", "c"), None);
    assert_eq!(lookup_param("", "a"), None);
    assert_eq!(lookup_param("a=x=y", "a").as_deref(), Some("x=y"));
}
