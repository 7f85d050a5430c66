use esi_rust::login::CodeVerifier;
use esi_rust::login::StateString;
use esi_rust::login::gen_url;
use rand::distributions::Alphanumeric;
use rand::distributions::DistString;
use rand::Rng;

#[test]
fn code_verifier_default() {
    match CodeVerifier::default() {
        CodeVerifier::Custom(val) => {
            assert!(val.len() == 32)
        }
        CodeVerifier::Standard => {
            panic!("CodeVerifier default method generated CodeVerifier::Standard.")
        }
    }
}

#[test]
fn code_verifier_custom() {
    let code = rand::thread_rng().gen::<[u8; 32]>();
    match CodeVerifier::Custom(code) {
        CodeVerifier::Custom(val) => {
            assert!(val == code)
        }
        CodeVerifier::Standard => {
            panic!("CodeVerifier default method generated CodeVerifier::Standard.")
        }
    }
}

#[test]
fn state_string_default() {
    match StateString::default() {
        StateString::Custom(val) => {
            assert!(val.len() == 16)
        }
        StateString::Standard => {
            panic!("StateString default method generated StateString::Standard.")
        }
    }
}

#[test]
fn state_string_custom() {
    let state = Alphanumeric.sample_string(&mut rand::thread_rng(), 16);
    match StateString::Custom(state.clone()) {
        StateString::Custom(val) => {
            assert!(val == state)
        }
        StateString::Standard => {
            panic!("StateString default method generated StateString::Standard.")
        }
    }
}

#[test]
fn state_string_default_is_alphanumeric() {
    match StateString::default() {
        StateString::Custom(val) => {
            assert_eq!(val.chars().count(), 16);
            assert!(val.chars().all(|c| c.is_ascii_alphanumeric()));
        }
        StateString::Standard => panic!("default state string must be concrete"),
    }
}

#[test]
fn independent_generations_differ() {
    let a = match StateString::default() {
        StateString::Custom(v) => v,
        StateString::Standard => panic!("default state string must be concrete"),
    };
    let b = match StateString::default() {
        StateString::Custom(v) => v,
        StateString::Standard => panic!("default state string must be concrete"),
    };
    assert_ne!(a, b);
    let x = match CodeVerifier::default() {
        CodeVerifier::Custom(v) => v,
        CodeVerifier::Standard => panic!("default code verifier must be concrete"),
    };
    let y = match CodeVerifier::default() {
        CodeVerifier::Custom(v) => v,
        CodeVerifier::Standard => panic!("default code verifier must be concrete"),
    };
    assert_ne!(x, y);
}

#[test]
fn resolve_keeps_custom_values() {
    let state = StateString::Custom(String::from("statestring"));
    assert_eq!(state.resolve(), "statestring");
    let bytes: [u8; 32] = [8; 32];
    let ver = CodeVerifier::Custom(bytes);
    assert_eq!(ver.resolve(), bytes);
}

#[test]
fn resolve_standard_generates_material() {
    let state = StateString::Standard.resolve();
    assert_eq!(state.chars().count(), 16);
    assert!(state.chars().all(|c| c.is_ascii_alphanumeric()));
}

#[test]
fn gen_url_known_answer() {
    let bytes: [u8; 32] = [8; 32];
    let url = gen_url("myclient", "mycallback", "scopes", "statestring", &bytes);
    assert_eq!(
        "https://login.eveonline.com/v2/oauth/authorize/?response_type=code&redirect_uri=mycallback&client_id=myclient&scope=scopes&code_challenge=CAgICAgICAgICAgICAgICAgICAgICAgICAgICAgICAg%3D&code_challenge_method=S256&state=statestring",
        url
    );
}

#[test]
fn gen_url_percent_encodes_components() {
    let bytes: [u8; 32] = [0; 32];
    let url = gen_url("my client", "http://127.0.0.1:8080/cb", "a b", "s&t", &bytes);
    assert_eq!(
        url,
        "https://login.eveonline.com/v2/oauth/authorize/?response_type=code&redirect_uri=http%3A%2F%2F127.0.0.1%3A8080%2Fcb&client_id=my%20client&scope=a%20b&code_challenge=AAAAAAAAAAAAAAAAAAAAAAAAAAAAAAAAAAAAAAAAAAA%3D&code_challenge_method=S256&state=s%26t"
    );
}
