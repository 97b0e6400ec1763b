use wilma_dumper::auth::{
    begin_authorization, complete_session, oauth_authenticate, receive_handoff, redeem, AuthError,
};
use wilma_dumper::ipc::{encode_message, IPCMessage};
use wilma_dumper::models::{OpenIDConfiguration, OpenIDProvider};

fn b(s: &str) -> Vec<u8> {
    s.as_bytes().to_vec()
}

fn handoff(state: &str, verifier: &str) -> IPCMessage {
    IPCMessage::TokenRequest {
        state: b(state),
        client_id: b("client-1"),
        token_endpoint: b("https://idp.example/token"),
        code_verifier: b(verifier),
    }
}

#[test]
fn state_mismatch_is_fatal_before_any_exchange() {
    let msg = handoff("expected-state", "verifier");
    let url = b("wilma://oauth?code=AUTH&state=other-state");
    assert_eq!(redeem(&url, &msg), Err(AuthError::StateMismatch));
    assert_eq!(
        redeem(&url, &msg).err().unwrap().message(),
        "State mismatch"
    );
}

#[test]
fn missing_state_is_fatal_before_any_exchange() {
    let msg = handoff("expected-state", "verifier");
    let url = b("wilma://oauth?code=AUTH");
    assert_eq!(redeem(&url, &msg), Err(AuthError::StateMissing));
    assert_eq!(redeem(&url, &msg).err().unwrap().message(), "State missing");
}

#[test]
fn missing_code_is_fatal() {
    let msg = handoff("st", "verifier");
    let url = b("wilma://oauth?state=st");
    assert_eq!(redeem(&url, &msg), Err(AuthError::MissingCode));
}

#[test]
fn wrong_scheme_is_fatal() {
    let msg = handoff("st", "verifier");
    assert_eq!(
        redeem(&b("https://oauth?code=c&state=st"), &msg),
        Err(AuthError::InvalidScheme)
    );
    assert_eq!(
        redeem(&b("no-colon-here"), &msg),
        Err(AuthError::InvalidScheme)
    );
    // The scheme compares case-insensitively, as URL parsers lower it.
    assert!(redeem(&b("WILMA://oauth?code=c&state=st"), &msg).is_ok());
}

#[test]
fn valid_redirect_yields_the_token_request_form() {
    let msg = handoff("st123", "ver456");
    let url = b("wilma://oauth?code=AUTHCODE&state=st123");
    let x = redeem(&url, &msg).unwrap();
    assert_eq!(x.token_endpoint, b("https://idp.example/token"));
    let fields: Vec<(String, String)> = x
        .form
        .iter()
        .map(|f| {
            (
                String::from_utf8(f.name.clone()).unwrap(),
                String::from_utf8(f.value.clone()).unwrap(),
            )
        })
        .collect();
    assert_eq!(
        fields,
        vec![
            ("client_id".to_string(), "client-1".to_string()),
            ("grant_type".to_string(), "authorization_code".to_string()),
            ("redirect_uri".to_string(), "wilma://oauth".to_string()),
            ("code".to_string(), "AUTHCODE".to_string()),
            ("code_verifier".to_string(), "ver456".to_string()),
        ]
    );
}

#[test]
fn query_values_are_form_decoded() {
    let msg = handoff("a b+c", "v");
    let url = b("wilma://oauth?state=a+b%2Bc&code=x%41y");
    let x = redeem(&url, &msg).unwrap();
    assert_eq!(x.form[3].value, b("xAy"));
}

#[test]
fn later_duplicate_parameter_wins() {
    let msg = handoff("second", "v");
    let url = b("wilma://oauth?state=first&code=c&state=second");
    assert!(redeem(&url, &msg).is_ok());
}

#[test]
fn fragment_is_no_query() {
    let msg = handoff("st", "v");
    let url = b("wilma://oauth#state=st&code=c");
    assert_eq!(redeem(&url, &msg), Err(AuthError::StateMissing));
}

#[test]
fn handoff_in_wrong_direction_is_a_protocol_error() {
    let msg = IPCMessage::TokenResponse { access_token: b("a"), id_token: b("i") };
    let url = b("wilma://oauth?code=c&state=st");
    assert_eq!(redeem(&url, &msg), Err(AuthError::UnexpectedMessage));
}

#[test]
fn receive_handoff_takes_only_token_requests() {
    let good = handoff("s", "v");
    let got = receive_handoff(&encode_message(&good)).unwrap();
    assert_eq!(got, good);

    let wrong = IPCMessage::TokenResponse { access_token: b("a"), id_token: b("i") };
    assert_eq!(
        receive_handoff(&encode_message(&wrong)),
        Err(AuthError::UnexpectedMessage)
    );
    assert_eq!(
        receive_handoff(&b("garbage")),
        Err(AuthError::MalformedMessage)
    );
}

#[test]
fn complete_session_takes_only_token_responses() {
    let good = IPCMessage::TokenResponse { access_token: b("AT1"), id_token: b("IT1") };
    let t = complete_session(&encode_message(&good)).unwrap();
    assert_eq!(t.access_token, b("AT1"));
    assert_eq!(t.id_token, b("IT1"));

    let wrong = handoff("s", "v");
    assert_eq!(
        complete_session(&encode_message(&wrong)),
        Err(AuthError::UnexpectedMessage)
    );
    assert_eq!(
        complete_session(&b("{}")),
        Err(AuthError::MalformedMessage)
    );
}

#[test]
fn oauth_authenticate_checks_scheme_then_code() {
    assert_eq!(
        oauth_authenticate(&b("https://x?code=c"), &b("ci"), &b("cv")),
        Err(AuthError::InvalidScheme)
    );
    assert_eq!(
        oauth_authenticate(&b("wilma://oauth"), &b("ci"), &b("cv")),
        Err(AuthError::MissingCode)
    );
    let form = oauth_authenticate(&b("wilma://oauth?code=C1"), &b("ci"), &b("cv")).unwrap();
    assert_eq!(form.len(), 5);
    assert_eq!(form[0].name, b("client_id"));
    assert_eq!(form[0].value, b("ci"));
    assert_eq!(form[3].value, b("C1"));
    assert_eq!(form[4].value, b("cv"));
}

#[test]
fn begin_authorization_builds_the_exact_url_and_handoff() {
    let provider = OpenIDProvider {
        name: "Test IdP".to_string(),
        client_id: "client-xyz".to_string(),
        configuration: "https://idp.example/.well-known/openid-configuration".to_string(),
        scope: "openid email".to_string(),
    };
    let configuration = OpenIDConfiguration {
        issuer: "https://idp.example".to_string(),
        authorization_endpoint: "https://idp.example/authorize".to_string(),
        token_endpoint: "https://idp.example/token".to_string(),
    };
    let start = begin_authorization(&provider, &configuration);

    let s = &start.session;
    assert_eq!(s.client_id, b("client-xyz"));
    assert_eq!(s.token_endpoint, b("https://idp.example/token"));
    assert_eq!(s.state.len(), 64);
    assert_eq!(s.code_verifier.len(), 64);

    // The URL is raw assembly: the exact parameters, in order, with the
    // scope's + untouched.
    let mut expected = b("https://idp.example/authorize?client_id=client-xyz&response_type=code\
        &scope=openid+email&redirect_uri=wilma://oauth&state=");
    expected.extend_from_slice(&s.state);
    expected.extend_from_slice(b"&code_challenge_method=S256&code_challenge=");
    expected.extend_from_slice(&s.code_challenge);
    assert_eq!(start.authorize_url, expected);

    // The handoff carries the verifier and never the challenge.
    match &start.handoff {
        IPCMessage::TokenRequest { state, client_id, token_endpoint, code_verifier } => {
            assert_eq!(state, &s.state);
            assert_eq!(client_id, &s.client_id);
            assert_eq!(token_endpoint, &s.token_endpoint);
            assert_eq!(code_verifier, &s.code_verifier);
        },
        _ => panic!("handoff must be a TokenRequest"),
    }
    let wire = String::from_utf8(encode_message(&start.handoff)).unwrap();
    assert!(!wire.contains(&String::from_utf8(s.code_challenge.clone()).unwrap()));
}

#[test]
fn authorize_url_replaces_an_existing_query() {
    let provider = OpenIDProvider {
        name: "p".to_string(),
        client_id: "c".to_string(),
        configuration: "x".to_string(),
        scope: "openid".to_string(),
    };
    let configuration = OpenIDConfiguration {
        issuer: "i".to_string(),
        authorization_endpoint: "https://idp/auth?old=1".to_string(),
        token_endpoint: "https://idp/token".to_string(),
    };
    let start = begin_authorization(&provider, &configuration);
    let url = String::from_utf8(start.authorize_url).unwrap();
    assert!(url.starts_with("https://idp/auth?client_id=c&"));
    assert!(!url.contains("old=1"));
}
