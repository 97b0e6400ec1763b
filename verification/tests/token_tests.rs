use wilma_dumper::auth::{complete_session, redeem, AuthError};
use wilma_dumper::ipc::{encode_message, parse_message, IPCMessage};
use wilma_dumper::token::parse_token_response;

fn b(s: &str) -> Vec<u8> {
    s.as_bytes().to_vec()
}

#[test]
fn reads_a_compact_answer() {
    let t = parse_token_response(&b("{\"access_token\":\"AT\",\"id_token\":\"IT\"}")).unwrap();
    assert_eq!(t.access_token, b("AT"));
    assert_eq!(t.id_token, b("IT"));
}

#[test]
fn reads_a_spaced_answer_with_extra_members() {
    let body = b(" {\n  \"token_type\" : \"Bearer\",\n  \"expires_in\" : 3600,\n  \
        \"access_token\" : \"AT2\",\n  \"scope\" : \"openid email\",\n  \
        \"id_token\" : \"IT2\",\n  \"refreshable\" : true\n}\n");
    let t = parse_token_response(&body).unwrap();
    assert_eq!(t.access_token, b("AT2"));
    assert_eq!(t.id_token, b("IT2"));
}

#[test]
fn reads_escaped_values() {
    let t = parse_token_response(&b("{\"access_token\":\"A\\\"B\\\\C\\n\",\"id_token\":\"\\u0041\"}"))
        .unwrap();
    assert_eq!(t.access_token, b("A\"B\\C\n"));
    assert_eq!(t.id_token, b("A"));
}

#[test]
fn missing_token_is_fatal() {
    assert_eq!(
        parse_token_response(&b("{\"access_token\":\"AT\"}")),
        Err(AuthError::MalformedTokenResponse)
    );
    assert_eq!(
        parse_token_response(&b("{\"id_token\":\"IT\"}")),
        Err(AuthError::MalformedTokenResponse)
    );
    assert_eq!(
        parse_token_response(&b("{}")),
        Err(AuthError::MalformedTokenResponse)
    );
}

#[test]
fn non_string_token_is_fatal() {
    assert_eq!(
        parse_token_response(&b("{\"access_token\":42,\"id_token\":\"IT\"}")),
        Err(AuthError::MalformedTokenResponse)
    );
}

#[test]
fn nested_members_are_skipped() {
    // Members of any JSON shape beside the two tokens are ignored.
    let t = parse_token_response(&b(
        "{\"x\":[1],\"access_token\":\"a\",\"id_token\":\"b\"}",
    ))
    .unwrap();
    assert_eq!(t.access_token, b("a"));
    assert_eq!(t.id_token, b("b"));

    let t = parse_token_response(&b(
        "{\"access_token\":\"AT\",\"id_token\":\"IT\",\"extra\":{}}",
    ))
    .unwrap();
    assert_eq!(t.access_token, b("AT"));

    // Deep nesting, brackets inside strings, escapes inside skipped text.
    let t = parse_token_response(&b(
        "{\"deep\":{\"a\":[{\"b\":\"}]\\\"\"}, [2,3]],\"c\":null},\"access_token\":\"AT\",\"id_token\":\"IT\"}",
    ))
    .unwrap();
    assert_eq!(t.id_token, b("IT"));
}

#[test]
fn token_inside_a_nested_member_does_not_count() {
    // The two fields must stand at the top level.
    assert_eq!(
        parse_token_response(&b(
            "{\"inner\":{\"access_token\":\"a\",\"id_token\":\"b\"}}",
        )),
        Err(AuthError::MalformedTokenResponse)
    );
}

#[test]
fn documents_of_another_shape_are_fatal() {
    assert_eq!(
        parse_token_response(&b("[\"access_token\"]")),
        Err(AuthError::MalformedTokenResponse)
    );
    assert_eq!(
        parse_token_response(&b("")),
        Err(AuthError::MalformedTokenResponse)
    );
    assert_eq!(
        parse_token_response(&b("an html error page")),
        Err(AuthError::MalformedTokenResponse)
    );
    // An unterminated nested member is no document.
    assert_eq!(
        parse_token_response(&b("{\"x\":[1,2,\"access_token\":\"a\",\"id_token\":\"b\"}")),
        Err(AuthError::MalformedTokenResponse)
    );
}

#[test]
fn unicode_escapes_decode_to_utf8() {
    // U+00E9 and U+20AC as escapes, in either hex case.
    let t = parse_token_response(&b(
        "{\"access_token\":\"caf\\u00e9\",\"id_token\":\"\\u20AC\"}",
    ))
    .unwrap();
    assert_eq!(t.access_token, b("caf\u{e9}"));
    assert_eq!(t.id_token, b("\u{20ac}"));
}

#[test]
fn surrogate_escapes_are_rejected() {
    assert_eq!(
        parse_token_response(&b(
            "{\"access_token\":\"\\ud83d\\ude00\",\"id_token\":\"IT\"}",
        )),
        Err(AuthError::MalformedTokenResponse)
    );
}

#[test]
fn last_duplicate_member_wins() {
    let t = parse_token_response(&b(
        "{\"access_token\":\"OLD\",\"access_token\":\"NEW\",\"id_token\":\"IT\"}",
    ))
    .unwrap();
    assert_eq!(t.access_token, b("NEW"));
}

#[test]
fn whole_session_round_trip() {
    // The primary process has drawn these and sent them over the channel.
    let state: String = "abc".chars().cycle().take(64).collect();
    let verifier: String = "xyz".chars().cycle().take(64).collect();
    let handoff = IPCMessage::TokenRequest {
        state: state.clone().into_bytes(),
        client_id: b("client-1"),
        token_endpoint: b("https://idp.example/token"),
        code_verifier: verifier.clone().into_bytes(),
    };
    let handoff_wire = encode_message(&handoff);

    // The callback process reads the handoff and validates the redirect.
    let received = parse_message(&handoff_wire).unwrap();
    let redirect = format!("wilma://oauth?code=AUTHCODE&state={}", state).into_bytes();
    let exchange = redeem(&redirect, &received).unwrap();
    assert_eq!(exchange.token_endpoint, b("https://idp.example/token"));
    assert_eq!(exchange.form[3].value, b("AUTHCODE"));
    assert_eq!(exchange.form[4].value, verifier.clone().into_bytes());

    // The mock token endpoint answers; the callback sends the result home.
    let endpoint_answer = b("{\"access_token\":\"AT1\",\"id_token\":\"IT1\"}");
    let tokens = parse_token_response(&endpoint_answer).unwrap();
    let result = IPCMessage::TokenResponse {
        access_token: tokens.access_token,
        id_token: tokens.id_token,
    };
    let result_wire = encode_message(&result);

    // The primary process observes exactly the endpoint's tokens.
    let seen = complete_session(&result_wire).unwrap();
    assert_eq!(seen.access_token, b("AT1"));
    assert_eq!(seen.id_token, b("IT1"));
}

#[test]
fn failed_validation_never_reaches_the_endpoint() {
    // A fake collaborator that counts calls; validation failing means it
    // is never asked.
    struct MockEndpoint {
        calls: usize,
    }
    impl MockEndpoint {
        fn post(&mut self) -> Vec<u8> {
            self.calls += 1;
            b("{\"access_token\":\"AT\",\"id_token\":\"IT\"}")
        }
    }
    let mut endpoint = MockEndpoint { calls: 0 };
    let handoff = IPCMessage::TokenRequest {
        state: b("right"),
        client_id: b("c"),
        token_endpoint: b("https://idp/t"),
        code_verifier: b("v"),
    };
    for url in [
        "wilma://oauth?code=c&state=wrong",
        "wilma://oauth?code=c",
        "wilma://oauth?state=right",
    ] {
        if let Ok(_exchange) = redeem(&b(url), &handoff) {
            endpoint.post();
        }
    }
    assert_eq!(endpoint.calls, 0);

    if let Ok(_exchange) = redeem(&b("wilma://oauth?code=c&state=right"), &handoff) {
        endpoint.post();
    }
    assert_eq!(endpoint.calls, 1);
}
