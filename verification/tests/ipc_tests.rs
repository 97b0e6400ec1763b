use wilma_dumper::ipc::{encode_message, parse_message, IPCMessage, MESSAGE_CAPACITY};

fn b(s: &str) -> Vec<u8> {
    s.as_bytes().to_vec()
}

fn request(state: &str, client_id: &str, endpoint: &str, verifier: &str) -> IPCMessage {
    IPCMessage::TokenRequest {
        state: b(state),
        client_id: b(client_id),
        token_endpoint: b(endpoint),
        code_verifier: b(verifier),
    }
}

#[test]
fn encode_request_exact_bytes() {
    let m = request("S1", "C1", "https://idp.example/token", "V1");
    let encoded = encode_message(&m);
    assert_eq!(
        String::from_utf8(encoded).unwrap(),
        "{\"TokenRequest\":{\"state\":\"S1\",\"client_id\":\"C1\",\
         \"token_endpoint\":\"https://idp.example/token\",\"code_verifier\":\"V1\"}}"
    );
}

#[test]
fn encode_response_exact_bytes() {
    let m = IPCMessage::TokenResponse { access_token: b("AT"), id_token: b("IT") };
    let encoded = encode_message(&m);
    assert_eq!(
        String::from_utf8(encoded).unwrap(),
        "{\"TokenResponse\":{\"access_token\":\"AT\",\"id_token\":\"IT\"}}"
    );
}

#[test]
fn encoding_is_json_a_peer_can_read() {
    let m = request("st", "ci", "https://e/t", "cv");
    let encoded = encode_message(&m);
    let v: serde_json::Value = serde_json::from_slice(&encoded).unwrap();
    assert_eq!(v["TokenRequest"]["state"], "st");
    assert_eq!(v["TokenRequest"]["client_id"], "ci");
    assert_eq!(v["TokenRequest"]["token_endpoint"], "https://e/t");
    assert_eq!(v["TokenRequest"]["code_verifier"], "cv");
}

#[test]
fn round_trip_request() {
    let m = request("state0123", "client", "https://idp/t?x=1", "verifier");
    assert_eq!(parse_message(&encode_message(&m)), Some(m));
}

#[test]
fn round_trip_response() {
    let m = IPCMessage::TokenResponse { access_token: b("AT1"), id_token: b("IT1") };
    assert_eq!(parse_message(&encode_message(&m)), Some(m));
}

#[test]
fn round_trip_with_escapes() {
    let m = request("s\"t\\a", "c\u{1}id", "https://e/\"", "v\\");
    assert_eq!(parse_message(&encode_message(&m)), Some(m));
    let m2 = IPCMessage::TokenResponse {
        access_token: vec![0, 1, 31, 34, 92, 200, 255],
        id_token: b("\n\t"),
    };
    assert_eq!(parse_message(&encode_message(&m2)), Some(m2));
}

#[test]
fn escapes_match_the_json_reading() {
    let m = IPCMessage::TokenResponse { access_token: b("a\"b\\c\nd"), id_token: b("i") };
    let v: serde_json::Value = serde_json::from_slice(&encode_message(&m)).unwrap();
    assert_eq!(v["TokenResponse"]["access_token"], "a\"b\\c\nd");
}

#[test]
fn truncated_message_is_rejected() {
    let m = request("s", "c", "e", "v");
    let mut encoded = encode_message(&m);
    encoded.pop();
    assert_eq!(parse_message(&encoded), None);
    assert_eq!(parse_message(&b("")), None);
}

#[test]
fn trailing_bytes_are_rejected() {
    let m = request("s", "c", "e", "v");
    let mut encoded = encode_message(&m);
    encoded.push(b' ');
    assert_eq!(parse_message(&encoded), None);
}

#[test]
fn foreign_documents_are_rejected() {
    assert_eq!(parse_message(&b("{\"Other\":{}}")), None);
    assert_eq!(parse_message(&b("{\"TokenRequest\":{\"state\":\"s\"}}")), None);
    assert_eq!(parse_message(&b("not json at all")), None);
}

#[test]
fn messages_stay_within_capacity() {
    let m = request(
        &"s".repeat(64),
        "client-id",
        "https://login.example.org/oauth2/token",
        &"v".repeat(64),
    );
    assert!(encode_message(&m).len() <= MESSAGE_CAPACITY);
}
