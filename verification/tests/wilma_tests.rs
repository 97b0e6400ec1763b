use wilma_dumper::models::{
    OpenIDProvider, WilmaHubWilma, WilmaIndexJson, WilmaRole, WilmaRoleType, WilmaSchool,
};
use wilma_dumper::wilma::{
    extract_sid, get_providers, get_wilmas, openid_login_payload, Wilma,
};

fn b(s: &str) -> Vec<u8> {
    s.as_bytes().to_vec()
}

fn role(slug: &str) -> WilmaRole {
    WilmaRole {
        name: "Student Name".to_string(),
        type_: WilmaRoleType::Student,
        primus_id: 42,
        form_key: "fk".to_string(),
        slug: slug.to_string(),
        schools: vec![WilmaSchool { id: 1, caption: "School".to_string() }],
    }
}

#[test]
fn fresh_instance_is_unauthenticated() {
    let w = Wilma::from_url("https://turku.inschool.fi/".to_string());
    assert!(!w.is_authenticated());
    assert!(!w.is_logged_in());
    assert_eq!(w.base_url, "https://turku.inschool.fi/");
    assert_eq!(w.name, "");
    assert!(w.get_url().is_none());
}

#[test]
fn login_needs_sid_and_role() {
    let mut w = Wilma::from_url("https://x.inschool.fi/".to_string());
    w.set_sid("sid-value".to_string());
    assert!(w.is_authenticated());
    assert!(!w.is_logged_in());
    w.set_role(&role("!02"));
    assert!(w.is_logged_in());
    assert_eq!(w.sid(), Some(&"sid-value".to_string()));
}

#[test]
fn get_url_joins_the_role_slug() {
    let mut w = Wilma::from_url("https://x.inschool.fi/".to_string());
    w.set_role(&role("!02"));
    assert_eq!(w.get_url().unwrap(), "https://x.inschool.fi/!02/");

    let mut w2 = Wilma::from_url("https://x.inschool.fi/path".to_string());
    w2.set_role(&role("slug"));
    assert_eq!(w2.get_url().unwrap(), "https://x.inschool.fi/slug/");
}

#[test]
fn extract_sid_takes_the_first_matching_line() {
    let cookies = vec![
        "Other=1; Path=/".to_string(),
        "Wilma2SID=ABCDEF123; Path=/; HttpOnly".to_string(),
        "Wilma2SID=LATER; Path=/".to_string(),
    ];
    assert_eq!(extract_sid(&cookies), Some("ABCDEF123".to_string()));
}

#[test]
fn extract_sid_without_semicolon_takes_the_rest() {
    let cookies = vec!["Wilma2SID=ONLYVALUE".to_string()];
    assert_eq!(extract_sid(&cookies), Some("ONLYVALUE".to_string()));
}

#[test]
fn extract_sid_misses_when_no_line_carries_it() {
    assert_eq!(extract_sid(&vec![]), None);
    assert_eq!(extract_sid(&vec!["Session=1".to_string()]), None);
}

#[test]
fn login_payload_exact_document() {
    let p = openid_login_payload(
        &b("https://idp/.well-known"),
        &b("client-1"),
        &b("AT\"1"),
        &b("session-9"),
        &b("IT1"),
    );
    assert_eq!(
        String::from_utf8(p).unwrap(),
        "{\"configuration\":\"https://idp/.well-known\",\"clientId\":\"client-1\",\
         \"accessToken\":\"AT\\\"1\",\"sessionId\":\"session-9\",\"idToken\":\"IT1\"}"
    );
}

#[test]
fn login_payload_reads_back_as_json() {
    let p = openid_login_payload(&b("cfg"), &b("cid"), &b("at"), &b("sid"), &b("it"));
    let v: serde_json::Value = serde_json::from_slice(&p).unwrap();
    assert_eq!(v["configuration"], "cfg");
    assert_eq!(v["clientId"], "cid");
    assert_eq!(v["accessToken"], "at");
    assert_eq!(v["sessionId"], "sid");
    assert_eq!(v["idToken"], "it");
}

#[test]
fn get_wilmas_keeps_http_entries_in_order() {
    let hub = vec![
        WilmaHubWilma { url: "https://a.inschool.fi".to_string(), name: "A".to_string() },
        WilmaHubWilma { url: "ftp://b.inschool.fi".to_string(), name: "B".to_string() },
        WilmaHubWilma { url: "http://c.inschool.fi/x".to_string(), name: "C".to_string() },
        WilmaHubWilma { url: "https://".to_string(), name: "empty".to_string() },
    ];
    let ws = get_wilmas(hub);
    assert_eq!(ws.len(), 2);
    let upper = get_wilmas(vec![WilmaHubWilma {
        url: "HTTPS://d.inschool.fi/".to_string(),
        name: "D".to_string(),
    }]);
    assert_eq!(upper.len(), 1);
    assert_eq!(upper[0].base_url, "HTTPS://d.inschool.fi/");
    // A bare host gains a closing slash so role URLs resolve under it.
    assert_eq!(ws[0].base_url, "https://a.inschool.fi/");
    assert_eq!(ws[0].name, "A");
    assert!(!ws[0].is_authenticated());
    assert_eq!(ws[1].base_url, "http://c.inschool.fi/x");
    assert_eq!(ws[1].name, "C");
}

#[test]
fn providers_come_straight_from_the_index() {
    let index = WilmaIndexJson {
        login_result: "Failed".to_string(),
        session_id: "s".to_string(),
        api_version: 17,
        oidc_test_mode: Some(false),
        oidc_providers: Some(vec![OpenIDProvider {
            name: "IdP".to_string(),
            client_id: "c".to_string(),
            configuration: "https://idp/.wk".to_string(),
            scope: "openid".to_string(),
        }]),
    };
    let ps = get_providers(index).unwrap();
    assert_eq!(ps.len(), 1);
    assert_eq!(ps[0].name, "IdP");

    let none = WilmaIndexJson {
        login_result: "Failed".to_string(),
        session_id: "s".to_string(),
        api_version: 17,
        oidc_test_mode: None,
        oidc_providers: None,
    };
    assert!(get_providers(none).is_none());
}

#[test]
fn role_type_from_name_maps_the_three_known_kinds() {
    assert_eq!(WilmaRoleType::from_name(&"passwd".to_string()), WilmaRoleType::Passwd);
    assert_eq!(WilmaRoleType::from_name(&"student".to_string()), WilmaRoleType::Student);
    assert_eq!(WilmaRoleType::from_name(&"teacher".to_string()), WilmaRoleType::Teacher);
    assert_eq!(WilmaRoleType::from_name(&"parent".to_string()), WilmaRoleType::Unknown);
}
