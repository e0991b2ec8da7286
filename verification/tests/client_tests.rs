use portier_client::client::{Client, ClientBuilder, SessionState};
use portier_client::session::{Method, Session, UserData};
use portier_client::store::Cookie;
use portier_client::Error;

fn built(contents: Option<&str>, now: u64) -> Client {
    ClientBuilder::new()
        .with_store("jar.txt".to_string())
        .with_session_cookie_domain("127.0.0.1".to_string())
        .with_session_cookie_name("id".to_string())
        .with_rpc_addr("http://rpc".to_string())
        .with_broker_addr("http://broker".to_string())
        .build(contents, now)
        .expect("build")
}

#[test]
fn builder_defaults() {
    let b = ClientBuilder::new();
    assert_eq!(b.store_path, "cookies.json");
    assert_eq!(b.session_cookie_domain, "127.0.0.1");
    assert_eq!(b.session_cookie_name, "id");
    assert_eq!(b.rpc_addr, "http://127.0.0.1:8000");
    assert_eq!(b.broker_addr, "http://127.0.0.1:3333");
}

#[test]
fn absent_store_gives_no_session() {
    let c = built(None, 0);
    assert!(c.session().is_none());
    assert_eq!(c.save_session(), "");
    assert_eq!(c.store_path(), "jar.txt");
}

#[test]
fn live_cookie_restores_session() {
    let text = "{\"domain\":\"127.0.0.1\",\"path\":\"/\",\"name\":\"id\",\"value\":\"s9\",\"expiry\":1000}\n";
    let c = built(Some(text), 999);
    let s = c.session().expect("restored");
    assert_eq!(s.id(), "s9");
    assert!(matches!(c.state, SessionState::Confirmed(_)));
}

#[test]
fn expired_cookie_restores_nothing() {
    let text = "{\"domain\":\"127.0.0.1\",\"path\":\"/\",\"name\":\"id\",\"value\":\"s9\",\"expiry\":1000}\n";
    let c = built(Some(text), 1000);
    assert!(c.session().is_none());
}

#[test]
fn foreign_cookie_restores_nothing() {
    let text = "{\"domain\":\"elsewhere\",\"path\":\"/\",\"name\":\"id\",\"value\":\"s9\",\"expiry\":null}\n";
    let c = built(Some(text), 0);
    assert!(c.session().is_none());
}

#[test]
fn corrupt_store_fails_build() {
    let r = ClientBuilder::new().build(Some("junk\n"), 0);
    assert_eq!(r.err(), Some(Error::StoreCorrupt));
}

#[test]
fn empty_address_fails_build() {
    let r = ClientBuilder::new().with_rpc_addr(String::new()).build(None, 0);
    assert_eq!(r.err(), Some(Error::InvalidConfiguration));
    let r = ClientBuilder::new().with_broker_addr(String::new()).build(None, 0);
    assert_eq!(r.err(), Some(Error::InvalidConfiguration));
}

#[test]
fn login_flow_sets_pending_session() {
    let mut c = built(None, 0);
    let req = c.login_request("a@b.com");
    assert!(matches!(req.method, Method::Post));
    assert_eq!(req.url, "http://rpc/login");
    assert_eq!(req.form.len(), 1);
    assert_eq!(req.form[0].0, "email");
    assert_eq!(req.form[0].1, "a@b.com");
    c.login_response(Some("{\"session\":\"s1\"}")).expect("login");
    assert_eq!(c.session().unwrap().id(), "s1");
    assert!(matches!(c.state, SessionState::Pending(_)));
}

#[test]
fn login_accepts_ordinary_json_bodies() {
    let mut c = built(None, 0);
    c.login_response(Some("{\"session\":\"s1\"} "))
        .expect("trailing whitespace is insignificant");
    assert_eq!(c.session().unwrap().id(), "s1");
    c.login_response(Some("{\n  \"expires\": 900,\n  \"session\": \"s2\"\n}"))
        .expect("pretty-printed body with another member");
    assert_eq!(c.session().unwrap().id(), "s2");
}

#[test]
fn whoami_accepts_ordinary_json_bodies() {
    let c = built(None, 0);
    assert_eq!(
        c.whoami_response(Some("{\"email\":null} ")).unwrap(),
        UserData { email: None }
    );
    assert_eq!(c.whoami_response(Some("{}")).unwrap(), UserData { email: None });
    assert_eq!(
        c.whoami_response(Some("{\"verified\":true}")).unwrap(),
        UserData { email: None }
    );
    assert_eq!(
        c.whoami_response(Some(" { \"verified\" : true , \"email\" : \"a@b.com\" } "))
            .unwrap(),
        UserData { email: Some("a@b.com".to_string()) }
    );
}

#[test]
fn login_failure_changes_nothing() {
    let mut c = built(None, 0);
    assert_eq!(c.login_response(None).unwrap_err(), Error::LoginFailed);
    assert_eq!(c.login_response(Some("not json")).unwrap_err(), Error::LoginFailed);
    assert_eq!(
        c.login_response(Some("{\"session\":null}")).unwrap_err(),
        Error::LoginFailed
    );
    assert_eq!(c.login_response(Some("{}")).unwrap_err(), Error::LoginFailed);
    assert_eq!(
        c.login_response(Some("{\"other\":\"s1\"}")).unwrap_err(),
        Error::LoginFailed
    );
    assert!(c.session().is_none());
}

#[test]
fn confirm_without_login_is_no_active_session() {
    let c = built(None, 0);
    assert_eq!(c.confirm_request("000000").unwrap_err(), Error::NoActiveSession);
    assert!(c.session().is_none());
}

#[test]
fn confirm_and_claim_update_session() {
    let mut c = built(None, 0);
    c.login_response(Some("{\"session\":\"s1\"}")).expect("login");
    let req = c.confirm_request("000000").expect("pending session");
    assert!(matches!(req.method, Method::Post));
    assert_eq!(req.url, "http://broker/confirm");
    assert_eq!(req.form.len(), 2);
    assert_eq!(req.form[0], ("session".to_string(), "s1".to_string()));
    assert_eq!(req.form[1], ("code".to_string(), "000000".to_string()));
    let claim = c.confirm_response(Some("{\"id_token\":\"tok\"}")).expect("token");
    assert_eq!(claim.url, "http://rpc/claim");
    assert_eq!(claim.form.len(), 1);
    assert_eq!(claim.form[0], ("id_token".to_string(), "tok".to_string()));
    c.claim_response(Some("s2")).expect("claim");
    assert_eq!(c.session().unwrap().id(), "s2");
    assert!(matches!(c.state, SessionState::Confirmed(_)));
}

#[test]
fn failed_confirmation_keeps_pending_session() {
    let mut c = built(None, 0);
    c.login_response(Some("{\"session\":\"s1\"}")).expect("login");
    assert_eq!(
        c.confirm_response(Some("no token here")).unwrap_err(),
        Error::ConfirmationFailed
    );
    assert_eq!(c.session().unwrap().id(), "s1");
}

#[test]
fn failed_claim_keeps_pending_session() {
    let mut c = built(None, 0);
    c.login_response(Some("{\"session\":\"s1\"}")).expect("login");
    c.confirm_response(Some("{\"id_token\":\"tok\"}")).expect("token");
    assert_eq!(c.claim_response(None).unwrap_err(), Error::ClaimFailed);
    assert_eq!(c.session().unwrap().id(), "s1");
    assert!(matches!(c.state, SessionState::Pending(_)));
}

#[test]
fn whoami_reads_email_and_null() {
    let c = built(None, 0);
    let req = c.whoami_request();
    assert!(matches!(req.method, Method::Get));
    assert_eq!(req.url, "http://rpc/whoami");
    assert!(req.form.is_empty());
    assert_eq!(
        c.whoami_response(Some("{\"email\":\"a@b.com\"}")).unwrap(),
        UserData { email: Some("a@b.com".to_string()) }
    );
    assert_eq!(c.whoami_response(Some("{\"email\":null}")).unwrap(), UserData { email: None });
    assert_eq!(c.whoami_response(None).unwrap_err(), Error::WhoAmIFailed);
    assert_eq!(c.whoami_response(Some("oops")).unwrap_err(), Error::WhoAmIFailed);
}

#[test]
fn save_is_stable_without_mutation() {
    let mut c = built(None, 0);
    assert!(c.record_cookie(Cookie {
        domain: "127.0.0.1".to_string(),
        path: "/".to_string(),
        name: "id".to_string(),
        value: "s2".to_string(),
        expiry: Some(77),
    }));
    let first = c.save_session();
    let second = c.save_session();
    assert_eq!(first, second);
    assert!(!first.is_empty());
}

#[test]
fn saved_session_survives_reopen() {
    let mut c = built(None, 0);
    c.claim_response(Some("s2")).expect("claim");
    assert!(c.record_cookie(Cookie {
        domain: "127.0.0.1".to_string(),
        path: "/".to_string(),
        name: "id".to_string(),
        value: "s2".to_string(),
        expiry: None,
    }));
    let text = c.save_session();
    let again = built(Some(&text), 0);
    assert_eq!(again.session().unwrap().id(), "s2");
}

#[test]
fn logout_clears_session_and_cookie() {
    let text = "{\"domain\":\"127.0.0.1\",\"path\":\"/\",\"name\":\"id\",\"value\":\"s9\",\"expiry\":null}\n";
    let mut c = built(Some(text), 0);
    assert!(c.session().is_some());
    c.logout_response(true).expect("logout");
    assert!(c.session().is_none());
    assert_eq!(c.save_session(), "");
}

#[test]
fn failed_logout_changes_nothing() {
    let text = "{\"domain\":\"127.0.0.1\",\"path\":\"/\",\"name\":\"id\",\"value\":\"s9\",\"expiry\":null}\n";
    let mut c = built(Some(text), 0);
    assert_eq!(c.logout_response(false).unwrap_err(), Error::LogoutFailed);
    assert_eq!(c.session().unwrap().id(), "s9");
    assert_eq!(c.save_session(), text);
}

#[test]
fn record_cookie_refuses_unstorable_value() {
    let mut c = built(None, 0);
    assert!(!c.record_cookie(Cookie {
        domain: "d".to_string(),
        path: "/".to_string(),
        name: "id".to_string(),
        value: "a\"b".to_string(),
        expiry: None,
    }));
    assert_eq!(c.save_session(), "");
}

#[test]
fn session_accessors() {
    let s = Session::new("abc".to_string());
    assert_eq!(s.id(), "abc");
    let d = Session::default();
    assert_eq!(d.id(), "0");
    let c = s.clone();
    assert_eq!(c.id(), "abc");
}
