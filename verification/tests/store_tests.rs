use portier_client::codec::{encode_jar_text, parse_jar, parse_obj, FieldValue};
use portier_client::store::{Cookie, Jar, Store};
use portier_client::Error;

fn cookie(domain: &str, path: &str, name: &str, value: &str, expiry: Option<u64>) -> Cookie {
    Cookie {
        domain: domain.to_string(),
        path: path.to_string(),
        name: name.to_string(),
        value: value.to_string(),
        expiry,
    }
}

#[test]
fn empty_jar_snapshot_is_empty() {
    let jar = Jar::new();
    assert_eq!(encode_jar_text(&jar), "");
}

#[test]
fn snapshot_line_shape() {
    let mut jar = Jar::new();
    assert!(jar.insert(cookie("127.0.0.1", "/", "id", "s1", None)));
    assert_eq!(
        encode_jar_text(&jar),
        "{\"domain\":\"127.0.0.1\",\"path\":\"/\",\"name\":\"id\",\"value\":\"s1\",\"expiry\":null}\n"
    );
}

#[test]
fn snapshot_line_with_expiry() {
    let mut jar = Jar::new();
    assert!(jar.insert(cookie("a", "/", "id", "v", Some(1700000000))));
    assert_eq!(
        encode_jar_text(&jar),
        "{\"domain\":\"a\",\"path\":\"/\",\"name\":\"id\",\"value\":\"v\",\"expiry\":1700000000}\n"
    );
}

#[test]
fn round_trip_preserves_every_field() {
    let mut jar = Jar::new();
    assert!(jar.insert(cookie("127.0.0.1", "/", "id", "s1", None)));
    assert!(jar.insert(cookie("example.org", "/app", "token", "abc def", Some(42))));
    assert!(jar.insert(cookie("example.org", "/", "token", "zz", Some(u64::MAX))));
    let text = encode_jar_text(&jar);
    let reread = parse_jar(&text).expect("canonical snapshot must parse");
    assert_eq!(reread.len(), 3);
    for i in 0..3 {
        let a = jar.cookie_at(i);
        let b = reread.cookie_at(i);
        assert_eq!(a.domain, b.domain);
        assert_eq!(a.path, b.path);
        assert_eq!(a.name, b.name);
        assert_eq!(a.value, b.value);
        assert_eq!(a.expiry, b.expiry);
    }
}

#[test]
fn insert_overwrites_same_scope_key() {
    let mut jar = Jar::new();
    assert!(jar.insert(cookie("d", "/", "id", "old", None)));
    assert!(jar.insert(cookie("d", "/", "id", "new", Some(9))));
    assert_eq!(jar.len(), 1);
    assert_eq!(jar.cookie_at(0).value, "new");
    assert_eq!(jar.cookie_at(0).expiry, Some(9));
}

#[test]
fn insert_refuses_unstorable_fields() {
    let mut jar = Jar::new();
    assert!(!jar.insert(cookie("d", "/", "id", "has\"quote", None)));
    assert!(!jar.insert(cookie("d", "/", "id", "has\nnewline", None)));
    assert_eq!(jar.len(), 0);
}

#[test]
fn lookup_honours_expiry() {
    let mut jar = Jar::new();
    assert!(jar.insert(cookie("d", "/", "id", "v", Some(100))));
    assert_eq!(jar.lookup("d", "/", "id", 99), Some("v".to_string()));
    assert_eq!(jar.lookup("d", "/", "id", 100), None);
    assert_eq!(jar.lookup("d", "/", "id", 101), None);
    assert_eq!(jar.lookup("other", "/", "id", 0), None);
}

#[test]
fn remove_drops_only_the_key() {
    let mut jar = Jar::new();
    assert!(jar.insert(cookie("d", "/", "id", "v", None)));
    assert!(jar.insert(cookie("d", "/", "other", "w", None)));
    jar.remove("d", "/", "id");
    assert_eq!(jar.len(), 1);
    assert_eq!(jar.cookie_at(0).name, "other");
}

#[test]
fn store_absent_file_gives_empty_jar() {
    let st = Store::new("cookies.json".to_string(), None).expect("absent file is fine");
    assert_eq!(st.jar.len(), 0);
    assert_eq!(st.save(), "");
}

#[test]
fn store_malformed_snapshot_is_corrupt() {
    assert_eq!(
        Store::new("p".to_string(), Some("not a snapshot\n")).unwrap_err(),
        Error::StoreCorrupt
    );
    assert_eq!(
        Store::new("p".to_string(), Some("{\"domain\":\"d\"")).unwrap_err(),
        Error::StoreCorrupt
    );
}

#[test]
fn store_repeated_key_is_corrupt() {
    let line = "{\"domain\":\"d\",\"path\":\"/\",\"name\":\"id\",\"value\":\"v\",\"expiry\":null}\n";
    let text = format!("{}{}", line, line);
    assert_eq!(Store::new("p".to_string(), Some(&text)).unwrap_err(), Error::StoreCorrupt);
}

#[test]
fn parse_rejects_padded_or_overflowing_expiry() {
    let with = |e: &str| {
        format!(
            "{{\"domain\":\"d\",\"path\":\"/\",\"name\":\"id\",\"value\":\"v\",\"expiry\":{}}}\n",
            e
        )
    };
    assert!(parse_jar(&with("007")).is_err());
    assert!(parse_jar(&with("")).is_err());
    assert!(parse_jar(&with("12a")).is_err());
    assert!(parse_jar(&with("18446744073709551616")).is_err());
    assert!(parse_jar(&with("18446744073709551615")).is_ok());
    assert!(parse_jar(&with("0")).is_ok());
}

#[test]
fn parse_obj_reads_value_and_null() {
    assert_eq!(
        parse_obj("{\"session\":\"s1\"}", "session"),
        Some(FieldValue::Text("s1".to_string()))
    );
    assert_eq!(parse_obj("{\"email\":null}", "email"), Some(FieldValue::Null));
    assert_eq!(parse_obj("{\"session\":\"s1\"}", "email"), Some(FieldValue::Absent));
    assert_eq!(parse_obj("{}", "session"), Some(FieldValue::Absent));
    assert_eq!(parse_obj("garbage", "session"), None);
    assert_eq!(parse_obj("{\"session\":\"s1\"", "session"), None);
}

#[test]
fn parse_obj_accepts_whitespace_and_other_members() {
    assert_eq!(
        parse_obj("{\"session\":\"s1\"} ", "session"),
        Some(FieldValue::Text("s1".to_string()))
    );
    assert_eq!(
        parse_obj("  {\n  \"expires\": 3600,\n  \"session\": \"s1\",\n  \"ok\": true\n}\n", "session"),
        Some(FieldValue::Text("s1".to_string()))
    );
    assert_eq!(
        parse_obj("{\"a\":null,\"b\":false,\"c\":-1.5e3,\"email\":null}", "email"),
        Some(FieldValue::Null)
    );
    assert_eq!(
        parse_obj("{\"note\":\"quoted \\\" brace }\",\"session\":\"s1\"}", "session"),
        Some(FieldValue::Text("s1".to_string()))
    );
}

#[test]
fn parse_obj_skips_nested_members() {
    assert_eq!(
        parse_obj(
            "{\"extra\":{\"a\":[1,2,{\"b\":\"}\"}]},\"session\":\"s1\"}",
            "session"
        ),
        Some(FieldValue::Text("s1".to_string()))
    );
    assert_eq!(
        parse_obj("{\"list\":[true,null,\"x,y\"],\"email\":null}", "email"),
        Some(FieldValue::Null)
    );
    // an unclosed nested value never balances
    assert_eq!(parse_obj("{\"a\":{,\"session\":\"s1\"}", "session"), None);
}

#[test]
fn parse_obj_rejects_what_the_protocol_never_sends() {
    // a nested value where a string is owed, a number likewise, an
    // escaped sought value
    assert_eq!(parse_obj("{\"session\":{\"x\":1}}", "session"), None);
    assert_eq!(parse_obj("{\"session\":42}", "session"), None);
    assert_eq!(parse_obj("{\"session\":\"a\\\"b\"}", "session"), None);
    assert_eq!(parse_obj("{\"session\":\"s1\",}", "session"), None);
    assert_eq!(parse_obj("{\"session\":\"s1\"}x", "session"), None);
}

#[test]
fn errors_name_their_stage() {
    assert_eq!(
        Error::InvalidConfiguration.describe(),
        "a service address of the configuration is empty"
    );
    assert_eq!(Error::StoreCorrupt.describe(), "the cookie store on disk is unreadable");
    assert_eq!(Error::NoActiveSession.describe(), "no active session; log in first");
    assert_eq!(Error::ClaimFailed.describe(), "the session claim failed");
}
