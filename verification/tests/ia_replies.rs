use archive_org_redump_link_updater::ia::{
    authorization, check_keys_accepted, check_metadata, description_patch, keys_login_outcome,
    login_outcome, patch_outcome, patch_result, scrape_query, Scan, check_search_status,
    keys_login_reply, login_reply, metadata_reply, patch_text,
};
use archive_org_redump_link_updater::json::{JsonNumber, JsonValue};

fn s(text: &str) -> JsonValue {
    JsonValue::String(text.to_string())
}

fn obj(fields: Vec<(&str, JsonValue)>) -> JsonValue {
    JsonValue::Object(fields.into_iter().map(|(k, v)| (k.to_string(), v)).collect())
}

fn num(n: u64) -> JsonValue {
    JsonValue::Number(JsonNumber { text: n.to_string(), unsigned: Some(n) })
}

fn login_ok() -> JsonValue {
    obj(vec![
        ("success", JsonValue::Bool(true)),
        (
            "values",
            obj(vec![
                ("s3", obj(vec![("access", s("AK")), ("secret", s("SK"))])),
                ("screenname", s("Preserver")),
            ]),
        ),
    ])
}

#[test]
fn login_success_yields_the_keys() {
    let c = login_outcome(&login_ok(), "me@example.com").unwrap();
    assert_eq!(c.access, "AK");
    assert_eq!(c.secret, "SK");
    assert_eq!(c.screenname, "Preserver");
    assert_eq!(c.email, "me@example.com");
}

#[test]
fn login_without_screenname_uses_the_email() {
    let reply = obj(vec![
        ("success", JsonValue::Bool(true)),
        ("values", obj(vec![("s3", obj(vec![("access", s("A")), ("secret", s("B"))]))])),
    ]);
    assert_eq!(login_outcome(&reply, "me@example.com").unwrap().screenname, "me@example.com");
}

#[test]
fn login_failures_are_explained() {
    let reason = |r: &str| {
        obj(vec![("success", JsonValue::Bool(false)), ("values", obj(vec![("reason", s(r))]))])
    };
    assert_eq!(
        login_outcome(&reason("account_not_found"), "e").unwrap_err(),
        "Account not found - check your email."
    );
    assert_eq!(
        login_outcome(&reason("account_bad_password"), "e").unwrap_err(),
        "Incorrect password - try again."
    );
    assert_eq!(login_outcome(&reason("locked"), "e").unwrap_err(), "Login failed: locked");
    let error_only = obj(vec![("error", s("rate limited"))]);
    assert_eq!(login_outcome(&error_only, "e").unwrap_err(), "Login failed: rate limited");
    assert_eq!(
        login_outcome(&JsonValue::Null, "e").unwrap_err(),
        "Login failed: unknown reason"
    );
}

#[test]
fn login_reply_without_keys_is_an_error() {
    let reply = obj(vec![("success", JsonValue::Bool(true)), ("values", obj(vec![]))]);
    assert_eq!(
        login_outcome(&reply, "e").unwrap_err(),
        "login response missing /values/s3/access"
    );
    let reply = obj(vec![
        ("success", JsonValue::Bool(true)),
        ("values", obj(vec![("s3", obj(vec![("access", s("A"))]))])),
    ]);
    assert_eq!(
        login_outcome(&reply, "e").unwrap_err(),
        "login response missing /values/s3/secret"
    );
}

#[test]
fn keys_login_reads_the_account() {
    let nested = obj(vec![("values", obj(vec![("email", s("a@b")), ("screenname", s("AB"))]))]);
    let c = keys_login_outcome(&nested, "K", "S").unwrap();
    assert_eq!((c.access.as_str(), c.secret.as_str()), ("K", "S"));
    assert_eq!((c.email.as_str(), c.screenname.as_str()), ("a@b", "AB"));

    let flat = obj(vec![("email", s("x@y"))]);
    let c = keys_login_outcome(&flat, "K", "S").unwrap();
    assert_eq!((c.email.as_str(), c.screenname.as_str()), ("x@y", "x@y"));

    // A non-string value under `values` does not fall back to the top level.
    let odd = obj(vec![("values", obj(vec![("email", num(1))])), ("email", s("x@y"))]);
    assert_eq!(
        keys_login_outcome(&odd, "K", "S").unwrap_err(),
        "Could not read the account for those keys."
    );
    assert!(check_keys_accepted(true).is_ok());
    assert_eq!(
        check_keys_accepted(false).unwrap_err(),
        "Those S3 keys were rejected by archive.org."
    );
}

#[test]
fn request_texts() {
    assert_eq!(authorization("AK", "SK"), "LOW AK:SK");
    assert_eq!(scrape_query("me@example.com"), "uploader:\"me@example.com\"");
}

#[test]
fn scan_gathers_pages_until_no_cursor() {
    let page1 = obj(vec![
        ("total", num(3)),
        (
            "items",
            JsonValue::Array(vec![
                obj(vec![("identifier", s("one")), ("title", s("T1")), ("description", s("d1"))]),
                obj(vec![
                    ("identifier", s("two")),
                    ("description", JsonValue::Array(vec![s("x"), s("y")])),
                ]),
            ]),
        ),
        ("cursor", s("next")),
    ]);
    let mut scan = Scan::new();
    assert_eq!(scan.absorb(&page1), (2, 3));
    assert_eq!(scan.cursor.as_deref(), Some("next"));
    assert!(!scan.finished);
    assert_eq!(scan.items[1].description, "x\ny");
    assert_eq!(scan.items[1].title, "");

    let page2 = obj(vec![("items", JsonValue::Array(vec![obj(vec![("title", s("T3"))])]))]);
    assert_eq!(scan.absorb(&page2), (3, 3));
    assert!(scan.finished);
    assert!(scan.cursor.is_none());
    assert_eq!(scan.items[2].identifier, "");
    assert_eq!(scan.items[2].title, "T3");
}

#[test]
fn scan_total_never_below_count() {
    let page = obj(vec![("items", JsonValue::Array(vec![obj(vec![]), obj(vec![])]))]);
    let mut scan = Scan::new();
    assert_eq!(scan.absorb(&page), (2, 2));
}

#[test]
fn metadata_must_be_present() {
    let ok = obj(vec![("metadata", obj(vec![("description", s("d"))]))]);
    assert!(check_metadata(ok).is_ok());
    assert_eq!(
        check_metadata(obj(vec![])).unwrap_err(),
        "item is dark or does not exist"
    );
}

#[test]
fn patch_replaces_only_the_description() {
    let patch = description_patch(s("new"));
    let expected = JsonValue::Array(vec![obj(vec![
        ("op", s("replace")),
        ("path", s("/description")),
        ("value", s("new")),
    ])]);
    assert_eq!(format!("{:?}", patch), format!("{:?}", expected));
}

#[test]
fn patch_outcome_reports_the_cause() {
    let ok = obj(vec![("success", JsonValue::Bool(true))]);
    assert!(patch_outcome("200 OK", "{}", &ok).is_ok());
    let refused = obj(vec![("success", JsonValue::Bool(false)), ("error", s("no access"))]);
    assert_eq!(patch_outcome("403 Forbidden", "...", &refused).unwrap_err(), "no access");
    assert_eq!(
        patch_outcome("502 Bad Gateway", "", &JsonValue::Null).unwrap_err(),
        "HTTP 502 Bad Gateway"
    );
    let body = "e".repeat(250);
    assert_eq!(patch_outcome("500", &body, &JsonValue::Null).unwrap_err(), "e".repeat(200));
    assert_eq!(patch_outcome("500", "short", &JsonValue::Null).unwrap_err(), "short");
}

#[test]
fn patch_result_reads_the_raw_reply() {
    assert_eq!(patch_result("200 OK", r#"{"success": true, "task_id": 1}"#), Ok(()));
    assert_eq!(
        patch_result("403 Forbidden", r#"{"success": false, "error": "no access"}"#),
        Err("no access".to_string())
    );
    // A body that is not JSON is quoted, and an empty one gives the status.
    assert_eq!(patch_result("502 Bad Gateway", "<html>oops</html>"), Err("<html>oops</html>".to_string()));
    assert_eq!(patch_result("502 Bad Gateway", ""), Err("HTTP 502 Bad Gateway".to_string()));
    // "success" must be the JSON value true, not the text.
    assert_eq!(
        patch_result("200 OK", r#"{"success": "true"}"#),
        Err(r#"{"success": "true"}"#.to_string())
    );
}

#[test]
fn login_reply_reads_the_raw_body() {
    let body = br#"{"success": true, "values": {"s3": {"access": "AK", "secret": "SK"}, "screenname": "Pres"}}"#;
    let c = login_reply(body, "me@example.com").unwrap();
    assert_eq!((c.access.as_str(), c.secret.as_str(), c.screenname.as_str()), ("AK", "SK", "Pres"));
    let refused = br#"{"success": false, "values": {"reason": "account_bad_password"}}"#;
    assert_eq!(login_reply(refused, "me").unwrap_err(), "Incorrect password - try again.");
    assert_eq!(
        login_reply(b"<html>", "me").unwrap_err(),
        "unexpected response from archive.org: error decoding response body"
    );
}

#[test]
fn keys_login_reply_reads_the_raw_body() {
    let c = keys_login_reply(br#"{"values": {"email": "a@b.c"}}"#, "AK", "SK").unwrap();
    assert_eq!((c.email.as_str(), c.screenname.as_str()), ("a@b.c", "a@b.c"));
    assert_eq!(
        keys_login_reply(b"{}", "AK", "SK").unwrap_err(),
        "Could not read the account for those keys."
    );
    assert_eq!(
        keys_login_reply(b"", "AK", "SK").unwrap_err(),
        "unexpected response from archive.org: error decoding response body"
    );
}

#[test]
fn scan_takes_in_raw_pages() {
    let mut scan = Scan::new();
    let page = br#"{"items": [{"identifier": "x", "title": "T", "description": ["a", "b"]}], "cursor": "c1", "total": 5}"#;
    assert_eq!(scan.absorb_body(page), Ok((1, 5)));
    assert_eq!(scan.items[0].description, "a\nb");
    assert_eq!(scan.cursor.as_deref(), Some("c1"));
    assert_eq!(
        scan.absorb_body(b"not json"),
        Err("could not parse search results: error decoding response body".to_string())
    );
    assert_eq!(scan.items.len(), 1);
    assert!(!scan.finished);
    assert_eq!(scan.absorb_body(br#"{"items": []}"#), Ok((1, 1)));
    assert!(scan.finished);
}

#[test]
fn metadata_reply_reads_the_raw_body() {
    assert!(metadata_reply(br#"{"metadata": {"description": "d"}}"#).is_ok());
    assert_eq!(metadata_reply(b"{}").unwrap_err(), "item is dark or does not exist");
    assert_eq!(
        metadata_reply(b"[1").unwrap_err(),
        "could not parse metadata: error decoding response body"
    );
}

#[test]
fn search_status_must_be_a_success() {
    assert_eq!(check_search_status(true, "200 OK"), Ok(()));
    assert_eq!(
        check_search_status(false, "503 Service Unavailable"),
        Err("search failed: HTTP 503 Service Unavailable".to_string())
    );
}

#[test]
fn patch_text_is_the_json_patch() {
    assert_eq!(
        patch_text(s("see redump.info")),
        r#"[{"op":"replace","path":"/description","value":"see redump.info"}]"#
    );
    let parts = JsonValue::Array(vec![s("a"), num(3)]);
    assert_eq!(
        patch_text(parts),
        r#"[{"op":"replace","path":"/description","value":["a",3]}]"#
    );
}
