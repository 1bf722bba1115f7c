use archive_org_redump_link_updater::apply::{plan_update, ApplyTally};
use archive_org_redump_link_updater::ia::{Creds, Item};
use archive_org_redump_link_updater::json::{JsonNumber, JsonValue};
use archive_org_redump_link_updater::session::{
    settles, LoginMode, LoginRequest, Msg, Row, RowState, Session,
};

#[test]
fn only_finished_items_are_cleared() {
    assert!(settles(&RowState::Done));
    assert!(settles(&RowState::Skipped("already up to date".into())));
}

#[test]
fn failures_and_in_flight_items_are_never_cleared() {
    // A failure must stay on screen so it can be seen and retried.
    assert!(!settles(&RowState::Failed("403 forbidden".into())));
    assert!(!settles(&RowState::Pending));
    assert!(!settles(&RowState::Working));
}

fn creds() -> Creds {
    Creds {
        access: "AK".into(),
        secret: "SK".into(),
        screenname: "Preserver".into(),
        email: "me@example.com".into(),
    }
}

fn item(id: &str, description: &str) -> Item {
    Item { identifier: id.into(), title: format!("title {id}"), description: description.into() }
}

fn scanned_session() -> Session {
    let mut s = Session::new();
    s.handle(Msg::LoginOk(creds()));
    s.handle(Msg::ScanOk(vec![
        item("a", "see redump.org"),
        item("b", "nothing here"),
        item("c", "REDUMP.ORG/disc/1"),
        item("d", "notredump.org"),
    ]));
    s
}

fn ids(s: &Session) -> Vec<&str> {
    s.rows.iter().map(|r| r.item.identifier.as_str()).collect()
}

#[test]
fn login_messages_update_the_session() {
    let mut s = Session::new();
    s.password = "hunter2".into();
    s.busy = true;
    s.handle(Msg::LoginOk(creds()));
    assert_eq!(s.status, "Signed in as Preserver");
    assert!(s.creds.is_some());
    assert_eq!(s.password, "");
    assert!(!s.busy);

    let mut s = Session::new();
    s.busy = true;
    s.handle(Msg::LoginErr("Incorrect password - try again.".into()));
    assert_eq!(s.status, "Incorrect password - try again.");
    assert!(!s.busy);
    assert!(s.creds.is_none());
}

#[test]
fn begin_login_trims_the_form() {
    let mut s = Session::new();
    s.email = "  me@example.com ".into();
    s.password = " secret ".into();
    match s.begin_login() {
        LoginRequest::Password { email, password } => {
            assert_eq!(email, "me@example.com");
            assert_eq!(password, " secret ");
        }
        LoginRequest::Keys { .. } => panic!("expected a password login"),
    }
    assert!(s.busy);
    assert_eq!(s.status, "Signing in...");

    let mut s = Session::new();
    s.mode = LoginMode::S3Keys;
    s.access = " AK ".into();
    s.secret = "\tSK".into();
    match s.begin_login() {
        LoginRequest::Keys { access, secret } => {
            assert_eq!((access.as_str(), secret.as_str()), ("AK", "SK"));
        }
        LoginRequest::Password { .. } => panic!("expected a key login"),
    }
}

#[test]
fn login_form_must_be_filled() {
    let mut s = Session::new();
    assert!(!s.login_filled());
    s.email = "   ".into();
    s.password = "p".into();
    assert!(!s.login_filled());
    s.email = "me".into();
    assert!(s.login_filled());
    s.mode = LoginMode::S3Keys;
    s.access = "a".into();
    assert!(!s.login_filled());
    s.secret = " s ".into();
    assert!(s.login_filled());
}

#[test]
fn scan_lists_only_descriptions_that_need_fixing() {
    let s = scanned_session();
    assert_eq!(ids(&s), vec!["a", "c"]);
    assert_eq!(s.rows[0].new_description, "see redump.info");
    assert_eq!(s.rows[1].new_description, "REDUMP.INFO/disc/1");
    assert!(s.rows.iter().all(|r| r.selected && matches!(r.state, RowState::Pending)));
    assert_eq!(s.status, "2 of your 4 item(s) mention redump.org.");
    assert!(s.scanned);
    assert!(s.scan_progress.is_none());
}

#[test]
fn scan_start_progress_and_failure() {
    let mut s = Session::new();
    assert!(s.begin_scan().is_none());
    assert_eq!(s.status, "");

    let mut s = scanned_session();
    s.cleared = 4;
    let c = s.begin_scan().expect("signed in");
    assert_eq!(c.access, "AK");
    assert!(s.busy && !s.scanned && s.rows.is_empty());
    assert_eq!(s.cleared, 0);
    assert_eq!(s.scan_progress, Some((0, 0)));
    assert_eq!(s.status, "Scanning your items...");
    s.handle(Msg::ScanProgress(5, 10));
    assert_eq!(s.scan_progress, Some((5, 10)));
    s.handle(Msg::ScanErr("search failed: HTTP 500".into()));
    assert_eq!(s.status, "Scan failed: search failed: HTTP 500");
    assert!(s.scan_progress.is_none());
    assert!(!s.busy);
}

#[test]
fn apply_targets_selected_unfinished_rows() {
    let mut s = scanned_session();
    s.rows[1].selected = false;
    let (c, targets) = s.begin_apply().expect("something to apply");
    assert_eq!(c.screenname, "Preserver");
    assert_eq!(targets, vec!["a".to_string()]);
    assert_eq!(s.status, "Updating 1 item(s)...");
    assert!(s.busy);

    // Nothing selected: nothing happens.
    let mut s = scanned_session();
    s.select_none();
    assert_eq!(s.selected_count(), 0);
    assert!(s.begin_apply().is_none());
    assert!(!s.busy);
    s.select_all();
    assert_eq!(s.selected_count(), 2);

    // Done rows are not applied again.
    let mut s = scanned_session();
    s.handle(Msg::RowState("a".into(), RowState::Done));
    let (_, targets) = s.begin_apply().unwrap();
    assert_eq!(targets, vec!["c".to_string()]);

    // Signed out: nothing happens.
    let mut s = scanned_session();
    s.sign_out();
    assert!(s.creds.is_none() && s.rows.is_empty() && !s.scanned && s.status.is_empty());
    assert!(s.begin_apply().is_none());
}

#[test]
fn row_reports_without_auto_clear_update_the_row() {
    let mut s = scanned_session();
    s.handle(Msg::RowState("a".into(), RowState::Working));
    assert!(matches!(s.rows[0].state, RowState::Working));
    s.handle(Msg::RowState("a".into(), RowState::Done));
    assert!(matches!(s.rows[0].state, RowState::Done));
    assert!(s.log.is_empty());
    s.handle(Msg::RowState("c".into(), RowState::Failed("403 forbidden".into())));
    assert_eq!(s.log, vec!["FAILED c: 403 forbidden".to_string()]);
    assert_eq!(ids(&s), vec!["a", "c"]);
    s.handle(Msg::RowState("zzz".into(), RowState::Done));
    assert_eq!(ids(&s), vec!["a", "c"]);
}

#[test]
fn auto_clear_removes_finished_rows_and_logs_them() {
    let mut s = scanned_session();
    s.auto_clear = true;
    s.handle(Msg::RowState("a".into(), RowState::Done));
    assert_eq!(ids(&s), vec!["c"]);
    assert_eq!(s.cleared, 1);
    s.handle(Msg::RowState("c".into(), RowState::Failed("boom".into())));
    assert_eq!(ids(&s), vec!["c"]);
    s.handle(Msg::RowState("c".into(), RowState::Skipped("already up to date".into())));
    assert!(s.rows.is_empty());
    assert_eq!(s.cleared, 2);
    assert_eq!(
        s.log,
        vec![
            "fixed   a".to_string(),
            "FAILED c: boom".to_string(),
            "skipped c (already up to date)".to_string(),
        ]
    );
    assert_eq!(s.empty_message(), "All done - 2 item(s) handled and cleared from the list.");
}

#[test]
fn clear_completed_keeps_failures() {
    let mut s = scanned_session();
    s.handle(Msg::ScanOk(vec![
        item("a", "redump.org"),
        item("b", "redump.org"),
        item("c", "redump.org"),
    ]));
    s.handle(Msg::RowState("a".into(), RowState::Skipped("already up to date".into())));
    s.handle(Msg::RowState("b".into(), RowState::Failed("timeout".into())));
    s.handle(Msg::RowState("c".into(), RowState::Done));
    assert_eq!(s.completed_count(), 2);
    s.clear_completed();
    assert_eq!(ids(&s), vec!["b"]);
    assert_eq!(s.cleared, 2);
    assert_eq!(
        s.log,
        vec![
            "FAILED b: timeout".to_string(),
            "skipped a (already up to date)".to_string(),
            "fixed   c".to_string(),
        ]
    );
}

#[test]
fn apply_done_and_empty_messages() {
    let mut s = Session::new();
    assert_eq!(
        s.empty_message(),
        "Press \"Scan my items\" to find descriptions that mention redump.org."
    );
    s.handle(Msg::ScanOk(vec![item("x", "plain")]));
    assert_eq!(s.status, "0 of your 1 item(s) mention redump.org.");
    assert_eq!(
        s.empty_message(),
        "Nothing to fix - none of your descriptions mention redump.org."
    );
    s.busy = true;
    s.handle(Msg::ApplyDone { ok: 3, failed: 0 });
    assert_eq!(s.status, "Done - 3 item(s) updated.");
    assert!(!s.busy);
    s.handle(Msg::ApplyDone { ok: 2, failed: 1 });
    assert_eq!(s.status, "Done - 2 updated, 1 failed (see log).");
}

#[test]
fn tally_counts_outcomes() {
    let mut t = ApplyTally::new();
    assert!(matches!(t.record(Ok(true)), RowState::Done));
    match t.record(Ok(false)) {
        RowState::Skipped(why) => assert_eq!(why, "already up to date"),
        _ => panic!("expected a skip"),
    }
    match t.record(Err("write failed".into())) {
        RowState::Failed(e) => assert_eq!(e, "write failed"),
        _ => panic!("expected a failure"),
    }
    assert_eq!((t.ok, t.failed), (1, 1));
    assert!(matches!(t.finish(), Msg::ApplyDone { ok: 1, failed: 1 }));
}

fn s(text: &str) -> JsonValue {
    JsonValue::String(text.to_string())
}

fn meta(description: Option<JsonValue>) -> JsonValue {
    let mut fields = vec![("identifier".to_string(), s("x"))];
    if let Some(d) = description {
        fields.push(("description".to_string(), d));
    }
    JsonValue::Object(vec![("metadata".to_string(), JsonValue::Object(fields))])
}

fn plan(v: &JsonValue) -> String {
    format!("{:?}", plan_update(v))
}

fn ok_some(v: JsonValue) -> String {
    format!("{:?}", Ok::<Option<JsonValue>, String>(Some(v)))
}

fn ok_none() -> String {
    format!("{:?}", Ok::<Option<JsonValue>, String>(None))
}

fn err(e: &str) -> String {
    format!("{:?}", Err::<Option<JsonValue>, String>(e.to_string()))
}

#[test]
fn plan_rewrites_fresh_descriptions() {
    assert_eq!(plan(&meta(Some(s("see redump.org")))), ok_some(s("see redump.info")));
    // Already fixed in the meantime: nothing to write.
    assert_eq!(plan(&meta(Some(s("see redump.info")))), ok_none());
    let n = || JsonValue::Number(JsonNumber { text: "5".into(), unsigned: Some(5) });
    let list = JsonValue::Array(vec![s("a redump.org"), n(), s("b")]);
    assert_eq!(
        plan(&meta(Some(list))),
        ok_some(JsonValue::Array(vec![s("a redump.info"), n(), s("b")]))
    );
    let unchanged = JsonValue::Array(vec![s("a"), n()]);
    assert_eq!(plan(&meta(Some(unchanged))), ok_none());
    assert_eq!(plan(&meta(None)), err("item has no description"));
    assert_eq!(plan(&JsonValue::Null), err("item has no description"));
    assert_eq!(plan(&meta(Some(JsonValue::Bool(true)))), err("description is not text"));
}

#[test]
fn rows_can_be_copied() {
    let s = scanned_session();
    let r: Row = s.rows[0].copied();
    assert_eq!(r.item.identifier, "a");
    assert_eq!(r.new_description, "see redump.info");
}

#[test]
fn sign_in_is_offered_only_when_idle_and_filled() {
    let mut s = Session::new();
    assert!(!s.can_sign_in());
    s.email = "me@example.com".into();
    s.password = "p".into();
    assert!(s.can_sign_in());
    s.busy = true;
    assert!(!s.can_sign_in());
}

#[test]
fn apply_is_offered_only_when_idle_with_a_selection() {
    let mut s = scanned_session();
    assert!(s.can_apply());
    s.busy = true;
    assert!(!s.can_apply());
    s.busy = false;
    s.select_none();
    assert!(!s.can_apply());
}

#[test]
fn a_run_of_reports_removes_only_cleared_items() {
    let mut s = scanned_session();
    s.auto_clear = true;
    let msgs = vec![
        Msg::RowState("a".into(), RowState::Working),
        Msg::RowState("c".into(), RowState::Failed("timeout".into())),
        Msg::ScanProgress(1, 2),
        Msg::RowState("a".into(), RowState::Pending),
        Msg::RowState("zzz".into(), RowState::Done),
        Msg::ApplyDone { ok: 0, failed: 1 },
    ];
    for m in msgs {
        s.handle(m);
    }
    // No finished state for "a" or "c" arrived: both are still listed.
    assert_eq!(ids(&s), vec!["a", "c"]);
    assert_eq!(s.log, vec!["FAILED c: timeout".to_string(), "fixed   zzz".to_string()]);
}
