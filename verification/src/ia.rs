//! What the Internet Archive client decides: how a login reply becomes
//! credentials or a message, how scrape pages become items, and how the
//! metadata reads and writes are checked. The requests themselves are made
//! by the application.

use crate::json::{
    flatten, flatten_spec, get_in, get_of, str_in, str_of, JsonNumber, JsonValue, JsonView,
};
use serde_json::Value;
use vstd::prelude::*;

verus! {

/// IA-S3 credentials. These are what actually authorise metadata writes; the
/// password is exchanged for them once at login and never stored.
#[derive(Clone, Debug)]
pub struct Creds {
    pub access: String,
    pub secret: String,
    pub screenname: String,
    pub email: String,
}

/// (access, secret, screenname, email)
pub type CredsView = (Seq<char>, Seq<char>, Seq<char>, Seq<char>);

impl View for Creds {
    type V = CredsView;

    open spec fn view(&self) -> CredsView {
        (self.access@, self.secret@, self.screenname@, self.email@)
    }
}

impl Creds {
    /// A copy of the credentials.
    pub fn copied(&self) -> (res: Creds)
        ensures
            res@ == self@,
    {
        Creds {
            access: self.access.clone(),
            secret: self.secret.clone(),
            screenname: self.screenname.clone(),
            email: self.email.clone(),
        }
    }
}

/// One item belonging to the logged-in user.
#[derive(Clone, Debug)]
pub struct Item {
    pub identifier: String,
    pub title: String,
    pub description: String,
}

/// (identifier, title, description)
pub type ItemView = (Seq<char>, Seq<char>, Seq<char>);

impl View for Item {
    type V = ItemView;

    open spec fn view(&self) -> ItemView {
        (self.identifier@, self.title@, self.description@)
    }
}

impl Item {
    /// A copy of the item.
    pub fn copied(&self) -> (res: Item)
        ensures
            res@ == self@,
    {
        Item {
            identifier: self.identifier.clone(),
            title: self.title.clone(),
            description: self.description.clone(),
        }
    }
}

pub open spec fn item_views(items: Seq<Item>) -> Seq<ItemView> {
    items.map_values(|i: Item| i@)
}

/// The string at `a/b` of a reply.
pub open spec fn str_at2(json: JsonView, a: Seq<char>, b: Seq<char>) -> Option<Seq<char>> {
    str_of(get_of(json.get(a), b))
}

/// The string at `a/b/c` of a reply.
pub open spec fn str_at3(json: JsonView, a: Seq<char>, b: Seq<char>, c: Seq<char>) -> Option<
    Seq<char>,
> {
    str_of(get_of(get_of(json.get(a), b), c))
}

/// The cause of a refused login: `values.reason`, else `error`.
pub open spec fn login_reason(json: JsonView) -> Seq<char> {
    match str_at2(json, "values"@, "reason"@) {
        Some(r) => r,
        None => match str_of(json.get("error"@)) {
            Some(e) => e,
            None => "unknown reason"@,
        },
    }
}

pub open spec fn login_failure(reason: Seq<char>) -> Seq<char> {
    if reason == "account_not_found"@ {
        "Account not found - check your email."@
    } else if reason == "account_bad_password"@ {
        "Incorrect password - try again."@
    } else {
        "Login failed: "@ + reason
    }
}

/// The reply's `success` field is the JSON value `true`.
pub open spec fn reports_success(json: JsonView) -> bool {
    match json.get("success"@) {
        Some(j) => j.as_bool() == Some(true),
        None => false,
    }
}

/// The outcome of an email + password login, from the reply of
/// `services/xauthn`.
pub open spec fn login_spec(json: JsonView, email: Seq<char>) -> Result<CredsView, Seq<char>> {
    if !reports_success(json) {
        Err(login_failure(login_reason(json)))
    } else {
        match str_at3(json, "values"@, "s3"@, "access"@) {
            None => Err("login response missing /values/s3/access"@),
            Some(access) => match str_at3(json, "values"@, "s3"@, "secret"@) {
                None => Err("login response missing /values/s3/secret"@),
                Some(secret) => Ok(
                    (
                        access,
                        secret,
                        match str_at2(json, "values"@, "screenname"@) {
                            Some(n) => n,
                            None => email,
                        },
                        email,
                    ),
                ),
            },
        }
    }
}

pub open spec fn result_view(res: Result<Creds, String>) -> Result<CredsView, Seq<char>> {
    match res {
        Ok(c) => Ok(c@),
        Err(e) => Err(e@),
    }
}

/// The string at `values/key`, if there is a value there, else at `key`.
pub open spec fn account_field(json: JsonView, key: Seq<char>) -> Option<Seq<char>> {
    str_of(
        match get_of(json.get("values"@), key) {
            Some(v) => Some(v),
            None => json.get(key),
        },
    )
}

/// The outcome of a login with S3 keys, from the reply of `account/info`.
pub open spec fn keys_login_spec(json: JsonView, access: Seq<char>, secret: Seq<char>) -> Result<
    CredsView,
    Seq<char>,
> {
    match account_field(json, "email"@) {
        None => Err("Could not read the account for those keys."@),
        Some(email) => Ok(
            (
                access,
                secret,
                match account_field(json, "screenname"@) {
                    Some(n) => n,
                    None => email,
                },
                email,
            ),
        ),
    }
}

/// Signing in with keys keeps the keys, and names the account as the reply
/// does: the screenname under `values` if there is one there, else the
/// top-level one, else the email; the email likewise, and without one the
/// keys are refused.
pub proof fn lemma_keys_login_names_the_account(json: JsonView, access: Seq<char>, secret: Seq<char>)
    ensures
        keys_login_spec(json, access, secret) matches Ok(c) ==> c.0 == access && c.1 == secret,
        str_of(get_of(json.get("values"@), "screenname"@)) matches Some(n) ==> (keys_login_spec(
            json,
            access,
            secret,
        ) matches Ok(c) ==> c.2 == n),
        get_of(json.get("values"@), "screenname"@) is None ==> (str_of(json.get("screenname"@))
            matches Some(n) ==> (keys_login_spec(json, access, secret) matches Ok(c) ==> c.2
            == n)),
        str_of(get_of(json.get("values"@), "screenname"@)) is None && (get_of(
            json.get("values"@),
            "screenname"@,
        ) is Some || str_of(json.get("screenname"@)) is None) ==> (keys_login_spec(
            json,
            access,
            secret,
        ) matches Ok(c) ==> c.2 == c.3),
        str_of(get_of(json.get("values"@), "email"@)) matches Some(e) ==> (keys_login_spec(
            json,
            access,
            secret,
        ) matches Ok(c) && c.3 == e),
        get_of(json.get("values"@), "email"@) is None ==> (str_of(json.get("email"@)) matches Some(
            e,
        ) ==> (keys_login_spec(json, access, secret) matches Ok(c) && c.3 == e)),
        str_of(get_of(json.get("values"@), "email"@)) is None && (get_of(
            json.get("values"@),
            "email"@,
        ) is Some || str_of(json.get("email"@)) is None) ==> keys_login_spec(
            json,
            access,
            secret,
        ) == Err::<CredsView, Seq<char>>("Could not read the account for those keys."@),
{
}

/// `v.and_then(as_str)` on `v.get(key)`.
fn str_field<'a>(v: &'a JsonValue, key: &str) -> (res: Option<&'a String>)
    ensures
        match res {
            Some(s) => str_of(v@.get(key@)) == Some(s@),
            None => str_of(v@.get(key@)) is None,
        },
{
    str_in(v.get(key))
}

/// Turn the reply to an email + password login into credentials or into the
/// message to show.
pub fn login_outcome(reply: &JsonValue, email: &str) -> (res: Result<Creds, String>)
    ensures
        result_view(res) == login_spec(reply@, email@),
{
    let success = match reply.get("success") {
        Some(j) => j.as_bool(),
        None => None,
    };
    let values = reply.get("values");
    if success != Some(true) {
        let reason = match str_in(get_in(values, "reason")) {
            Some(r) => r.clone(),
            None => match str_field(reply, "error") {
                Some(e) => e.clone(),
                None => String::from_str("unknown reason"),
            },
        };
        let message = if reason == String::from_str("account_not_found") {
            String::from_str("Account not found - check your email.")
        } else if reason == String::from_str("account_bad_password") {
            String::from_str("Incorrect password - try again.")
        } else {
            String::from_str("Login failed: ").concat(reason.as_str())
        };
        return Err(message);
    }
    let s3 = get_in(values, "s3");
    let access = match str_in(get_in(s3, "access")) {
        Some(a) => a.clone(),
        None => {
            return Err(String::from_str("login response missing /values/s3/access"));
        },
    };
    let secret = match str_in(get_in(s3, "secret")) {
        Some(s) => s.clone(),
        None => {
            return Err(String::from_str("login response missing /values/s3/secret"));
        },
    };
    let screenname = match str_in(get_in(values, "screenname")) {
        Some(n) => n.clone(),
        None => email.to_owned(),
    };
    Ok(Creds { access, secret, screenname, email: email.to_owned() })
}

/// The account field `key`: under `values` if present there, else at the top.
fn account_field_of<'a>(reply: &'a JsonValue, key: &str) -> (res: Option<&'a String>)
    ensures
        match res {
            Some(s) => account_field(reply@, key@) == Some(s@),
            None => account_field(reply@, key@) is None,
        },
{
    let found = match get_in(reply.get("values"), key) {
        Some(v) => Some(v),
        None => reply.get(key),
    };
    str_in(found)
}

/// An HTTP status other than success means the keys were refused.
pub fn check_keys_accepted(success: bool) -> (res: Result<(), String>)
    ensures
        success ==> res is Ok,
        !success ==> (res matches Err(e) && e@ == "Those S3 keys were rejected by archive.org."@),
{
    if success {
        Ok(())
    } else {
        Err(String::from_str("Those S3 keys were rejected by archive.org."))
    }
}

/// Turn the account reply for a pair of S3 keys into credentials.
pub fn keys_login_outcome(reply: &JsonValue, access: &str, secret: &str) -> (res: Result<
    Creds,
    String,
>)
    ensures
        result_view(res) == keys_login_spec(reply@, access@, secret@),
{
    let email = match account_field_of(reply, "email") {
        Some(e) => e.clone(),
        None => {
            return Err(String::from_str("Could not read the account for those keys."));
        },
    };
    let screenname = match account_field_of(reply, "screenname") {
        Some(n) => n.clone(),
        None => email.clone(),
    };
    Ok(Creds { access: access.to_owned(), secret: secret.to_owned(), screenname, email })
}

/// The `Authorization` header value for IA-S3 keys: `LOW access:secret`.
pub fn authorization(access: &str, secret: &str) -> (res: String)
    ensures
        res@ == "LOW "@ + access@ + ":"@ + secret@,
{
    String::from_str("LOW ").concat(access).concat(":").concat(secret)
}

/// The scrape query for every item uploaded by `email`: `uploader:"email"`.
pub fn scrape_query(email: &str) -> (res: String)
    ensures
        res@ == "uploader:\""@ + email@ + "\""@,
{
    String::from_str("uploader:\"").concat(email).concat("\"")
}

/// An item of a scrape page: identifier (or empty), title, description.
pub open spec fn item_from(it: JsonView) -> ItemView {
    (
        match str_of(it.get("identifier"@)) {
            Some(s) => s,
            None => Seq::empty(),
        },
        flatten_spec(it.get("title"@)),
        flatten_spec(it.get("description"@)),
    )
}

/// The items listed on a scrape page.
pub open spec fn page_items(page: JsonView) -> Seq<ItemView> {
    match page.get("items"@) {
        Some(JsonView::Array(a)) => a.map_values(|it: JsonView| item_from(it)),
        _ => Seq::empty(),
    }
}

/// The total the page announces, or 0.
pub open spec fn page_total(page: JsonView) -> u64 {
    match page.get("total"@) {
        Some(t) => match t.as_u64() {
            Some(n) => n,
            None => 0,
        },
        None => 0,
    }
}

/// `after` is `before` with the page taken in: its items appended, its
/// cursor (if any) next, finished without one; `progress` is the running
/// count and the total to show (at least the count).
pub open spec fn absorbed(before: Scan, after: Scan, page: JsonView, progress: (usize, usize)) -> bool {
    &&& item_views(after.items@) == item_views(before.items@) + page_items(page)
    &&& match after.cursor {
        Some(c) => str_of(page.get("cursor"@)) == Some(c@),
        None => str_of(page.get("cursor"@)) is None,
    }
    &&& after.finished == (str_of(page.get("cursor"@)) is None)
    &&& progress.0 == after.items@.len()
    &&& progress.0 <= progress.1
    &&& progress.1 == if (page_total(page) as usize) < progress.0 {
        progress.0
    } else {
        page_total(page) as usize
    }
}

/// Every item of an account, gathered one scrape page at a time.
pub struct Scan {
    pub items: Vec<Item>,
    /// Where the next page starts.
    pub cursor: Option<String>,
    /// No cursor came with the last page.
    pub finished: bool,
}

impl Scan {
    pub fn new() -> (res: Scan)
        ensures
            res.items@.len() == 0,
            res.cursor is None,
            !res.finished,
    {
        Scan { items: Vec::new(), cursor: None, finished: false }
    }

    /// Take in one page: its items are appended, its cursor (if any) is the
    /// next one, and without a cursor the scan is finished. Returns the
    /// running count and the total to show (at least the count).
    pub fn absorb(&mut self, page: &JsonValue) -> (progress: (usize, usize))
        ensures
            absorbed(*old(self), *final(self), page@, progress),
    {
        let total: u64 = match page.get("total") {
            Some(t) => match t.as_u64() {
                Some(n) => n,
                None => 0,
            },
            None => 0,
        };
        let total = total as usize;
        let ghost start = item_views(self.items@);
        match page.get("items") {
            Some(JsonValue::Array(list)) => {
                let ghost lv = match page@.get("items"@) {
                    Some(JsonView::Array(a)) => a,
                    _ => Seq::empty(),
                };
                assert(lv.len() == list@.len());
                let mut i: usize = 0;
                while i < list.len()
                    invariant
                        i <= list.len(),
                        lv.len() == list@.len(),
                        forall|j: int| 0 <= j < list@.len() ==> #[trigger] lv[j] == list@[j]@,
                        item_views(self.items@) == start + lv.take(i as int).map_values(
                            |it: JsonView| item_from(it),
                        ),
                    decreases list.len() - i,
                {
                    let it = &list[i];
                    let identifier = match str_field(it, "identifier") {
                        Some(s) => s.clone(),
                        None => String::new(),
                    };
                    let title = flatten(it.get("title"));
                    let description = flatten(it.get("description"));
                    let ghost before = self.items@;
                    self.items.push(Item { identifier, title, description });
                    proof {
                        assert(item_views(self.items@) =~= item_views(before).push(
                            item_from(lv[i as int]),
                        ));
                        assert(lv.take(i + 1).map_values(|it: JsonView| item_from(it))
                            =~= lv.take(i as int).map_values(|it: JsonView| item_from(it)).push(
                            item_from(lv[i as int]),
                        ));
                    }
                    i += 1;
                }
                assert(lv.take(list.len() as int) =~= lv);
            },
            _ => {
                assert(item_views(self.items@) =~= start + page_items(page@));
            },
        }
        match str_field(page, "cursor") {
            Some(c) => {
                self.cursor = Some(c.clone());
                self.finished = false;
            },
            None => {
                self.cursor = None;
                self.finished = true;
            },
        }
        let done = self.items.len();
        (done, if total < done { done } else { total })
    }

    /// Take in one page as its raw body; a body that is not JSON leaves the
    /// scan as it was.
    pub fn absorb_body(&mut self, body: &[u8]) -> (res: Result<(usize, usize), String>)
        ensures
            match body_json(body@) {
                Some(page) => res matches Ok(progress) && absorbed(
                    *old(self),
                    *final(self),
                    page,
                    progress,
                ),
                None => {
                    &&& res matches Err(e) && e@
                        == "could not parse search results: error decoding response body"@
                    &&& *final(self) == *old(self)
                },
            },
    {
        match parse_body(body) {
            Some(page) => Ok(self.absorb(&page)),
            None => Err(String::from_str("could not parse search results: error decoding response body")),
        }
    }
}

/// `res` is the reply's metadata check: the reply itself when it holds
/// `metadata`, else the message that the item is dark or does not exist.
pub open spec fn metadata_checked(reply: JsonView, res: Result<JsonValue, String>) -> bool {
    match res {
        Ok(v) => v@ == reply && reply.get("metadata"@) is Some,
        Err(e) => e@ == "item is dark or does not exist"@ && reply.get("metadata"@) is None,
    }
}

/// The item's metadata, unless the reply says nothing about it (the item is
/// dark or does not exist).
pub fn check_metadata(reply: JsonValue) -> (res: Result<JsonValue, String>)
    ensures
        metadata_checked(reply@, res),
{
    if reply.get("metadata").is_none() {
        return Err(String::from_str("item is dark or does not exist"));
    }
    Ok(reply)
}

/// The Metadata Write API patch that replaces the description.
pub open spec fn description_patch_spec(new_description: JsonView) -> JsonView {
    JsonView::Array(
        seq![
            JsonView::Object(
                seq![
                    ("op"@, JsonView::Str("replace"@)),
                    ("path"@, JsonView::Str("/description"@)),
                    ("value"@, new_description),
                ],
            ),
        ],
    )
}

/// Build the patch `[{"op": "replace", "path": "/description", "value": ..}]`.
pub fn description_patch(new_description: JsonValue) -> (res: JsonValue)
    ensures
        res@ == description_patch_spec(new_description@),
{
    let ghost d = new_description@;
    let op = (String::from_str("op"), JsonValue::String(String::from_str("replace")));
    let path = (String::from_str("path"), JsonValue::String(String::from_str("/description")));
    let value = (String::from_str("value"), new_description);
    assert(op.1@ == JsonView::Str("replace"@));
    assert(path.1@ == JsonView::Str("/description"@));
    let mut fields: Vec<(String, JsonValue)> = Vec::new();
    fields.push(op);
    fields.push(path);
    fields.push(value);
    let object = JsonValue::Object(fields);
    let ghost expected_fields = seq![
        ("op"@, JsonView::Str("replace"@)),
        ("path"@, JsonView::Str("/description"@)),
        ("value"@, d),
    ];
    assert(object@ == JsonView::Object(expected_fields)) by {
        if let JsonView::Object(f) = object@ {
            assert(f =~= expected_fields);
        }
    }
    let mut list: Vec<JsonValue> = Vec::new();
    list.push(object);
    let res = JsonValue::Array(list);
    assert(res@ == description_patch_spec(d)) by {
        if let JsonView::Array(a) = res@ {
            assert(a =~= seq![JsonView::Object(expected_fields)]);
        }
    }
    res
}

/// The message for a refused write: the reply's `error`, else `HTTP status`
/// when the body is empty, else the first 200 characters of the body.
pub open spec fn patch_error(status: Seq<char>, body: Seq<char>, reply: JsonView) -> Seq<char> {
    match str_of(reply.get("error"@)) {
        Some(e) => e,
        None => if body.len() == 0 {
            "HTTP "@ + status
        } else {
            body.take(
                if body.len() < 200 {
                    body.len() as int
                } else {
                    200
                },
            )
        },
    }
}

/// Judge the reply to a metadata write (`reply` is `Null` when the body is
/// not JSON).
pub fn patch_outcome(status: &str, body: &str, reply: &JsonValue) -> (res: Result<(), String>)
    ensures
        reports_success(reply@) ==> res is Ok,
        !reports_success(reply@) ==> (res matches Err(e) && e@ == patch_error(
            status@,
            body@,
            reply@,
        )),
{
    let success = match reply.get("success") {
        Some(j) => j.as_bool(),
        None => None,
    };
    if success == Some(true) {
        return Ok(());
    }
    match str_field(reply, "error") {
        Some(e) => Err(e.clone()),
        None => {
            let n = body.unicode_len();
            if n == 0 {
                Err(String::from_str("HTTP ").concat(status))
            } else {
                let keep = if n < 200 {
                    n
                } else {
                    200
                };
                let head = body.substring_char(0, keep);
                assert(head@ =~= body@.take(keep as int));
                Err(head.to_owned())
            }
        },
    }
}

/// `serde_json::Value`, carried through opaquely.
#[verifier::external_type_specification]
#[verifier::external_body]
pub struct ExSerdeValue(serde_json::Value);

/// What `serde_json::from_str` makes of a reply body, as the library's JSON
/// value (`Null` when the body is not JSON).
pub uninterp spec fn reply_of(body: Seq<char>) -> JsonView;

/// A `serde_json::Value` as the library's JSON value, variant by variant;
/// a number keeps its text and, where it has one, its `u64` value.
#[verifier::external_body]
fn from_serde(v: &Value) -> JsonValue {
    match v {
        Value::Null => JsonValue::Null,
        Value::Bool(b) => JsonValue::Bool(*b),
        Value::Number(n) => JsonValue::Number(JsonNumber { text: n.to_string(), unsigned: n.as_u64() }),
        Value::String(s) => JsonValue::String(s.clone()),
        Value::Array(a) => JsonValue::Array(a.iter().map(from_serde).collect()),
        Value::Object(m) => JsonValue::Object(m.iter().map(|(k, x)| (k.clone(), from_serde(x))).collect()),
    }
}

/// `serde_json::from_str` on a reply body, converted with `from_serde`.
/// Claimed: the result is `reply_of` the body, which depends on the body
/// alone (parsing is deterministic and object keys come out sorted); `Null`
/// when the body is not JSON.
#[verifier::external_body]
fn parse_reply(body: &str) -> (res: JsonValue)
    ensures
        res@ == reply_of(body@),
{
    match serde_json::from_str::<Value>(body) {
        Ok(v) => from_serde(&v),
        Err(_) => JsonValue::Null,
    }
}

/// Judge the reply to a metadata write from its HTTP status and raw body:
/// `Ok` when the body is JSON with `"success": true`, else the error message
/// of `patch_error`.
pub fn patch_result(status: &str, body: &str) -> (res: Result<(), String>)
    ensures
        reports_success(reply_of(body@)) ==> res is Ok,
        !reports_success(reply_of(body@)) ==> (res matches Err(e) && e@ == patch_error(
            status@,
            body@,
            reply_of(body@),
        )),
{
    let reply = parse_reply(body);
    patch_outcome(status, body, &reply)
}

/// What `serde_json::from_slice` makes of a response body, as the library's
/// JSON value; `None` when the body is not JSON.
pub uninterp spec fn body_json(body: Seq<u8>) -> Option<JsonView>;

/// `serde_json::from_slice` on a response body, converted with `from_serde`.
/// Claimed: the result is `body_json` of the body, which depends on the
/// bytes alone (parsing is deterministic and object keys come out sorted);
/// `None` when the body is not JSON.
#[verifier::external_body]
fn parse_body(body: &[u8]) -> (res: Option<JsonValue>)
    ensures
        match res {
            Some(v) => body_json(body@) == Some(v@),
            None => body_json(body@) is None,
        },
{
    match serde_json::from_slice::<Value>(body) {
        Ok(v) => Some(from_serde(&v)),
        Err(_) => None,
    }
}

/// Turn the raw reply to an email + password login into credentials or into
/// the message to show.
pub fn login_reply(body: &[u8], email: &str) -> (res: Result<Creds, String>)
    ensures
        result_view(res) == match body_json(body@) {
            Some(j) => login_spec(j, email@),
            None => Err("unexpected response from archive.org: error decoding response body"@),
        },
{
    match parse_body(body) {
        Some(reply) => login_outcome(&reply, email),
        None => Err(String::from_str("unexpected response from archive.org: error decoding response body")),
    }
}

/// Turn the raw account reply for a pair of S3 keys into credentials.
pub fn keys_login_reply(body: &[u8], access: &str, secret: &str) -> (res: Result<Creds, String>)
    ensures
        result_view(res) == match body_json(body@) {
            Some(j) => keys_login_spec(j, access@, secret@),
            None => Err("unexpected response from archive.org: error decoding response body"@),
        },
{
    match parse_body(body) {
        Some(reply) => keys_login_outcome(&reply, access, secret),
        None => Err(String::from_str("unexpected response from archive.org: error decoding response body")),
    }
}

/// The item's metadata from the raw reply: as `check_metadata` when the body
/// is JSON, else the message that it could not be parsed.
pub fn metadata_reply(body: &[u8]) -> (res: Result<JsonValue, String>)
    ensures
        match body_json(body@) {
            Some(j) => metadata_checked(j, res),
            None => res matches Err(e) && e@ == "could not parse metadata: error decoding response body"@,
        },
{
    match parse_body(body) {
        Some(reply) => check_metadata(reply),
        None => Err(String::from_str("could not parse metadata: error decoding response body")),
    }
}

/// A search page is read only when the HTTP status is a success.
pub fn check_search_status(success: bool, status: &str) -> (res: Result<(), String>)
    ensures
        success ==> res is Ok,
        !success ==> (res matches Err(e) && e@ == "search failed: HTTP "@ + status@),
{
    if success {
        Ok(())
    } else {
        Err(String::from_str("search failed: HTTP ").concat(status))
    }
}

/// The JSON text that `serde_json` writes for a value.
pub uninterp spec fn json_text(v: JsonView) -> Seq<char>;

/// The library's JSON value as a `serde_json::Value`, variant by variant; a
/// number whose text is not a JSON number becomes `null`.
#[verifier::external_body]
fn to_serde(v: &JsonValue) -> Value {
    match v {
        JsonValue::Null => Value::Null,
        JsonValue::Bool(b) => Value::Bool(*b),
        JsonValue::Number(n) => match n.text.parse::<serde_json::Number>() {
            Ok(x) => Value::Number(x),
            Err(_) => Value::Null,
        },
        JsonValue::String(s) => Value::String(s.clone()),
        JsonValue::Array(a) => Value::Array(a.iter().map(to_serde).collect()),
        JsonValue::Object(f) => Value::Object(f.iter().map(|(k, x)| (k.clone(), to_serde(x))).collect()),
    }
}

/// `serde_json::Value::to_string` on the value converted with `to_serde`.
/// Claimed: the result is `json_text` of the value, which depends on the
/// value alone (object keys come out sorted).
#[verifier::external_body]
fn encode_json(v: &JsonValue) -> (res: String)
    ensures
        res@ == json_text(v@),
{
    to_serde(v).to_string()
}

/// The text of the patch that replaces the description, as the Metadata
/// Write API takes it in its `-patch` field.
pub fn patch_text(new_description: JsonValue) -> (res: String)
    ensures
        res@ == json_text(description_patch_spec(new_description@)),
{
    encode_json(&description_patch(new_description))
}

} // verus!
