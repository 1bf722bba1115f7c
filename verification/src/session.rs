//! The state of a review-and-apply session: sign in, scan, review the rows,
//! apply, clear what is finished. The window and the background requests are
//! the application's; every decision about the state is made here.

use crate::ia::{Creds, CredsView, Item, ItemView};
use crate::replace::{fixed_text, DomainRegex};
use crate::text::{
    decimal, decimal_spec, has_visible, lemma_trim_empty_iff_blank, trim, trim_spec,
};
use vstd::prelude::*;

verus! {

#[derive(Clone, Copy, Debug, PartialEq, Eq, Structural)]
pub enum LoginMode {
    Password,
    S3Keys,
}

/// Where one reviewed item stands.
#[derive(Clone, Debug)]
pub enum RowState {
    Pending,
    Working,
    Done,
    Skipped(String),
    Failed(String),
}

pub enum RowStateView {
    Pending,
    Working,
    Done,
    Skipped(Seq<char>),
    Failed(Seq<char>),
}

impl View for RowState {
    type V = RowStateView;

    open spec fn view(&self) -> RowStateView {
        match self {
            RowState::Pending => RowStateView::Pending,
            RowState::Working => RowStateView::Working,
            RowState::Done => RowStateView::Done,
            RowState::Skipped(why) => RowStateView::Skipped(why@),
            RowState::Failed(e) => RowStateView::Failed(e@),
        }
    }
}

impl RowState {
    pub fn copied(&self) -> (res: RowState)
        ensures
            res@ == self@,
    {
        match self {
            RowState::Pending => RowState::Pending,
            RowState::Working => RowState::Working,
            RowState::Done => RowState::Done,
            RowState::Skipped(why) => RowState::Skipped(why.clone()),
            RowState::Failed(e) => RowState::Failed(e.clone()),
        }
    }
}

/// The item needs no further work: it is done or was skipped.
pub open spec fn is_settled(state: RowStateView) -> bool {
    state is Done || state is Skipped
}

/// Whether an item has reached a state that needs no further work, and so may
/// be cleared from the list when "Clear when fixed" is on. Anything still in
/// flight or failed stays put.
pub fn settles(state: &RowState) -> (res: bool)
    ensures
        res == is_settled(state@),
{
    match state {
        RowState::Done | RowState::Skipped(_) => true,
        RowState::Pending | RowState::Working | RowState::Failed(_) => false,
    }
}

/// One item found by a scan, with its rewritten description.
pub struct Row {
    pub item: Item,
    pub new_description: String,
    pub selected: bool,
    pub state: RowState,
}

/// (item, new description, selected, state)
pub type RowView = (ItemView, Seq<char>, bool, RowStateView);

impl View for Row {
    type V = RowView;

    open spec fn view(&self) -> RowView {
        (self.item@, self.new_description@, self.selected, self.state@)
    }
}

impl Row {
    pub fn copied(&self) -> (res: Row)
        ensures
            res@ == self@,
    {
        Row {
            item: self.item.copied(),
            new_description: self.new_description.clone(),
            selected: self.selected,
            state: self.state.copied(),
        }
    }
}

pub open spec fn row_views(rows: Seq<Row>) -> Seq<RowView> {
    rows.map_values(|r: Row| r@)
}

pub open spec fn string_views(lines: Seq<String>) -> Seq<Seq<char>> {
    lines.map_values(|s: String| s@)
}

/// What the background work reports back to the session.
pub enum Msg {
    LoginOk(Creds),
    LoginErr(String),
    ScanProgress(usize, usize),
    ScanOk(Vec<Item>),
    ScanErr(String),
    RowState(String, RowState),
    ApplyDone { ok: usize, failed: usize },
}

/// The credentials a sign-in uses.
pub enum LoginRequest {
    Password { email: String, password: String },
    Keys { access: String, secret: String },
}

/// Everything the window shows and edits.
pub struct Session {
    pub mode: LoginMode,
    pub email: String,
    pub password: String,
    pub access: String,
    pub secret: String,
    pub creds: Option<Creds>,
    pub status: String,
    pub busy: bool,
    pub scan_progress: Option<(usize, usize)>,
    pub rows: Vec<Row>,
    pub scanned: bool,
    pub confirming: bool,
    pub auto_clear: bool,
    pub cleared: usize,
    pub log: Vec<String>,
}

pub open spec fn creds_view(c: Option<Creds>) -> Option<CredsView> {
    match c {
        Some(c) => Some(c@),
        None => None,
    }
}

/// The sign-in form is untouched.
pub open spec fn same_form(s: Session, t: Session) -> bool {
    &&& t.mode == s.mode
    &&& t.email == s.email
    &&& t.password == s.password
    &&& t.access == s.access
    &&& t.secret == s.secret
}

/// The list and its bookkeeping are untouched.
pub open spec fn same_list(s: Session, t: Session) -> bool {
    &&& t.rows == s.rows
    &&& t.scanned == s.scanned
    &&& t.cleared == s.cleared
    &&& t.log == s.log
}

/// The switches the user sets are untouched.
pub open spec fn same_switches(s: Session, t: Session) -> bool {
    &&& t.confirming == s.confirming
    &&& t.auto_clear == s.auto_clear
}

/// The row a scan lists for an item: its description rewritten, selected,
/// not yet applied.
pub open spec fn row_for(item: ItemView) -> RowView {
    (item, fixed_text(item.2), true, RowStateView::Pending)
}

/// The rows of a scan: the items whose description `fix` would change.
pub open spec fn scan_rows(items: Seq<ItemView>) -> Seq<RowView>
    decreases items.len(),
{
    if items.len() == 0 {
        Seq::empty()
    } else {
        let rest = scan_rows(items.drop_last());
        let last = items.last();
        if fixed_text(last.2) != last.2 {
            rest.push(row_for(last))
        } else {
            rest
        }
    }
}

pub open spec fn scan_status(found: int, total: int) -> Seq<char> {
    decimal_spec(found as nat) + " of your "@ + decimal_spec(total as nat)
        + " item(s) mention redump.org."@
}

/// The log lines a state change leaves: always for a failure, and for a
/// finished item when it leaves the list.
pub open spec fn state_log(id: Seq<char>, state: RowStateView, auto_clear: bool) -> Seq<Seq<char>> {
    match state {
        RowStateView::Failed(e) => seq!["FAILED "@ + id + ": "@ + e],
        RowStateView::Done => if auto_clear {
            seq!["fixed   "@ + id]
        } else {
            Seq::empty()
        },
        RowStateView::Skipped(why) => if auto_clear {
            seq!["skipped "@ + id + " ("@ + why + ")"@]
        } else {
            Seq::empty()
        },
        _ => Seq::empty(),
    }
}

/// The rows other than those of item `id`.
pub open spec fn without_id(rows: Seq<RowView>, id: Seq<char>) -> Seq<RowView>
    decreases rows.len(),
{
    if rows.len() == 0 {
        Seq::empty()
    } else {
        let rest = without_id(rows.drop_last(), id);
        if rows.last().0.0 != id {
            rest.push(rows.last())
        } else {
            rest
        }
    }
}

/// The first row, at `i` or after, of item `id`.
pub open spec fn first_with_id(rows: Seq<RowView>, id: Seq<char>, i: int) -> Option<int>
    decreases rows.len() - i,
{
    if i < 0 || i >= rows.len() {
        None
    } else if rows[i].0.0 == id {
        Some(i)
    } else {
        first_with_id(rows, id, i + 1)
    }
}

/// The rows with the first row of item `id` (if any) put in `state`.
pub open spec fn with_state(rows: Seq<RowView>, id: Seq<char>, state: RowStateView) -> Seq<
    RowView,
> {
    match first_with_id(rows, id, 0) {
        Some(k) => rows.update(k, (rows[k].0, rows[k].1, rows[k].2, state)),
        None => rows,
    }
}

pub open spec fn done_status(ok: int, failed: int) -> Seq<char> {
    if failed == 0 {
        "Done - "@ + decimal_spec(ok as nat) + " item(s) updated."@
    } else {
        "Done - "@ + decimal_spec(ok as nat) + " updated, "@ + decimal_spec(failed as nat)
            + " failed (see log)."@
    }
}

/// Handling `msg` may need one more cleared item to be counted.
pub open spec fn can_handle(s: Session, msg: Msg) -> bool {
    match msg {
        Msg::RowState(_, state) => s.auto_clear && is_settled(state@) ==> s.cleared < usize::MAX,
        _ => true,
    }
}

/// The session `t` is `s` after handling `msg`.
pub open spec fn handled(s: Session, msg: Msg, t: Session) -> bool {
    match msg {
        Msg::LoginOk(c) => {
            &&& t.status@ == "Signed in as "@ + c.screenname@
            &&& creds_view(t.creds) == Some(c@)
            &&& t.password@ == Seq::<char>::empty()
            &&& !t.busy
            &&& t.mode == s.mode && t.email == s.email && t.access == s.access && t.secret
                == s.secret
            &&& t.scan_progress == s.scan_progress
            &&& same_list(s, t) && same_switches(s, t)
        },
        Msg::LoginErr(e) => {
            &&& t.status@ == e@
            &&& !t.busy
            &&& same_form(s, t) && t.creds == s.creds && t.scan_progress == s.scan_progress
            &&& same_list(s, t) && same_switches(s, t)
        },
        Msg::ScanProgress(done, total) => {
            &&& t.scan_progress == Some((done, total))
            &&& t.status == s.status && t.busy == s.busy
            &&& same_form(s, t) && t.creds == s.creds
            &&& same_list(s, t) && same_switches(s, t)
        },
        Msg::ScanOk(items) => {
            &&& row_views(t.rows@) == scan_rows(items@.map_values(|i: Item| i@))
            &&& t.status@ == scan_status(t.rows@.len() as int, items@.len() as int)
            &&& t.scan_progress is None
            &&& t.scanned
            &&& !t.busy
            &&& same_form(s, t) && t.creds == s.creds
            &&& t.cleared == s.cleared && t.log == s.log && same_switches(s, t)
        },
        Msg::ScanErr(e) => {
            &&& t.status@ == "Scan failed: "@ + e@
            &&& t.scan_progress is None
            &&& !t.busy
            &&& same_form(s, t) && t.creds == s.creds
            &&& same_list(s, t) && same_switches(s, t)
        },
        Msg::RowState(id, state) => {
            &&& string_views(t.log@) == string_views(s.log@) + state_log(
                id@,
                state@,
                s.auto_clear,
            )
            &&& if s.auto_clear && is_settled(state@) {
                &&& row_views(t.rows@) == without_id(row_views(s.rows@), id@)
                &&& t.cleared == s.cleared + 1
            } else {
                &&& row_views(t.rows@) == with_state(row_views(s.rows@), id@, state@)
                &&& t.cleared == s.cleared
            }
            &&& t.scanned == s.scanned
            &&& t.status == s.status && t.busy == s.busy && t.scan_progress == s.scan_progress
            &&& same_form(s, t) && t.creds == s.creds && same_switches(s, t)
        },
        Msg::ApplyDone { ok, failed } => {
            &&& t.status@ == done_status(ok as int, failed as int)
            &&& !t.busy
            &&& same_form(s, t) && t.creds == s.creds && t.scan_progress == s.scan_progress
            &&& same_list(s, t) && same_switches(s, t)
        },
    }
}

proof fn lemma_scan_rows_step(items: Seq<ItemView>, i: int)
    requires
        0 <= i < items.len(),
    ensures
        scan_rows(items.take(i + 1)) == if fixed_text(items[i].2) != items[i].2 {
            scan_rows(items.take(i)).push(row_for(items[i]))
        } else {
            scan_rows(items.take(i))
        },
{
    assert(items.take(i + 1).drop_last() =~= items.take(i));
}

proof fn lemma_without_id_step(rows: Seq<RowView>, id: Seq<char>, i: int)
    requires
        0 <= i < rows.len(),
    ensures
        without_id(rows.take(i + 1), id) == if rows[i].0.0 != id {
            without_id(rows.take(i), id).push(rows[i])
        } else {
            without_id(rows.take(i), id)
        },
{
    assert(rows.take(i + 1).drop_last() =~= rows.take(i));
}

impl Session {
    /// A fresh session: signed out, nothing scanned.
    pub fn new() -> (res: Session)
        ensures
            res.mode == LoginMode::Password,
            res.email@.len() == 0 && res.password@.len() == 0,
            res.access@.len() == 0 && res.secret@.len() == 0,
            res.creds is None,
            res.status@.len() == 0,
            !res.busy,
            res.scan_progress is None,
            res.rows@.len() == 0,
            !res.scanned && !res.confirming && !res.auto_clear,
            res.cleared == 0,
            res.log@.len() == 0,
    {
        Session {
            mode: LoginMode::Password,
            email: String::new(),
            password: String::new(),
            access: String::new(),
            secret: String::new(),
            creds: None,
            status: String::new(),
            busy: false,
            scan_progress: None,
            rows: Vec::new(),
            scanned: false,
            confirming: false,
            auto_clear: false,
            cleared: 0,
            log: Vec::new(),
        }
    }

    /// The rows for a finished scan.
    fn rows_from_scan(items: &Vec<Item>) -> (rows: Vec<Row>)
        ensures
            row_views(rows@) == scan_rows(items@.map_values(|i: Item| i@)),
    {
        let ghost iv = items@.map_values(|i: Item| i@);
        let rx = DomainRegex::new();
        let mut rows: Vec<Row> = Vec::new();
        let mut i: usize = 0;
        while i < items.len()
            invariant
                i <= items.len(),
                iv == items@.map_values(|i: Item| i@),
                row_views(rows@) == scan_rows(iv.take(i as int)),
            decreases items.len() - i,
        {
            proof {
                lemma_scan_rows_step(iv, i as int);
            }
            let item = &items[i];
            if rx.needs_fix(item.description.as_str()) {
                let ghost before = rows@;
                let row = Row {
                    item: item.copied(),
                    new_description: rx.fix(item.description.as_str()),
                    selected: true,
                    state: RowState::Pending,
                };
                rows.push(row);
                assert(row_views(rows@) =~= row_views(before).push(row_for(iv[i as int])));
            }
            i += 1;
        }
        assert(iv.take(items.len() as int) =~= iv);
        rows
    }

    /// The rows without those of item `id`.
    fn rows_without(rows: &Vec<Row>, id: &String) -> (res: Vec<Row>)
        ensures
            row_views(res@) == without_id(row_views(rows@), id@),
    {
        let ghost rv = row_views(rows@);
        let mut kept: Vec<Row> = Vec::new();
        let mut i: usize = 0;
        while i < rows.len()
            invariant
                i <= rows.len(),
                rv == row_views(rows@),
                row_views(kept@) == without_id(rv.take(i as int), id@),
            decreases rows.len() - i,
        {
            proof {
                lemma_without_id_step(rv, id@, i as int);
            }
            if !(rows[i].item.identifier == *id) {
                let ghost before = kept@;
                kept.push(rows[i].copied());
                assert(row_views(kept@) =~= row_views(before).push(rv[i as int]));
            }
            i += 1;
        }
        assert(rv.take(rows.len() as int) =~= rv);
        kept
    }

    /// Put the first row of item `id`, if any, in `state`.
    fn set_row_state(&mut self, id: &String, state: RowState)
        ensures
            row_views(final(self).rows@) == with_state(row_views(old(self).rows@), id@, state@),
            final(self).mode == old(self).mode && final(self).email == old(self).email,
            final(self).password == old(self).password && final(self).access == old(self).access,
            final(self).secret == old(self).secret && final(self).creds == old(self).creds,
            final(self).status == old(self).status && final(self).busy == old(self).busy,
            final(self).scan_progress == old(self).scan_progress,
            final(self).scanned == old(self).scanned && final(self).confirming == old(
                self,
            ).confirming,
            final(self).auto_clear == old(self).auto_clear && final(self).cleared == old(
                self,
            ).cleared,
            final(self).log == old(self).log,
    {
        let ghost rv = row_views(self.rows@);
        let mut i: usize = 0;
        while i < self.rows.len()
            invariant
                *self == *old(self),
                i <= self.rows.len(),
                rv == row_views(self.rows@),
                first_with_id(rv, id@, 0) == first_with_id(rv, id@, i as int),
            decreases self.rows.len() - i,
        {
            if self.rows[i].item.identifier == *id {
                assert(rv[i as int].0.0 == id@);
                assert(first_with_id(rv, id@, i as int) == Some(i as int));
                let mut row = self.rows[i].copied();
                row.state = state;
                self.rows.set(i, row);
                assert(row_views(self.rows@) =~= with_state(rv, id@, state@));
                return;
            }
            i += 1;
        }
    }

    /// Apply one report from the background work to the session.
    pub fn handle(&mut self, msg: Msg)
        requires
            can_handle(*old(self), msg),
        ensures
            handled(*old(self), msg, *final(self)),
    {
        match msg {
            Msg::LoginOk(c) => {
                self.status = String::from_str("Signed in as ").concat(c.screenname.as_str());
                self.creds = Some(c);
                self.password = String::new();
                self.busy = false;
            },
            Msg::LoginErr(e) => {
                self.status = e;
                self.busy = false;
            },
            Msg::ScanProgress(done, total) => {
                self.scan_progress = Some((done, total));
            },
            Msg::ScanOk(items) => {
                let total = items.len();
                self.rows = Session::rows_from_scan(&items);
                self.status = decimal(self.rows.len()).concat(" of your ").concat(
                    decimal(total).as_str(),
                ).concat(" item(s) mention redump.org.");
                self.scan_progress = None;
                self.scanned = true;
                self.busy = false;
            },
            Msg::ScanErr(e) => {
                self.status = String::from_str("Scan failed: ").concat(e.as_str());
                self.scan_progress = None;
                self.busy = false;
            },
            Msg::RowState(id, state) => {
                // An item that is done or skipped needs no further work. With
                // auto-clear on it leaves the list, so only outstanding items
                // stay on screen - but it always leaves a line in the log, so
                // nothing disappears without a record. Failures always stay
                // visible so they can be retried.
                let settled = settles(&state);
                let ghost log_before = self.log@;
                match &state {
                    RowState::Failed(e) => {
                        self.log.push(
                            String::from_str("FAILED ").concat(id.as_str()).concat(": ").concat(
                                e.as_str(),
                            ),
                        );
                    },
                    RowState::Done => {
                        if self.auto_clear {
                            self.log.push(String::from_str("fixed   ").concat(id.as_str()));
                        }
                    },
                    RowState::Skipped(why) => {
                        if self.auto_clear {
                            self.log.push(
                                String::from_str("skipped ").concat(id.as_str()).concat(
                                    " (",
                                ).concat(why.as_str()).concat(")"),
                            );
                        }
                    },
                    _ => {},
                }
                assert(string_views(self.log@) =~= string_views(log_before) + state_log(
                    id@,
                    state@,
                    self.auto_clear,
                ));
                if self.auto_clear && settled {
                    self.rows = Session::rows_without(&self.rows, &id);
                    self.cleared = self.cleared + 1;
                } else {
                    self.set_row_state(&id, state);
                }
            },
            Msg::ApplyDone { ok, failed } => {
                self.status = if failed == 0 {
                    String::from_str("Done - ").concat(decimal(ok).as_str()).concat(
                        " item(s) updated.",
                    )
                } else {
                    String::from_str("Done - ").concat(decimal(ok).as_str()).concat(
                        " updated, ",
                    ).concat(decimal(failed).as_str()).concat(" failed (see log).")
                };
                self.busy = false;
            },
        }
    }
}

/// The items an apply run works on: those of the selected rows that are not
/// done yet, in list order.
pub open spec fn apply_targets(rows: Seq<RowView>) -> Seq<Seq<char>>
    decreases rows.len(),
{
    if rows.len() == 0 {
        Seq::empty()
    } else {
        let rest = apply_targets(rows.drop_last());
        let last = rows.last();
        if last.2 && !(last.3 is Done) {
            rest.push(last.0.0)
        } else {
            rest
        }
    }
}

/// Every row of a target item goes back to pending.
pub open spec fn mark_pending(rows: Seq<RowView>, targets: Seq<Seq<char>>) -> Seq<RowView> {
    rows.map_values(
        |r: RowView|
            if targets.contains(r.0.0) {
                (r.0, r.1, r.2, RowStateView::Pending)
            } else {
                r
            },
    )
}

pub open spec fn count_selected(rows: Seq<RowView>) -> nat
    decreases rows.len(),
{
    if rows.len() == 0 {
        0
    } else {
        count_selected(rows.drop_last()) + if rows.last().2 {
            1nat
        } else {
            0nat
        }
    }
}

pub open spec fn count_settled(rows: Seq<RowView>) -> nat
    decreases rows.len(),
{
    if rows.len() == 0 {
        0
    } else {
        count_settled(rows.drop_last()) + if is_settled(rows.last().3) {
            1nat
        } else {
            0nat
        }
    }
}

/// The rows still needing attention.
pub open spec fn unsettled_rows(rows: Seq<RowView>) -> Seq<RowView>
    decreases rows.len(),
{
    if rows.len() == 0 {
        Seq::empty()
    } else {
        let rest = unsettled_rows(rows.drop_last());
        if is_settled(rows.last().3) {
            rest
        } else {
            rest.push(rows.last())
        }
    }
}

/// The log line for a finished row that is cleared.
pub open spec fn completion_note(r: RowView) -> Seq<char> {
    match r.3 {
        RowStateView::Skipped(why) => "skipped "@ + r.0.0 + " ("@ + why + ")"@,
        _ => "fixed   "@ + r.0.0,
    }
}

/// One log line per finished row, in list order.
pub open spec fn completion_notes(rows: Seq<RowView>) -> Seq<Seq<char>>
    decreases rows.len(),
{
    if rows.len() == 0 {
        Seq::empty()
    } else {
        let rest = completion_notes(rows.drop_last());
        if is_settled(rows.last().3) {
            rest.push(completion_note(rows.last()))
        } else {
            rest
        }
    }
}

pub open spec fn with_selection(rows: Seq<RowView>, selected: bool) -> Seq<RowView> {
    rows.map_values(|r: RowView| (r.0, r.1, selected, r.3))
}

/// The text shown when the list is empty.
pub open spec fn empty_message_spec(scanned: bool, cleared: nat) -> Seq<char> {
    if cleared > 0 {
        "All done - "@ + decimal_spec(cleared) + " item(s) handled and cleared from the list."@
    } else if scanned {
        "Nothing to fix - none of your descriptions mention redump.org."@
    } else {
        "Press \"Scan my items\" to find descriptions that mention redump.org."@
    }
}

/// Both fields of the chosen sign-in method hold something.
pub open spec fn login_filled_spec(s: Session) -> bool {
    match s.mode {
        LoginMode::Password => trim_spec(s.email@).len() > 0 && s.password@.len() > 0,
        LoginMode::S3Keys => trim_spec(s.access@).len() > 0 && trim_spec(s.secret@).len() > 0,
    }
}

/// Everything but the rows (and what the rows decide) is unchanged.
pub open spec fn same_but_rows(s: Session, t: Session) -> bool {
    &&& same_form(s, t) && same_switches(s, t)
    &&& t.creds == s.creds && t.status == s.status && t.busy == s.busy
    &&& t.scan_progress == s.scan_progress && t.scanned == s.scanned
    &&& t.cleared == s.cleared && t.log == s.log
}

proof fn lemma_take_step<A>(s: Seq<A>, i: int)
    requires
        0 <= i < s.len(),
    ensures
        s.take(i + 1).drop_last() == s.take(i),
        s.take(i + 1).last() == s[i],
{
    assert(s.take(i + 1).drop_last() =~= s.take(i));
}

fn contains_id(ids: &Vec<String>, id: &String) -> (res: bool)
    ensures
        res == string_views(ids@).contains(id@),
{
    let ghost iv = string_views(ids@);
    let mut i: usize = 0;
    while i < ids.len()
        invariant
            i <= ids.len(),
            iv == string_views(ids@),
            forall|j: int| 0 <= j < i ==> iv[j] != id@,
        decreases ids.len() - i,
    {
        if ids[i] == *id {
            assert(iv[i as int] == id@);
            return true;
        }
        i += 1;
    }
    false
}

impl Session {
    /// Start signing in: the session is busy, and the trimmed credentials of
    /// the chosen method are returned (the password as typed).
    pub fn begin_login(&mut self) -> (req: LoginRequest)
        ensures
            final(self).busy,
            final(self).status@ == "Signing in..."@,
            same_form(*old(self), *final(self)) && same_switches(*old(self), *final(self)),
            same_list(*old(self), *final(self)),
            final(self).creds == old(self).creds,
            final(self).scan_progress == old(self).scan_progress,
            match old(self).mode {
                LoginMode::Password => req matches LoginRequest::Password { email, password }
                    && email@ == trim_spec(old(self).email@) && password@ == old(
                    self,
                ).password@,
                LoginMode::S3Keys => req matches LoginRequest::Keys { access, secret }
                    && access@ == trim_spec(old(self).access@) && secret@ == trim_spec(
                    old(self).secret@,
                ),
            },
    {
        self.busy = true;
        self.status = String::from_str("Signing in...");
        match self.mode {
            LoginMode::Password => LoginRequest::Password {
                email: trim(self.email.as_str()).to_owned(),
                password: self.password.clone(),
            },
            LoginMode::S3Keys => LoginRequest::Keys {
                access: trim(self.access.as_str()).to_owned(),
                secret: trim(self.secret.as_str()).to_owned(),
            },
        }
    }

    /// Start a scan, if signed in: the list is emptied and the credentials to
    /// scan with are returned.
    pub fn begin_scan(&mut self) -> (res: Option<Creds>)
        ensures
            old(self).creds is None ==> res is None && *final(self) == *old(self),
            old(self).creds is Some ==> {
                &&& creds_view(res) == creds_view(old(self).creds)
                &&& final(self).busy && !final(self).scanned
                &&& final(self).rows@.len() == 0
                &&& final(self).cleared == 0
                &&& final(self).scan_progress == Some((0usize, 0usize))
                &&& final(self).status@ == "Scanning your items..."@
                &&& same_form(*old(self), *final(self)) && same_switches(*old(self), *final(self))
                &&& final(self).creds == old(self).creds && final(self).log == old(self).log
            },
    {
        let creds = match &self.creds {
            Some(c) => c.copied(),
            None => {
                return None;
            },
        };
        self.busy = true;
        self.scanned = false;
        self.rows = Vec::new();
        self.cleared = 0;
        self.scan_progress = Some((0, 0));
        self.status = String::from_str("Scanning your items...");
        Some(creds)
    }

    /// The items an apply run would work on.
    fn targets(&self) -> (res: Vec<String>)
        ensures
            string_views(res@) == apply_targets(row_views(self.rows@)),
    {
        let ghost rv = row_views(self.rows@);
        let mut out: Vec<String> = Vec::new();
        let mut i: usize = 0;
        while i < self.rows.len()
            invariant
                i <= self.rows.len(),
                rv == row_views(self.rows@),
                string_views(out@) == apply_targets(rv.take(i as int)),
            decreases self.rows.len() - i,
        {
            proof {
                lemma_take_step(rv, i as int);
            }
            let row = &self.rows[i];
            let done = match row.state {
                RowState::Done => true,
                _ => false,
            };
            if row.selected && !done {
                let ghost before = out@;
                out.push(row.item.identifier.clone());
                assert(string_views(out@) =~= string_views(before).push(rv[i as int].0.0));
            }
            i += 1;
        }
        assert(rv.take(self.rows.len() as int) =~= rv);
        out
    }

    /// Start applying, if signed in and something is selected and not done:
    /// the rows of those items go back to pending, and the credentials and
    /// the items (in list order) are returned.
    pub fn begin_apply(&mut self) -> (res: Option<(Creds, Vec<String>)>)
        ensures
            old(self).creds is None || apply_targets(row_views(old(self).rows@)).len() == 0
                ==> res is None && *final(self) == *old(self),
            old(self).creds is Some && apply_targets(row_views(old(self).rows@)).len() > 0 ==> (
            res matches Some((c, ids)) && {
                let targets = apply_targets(row_views(old(self).rows@));
                &&& creds_view(Some(c)) == creds_view(old(self).creds)
                &&& string_views(ids@) == targets
                &&& final(self).busy
                &&& final(self).status@ == "Updating "@ + decimal_spec(targets.len())
                    + " item(s)..."@
                &&& row_views(final(self).rows@) == mark_pending(
                    row_views(old(self).rows@),
                    targets,
                )
                &&& same_form(*old(self), *final(self)) && same_switches(
                    *old(self),
                    *final(self),
                )
                &&& final(self).creds == old(self).creds && final(self).log == old(self).log
                &&& final(self).scanned == old(self).scanned && final(self).cleared == old(
                    self,
                ).cleared
                &&& final(self).scan_progress == old(self).scan_progress
            }),
    {
        let creds = match &self.creds {
            Some(c) => c.copied(),
            None => {
                return None;
            },
        };
        let targets = self.targets();
        if targets.len() == 0 {
            return None;
        }
        self.busy = true;
        self.status = String::from_str("Updating ").concat(decimal(targets.len()).as_str()).concat(
            " item(s)...",
        );
        let ghost rv = row_views(self.rows@);
        let ghost tv = string_views(targets@);
        let ghost pre = *self;
        let mut i: usize = 0;
        while i < self.rows.len()
            invariant
                i <= self.rows.len(),
                rv.len() == self.rows@.len(),
                tv == string_views(targets@),
                same_but_rows(pre, *self),
                forall|j: int| 0 <= j < i ==> (#[trigger] self.rows@[j])@ == mark_pending(rv, tv)[j],
                forall|j: int| i <= j < rv.len() ==> (#[trigger] self.rows@[j])@ == rv[j],
            decreases self.rows.len() - i,
        {
            if contains_id(&targets, &self.rows[i].item.identifier) {
                let mut row = self.rows[i].copied();
                row.state = RowState::Pending;
                self.rows.set(i, row);
            }
            i += 1;
        }
        assert(row_views(self.rows@) =~= mark_pending(rv, tv));
        Some((creds, targets))
    }

    /// Sign out: forget the credentials and the list.
    pub fn sign_out(&mut self)
        ensures
            final(self).creds is None,
            final(self).rows@.len() == 0,
            !final(self).scanned,
            final(self).status@.len() == 0,
            same_form(*old(self), *final(self)) && same_switches(*old(self), *final(self)),
            final(self).busy == old(self).busy && final(self).scan_progress == old(
                self,
            ).scan_progress,
            final(self).cleared == old(self).cleared && final(self).log == old(self).log,
    {
        self.creds = None;
        self.rows = Vec::new();
        self.scanned = false;
        self.status = String::new();
    }

    /// Select every row (or none).
    pub fn select_every_row(&mut self, selected: bool)
        ensures
            row_views(final(self).rows@) == with_selection(row_views(old(self).rows@), selected),
            final(self).rows@.len() == old(self).rows@.len(),
            forall|i: int|
                0 <= i < old(self).rows@.len() ==> {
                    let (o, n) = (old(self).rows@[i]@, (#[trigger] final(self).rows@[i])@);
                    &&& n.2 == selected
                    &&& n.0 == o.0 && n.1 == o.1 && n.3 == o.3
                },
            same_but_rows(*old(self), *final(self)),
    {
        let ghost rv = row_views(self.rows@);
        let mut i: usize = 0;
        while i < self.rows.len()
            invariant
                i <= self.rows.len(),
                rv.len() == self.rows@.len(),
                same_but_rows(*old(self), *self),
                forall|j: int|
                    0 <= j < i ==> (#[trigger] self.rows@[j])@ == with_selection(rv, selected)[j],
                forall|j: int| i <= j < rv.len() ==> (#[trigger] self.rows@[j])@ == rv[j],
            decreases self.rows.len() - i,
        {
            let mut row = self.rows[i].copied();
            row.selected = selected;
            self.rows.set(i, row);
            i += 1;
        }
        assert(row_views(self.rows@) =~= with_selection(rv, selected));
    }

    /// Select all rows.
    pub fn select_all(&mut self)
        ensures
            row_views(final(self).rows@) == with_selection(row_views(old(self).rows@), true),
            same_but_rows(*old(self), *final(self)),
    {
        self.select_every_row(true)
    }

    /// Select no row.
    pub fn select_none(&mut self)
        ensures
            row_views(final(self).rows@) == with_selection(row_views(old(self).rows@), false),
            same_but_rows(*old(self), *final(self)),
    {
        self.select_every_row(false)
    }

    /// How many rows are selected.
    pub fn selected_count(&self) -> (n: usize)
        ensures
            n == count_selected(row_views(self.rows@)),
    {
        let ghost rv = row_views(self.rows@);
        let mut n: usize = 0;
        let mut i: usize = 0;
        while i < self.rows.len()
            invariant
                i <= self.rows.len(),
                rv == row_views(self.rows@),
                n == count_selected(rv.take(i as int)),
                n <= i,
            decreases self.rows.len() - i,
        {
            proof {
                lemma_take_step(rv, i as int);
            }
            if self.rows[i].selected {
                n += 1;
            }
            i += 1;
        }
        assert(rv.take(self.rows.len() as int) =~= rv);
        n
    }

    /// How many rows are finished (done or skipped).
    pub fn completed_count(&self) -> (n: usize)
        ensures
            n == count_settled(row_views(self.rows@)),
    {
        let ghost rv = row_views(self.rows@);
        let mut n: usize = 0;
        let mut i: usize = 0;
        while i < self.rows.len()
            invariant
                i <= self.rows.len(),
                rv == row_views(self.rows@),
                n == count_settled(rv.take(i as int)),
                n <= i,
            decreases self.rows.len() - i,
        {
            proof {
                lemma_take_step(rv, i as int);
            }
            if settles(&self.rows[i].state) {
                n += 1;
            }
            i += 1;
        }
        assert(rv.take(self.rows.len() as int) =~= rv);
        n
    }

    /// Same rule as auto-clear, on demand: finished items leave the list,
    /// failures stay, and each cleared item leaves a line in the log.
    pub fn clear_completed(&mut self)
        requires
            old(self).cleared + count_settled(row_views(old(self).rows@)) <= usize::MAX,
        ensures
            row_views(final(self).rows@) == unsettled_rows(row_views(old(self).rows@)),
            string_views(final(self).log@) == string_views(old(self).log@) + completion_notes(
                row_views(old(self).rows@),
            ),
            final(self).cleared == old(self).cleared + count_settled(row_views(old(self).rows@)),
            same_form(*old(self), *final(self)) && same_switches(*old(self), *final(self)),
            final(self).creds == old(self).creds && final(self).status == old(self).status,
            final(self).busy == old(self).busy && final(self).scanned == old(self).scanned,
            final(self).scan_progress == old(self).scan_progress,
    {
        let ghost rv = row_views(self.rows@);
        let ghost log0 = string_views(self.log@);
        let ghost cleared0 = self.cleared;
        let mut kept: Vec<Row> = Vec::new();
        let mut completed: usize = 0;
        let mut i: usize = 0;
        while i < self.rows.len()
            invariant
                i <= self.rows.len(),
                rv == row_views(self.rows@),
                row_views(kept@) == unsettled_rows(rv.take(i as int)),
                string_views(self.log@) == log0 + completion_notes(rv.take(i as int)),
                completed == count_settled(rv.take(i as int)),
                completed <= i,
                self.cleared == cleared0,
                cleared0 + count_settled(rv) <= usize::MAX,
                same_form(*old(self), *self) && same_switches(*old(self), *self),
                self.creds == old(self).creds && self.status == old(self).status,
                self.busy == old(self).busy && self.scanned == old(self).scanned,
                self.scan_progress == old(self).scan_progress,
            decreases self.rows.len() - i,
        {
            proof {
                lemma_take_step(rv, i as int);
            }
            let row = &self.rows[i];
            if settles(&row.state) {
                let note = match &row.state {
                    RowState::Skipped(why) => String::from_str("skipped ").concat(
                        row.item.identifier.as_str(),
                    ).concat(" (").concat(why.as_str()).concat(")"),
                    _ => String::from_str("fixed   ").concat(row.item.identifier.as_str()),
                };
                let ghost before = self.log@;
                self.log.push(note);
                assert(string_views(self.log@) =~= string_views(before).push(
                    completion_note(rv[i as int]),
                ));
                completed += 1;
            } else {
                let ghost before = kept@;
                kept.push(row.copied());
                assert(row_views(kept@) =~= row_views(before).push(rv[i as int]));
            }
            i += 1;
        }
        assert(rv.take(self.rows.len() as int) =~= rv);
        self.rows = kept;
        self.cleared = self.cleared + completed;
    }

    /// The text shown when the list is empty: distinguishes "the scan found
    /// nothing" from "everything found has since been fixed and cleared
    /// away".
    pub fn empty_message(&self) -> (res: String)
        ensures
            res@ == empty_message_spec(self.scanned, self.cleared as nat),
    {
        if self.cleared > 0 {
            String::from_str("All done - ").concat(decimal(self.cleared).as_str()).concat(
                " item(s) handled and cleared from the list.",
            )
        } else if self.scanned {
            String::from_str("Nothing to fix - none of your descriptions mention redump.org.")
        } else {
            String::from_str("Press \"Scan my items\" to find descriptions that mention redump.org.")
        }
    }

    /// Whether signing in is offered (the button, and Enter in a field):
    /// nothing is running and both fields of the chosen method are filled in.
    pub fn can_sign_in(&self) -> (res: bool)
        ensures
            res == (!self.busy && login_filled_spec(*self)),
    {
        !self.busy && self.login_filled()
    }

    /// Whether applying is offered: nothing is running and some row is
    /// selected.
    pub fn can_apply(&self) -> (res: bool)
        ensures
            res == (!self.busy && count_selected(row_views(self.rows@)) > 0),
    {
        !self.busy && self.selected_count() > 0
    }

    /// Both fields of the chosen sign-in method are filled in.
    pub fn login_filled(&self) -> (res: bool)
        ensures
            res == login_filled_spec(*self),
    {
        match self.mode {
            LoginMode::Password => trim(self.email.as_str()).unicode_len() > 0
                && self.password.as_str().unicode_len() > 0,
            LoginMode::S3Keys => trim(self.access.as_str()).unicode_len() > 0 && trim(
                self.secret.as_str(),
            ).unicode_len() > 0,
        }
    }
}

/// Clearing finished items loses nothing: every row either stays on the
/// list or leaves exactly one line in the log.
pub proof fn lemma_clear_accounts_for_every_row(rows: Seq<RowView>)
    ensures
        completion_notes(rows).len() == count_settled(rows),
        unsettled_rows(rows).len() + completion_notes(rows).len() == rows.len(),
    decreases rows.len(),
{
    if rows.len() > 0 {
        lemma_clear_accounts_for_every_row(rows.drop_last());
    }
}

/// Clearing finished items keeps every row that is not finished - failures
/// and items still in flight - and only those, in order.
pub proof fn lemma_clear_keeps_unfinished(rows: Seq<RowView>)
    ensures
        forall|i: int|
            0 <= i < rows.len() && !is_settled(rows[i].3) ==> unsettled_rows(rows).contains(
                #[trigger] rows[i],
            ),
        forall|i: int|
            0 <= i < unsettled_rows(rows).len() ==> !is_settled(
                (#[trigger] unsettled_rows(rows)[i]).3,
            ),
    decreases rows.len(),
{
    if rows.len() > 0 {
        let init = rows.drop_last();
        lemma_clear_keeps_unfinished(init);
        let rest = unsettled_rows(init);
        assert forall|i: int|
            0 <= i < rows.len() && !is_settled(rows[i].3) implies unsettled_rows(rows).contains(
            #[trigger] rows[i],
        ) by {
            if i < rows.len() - 1 {
                assert(init[i] == rows[i]);
                let j = choose|j: int| 0 <= j < rest.len() && rest[j] == init[i];
                if !is_settled(rows.last().3) {
                    assert(unsettled_rows(rows)[j] == rest[j]);
                }
            } else {
                assert(unsettled_rows(rows).last() == rows[i]);
            }
        }
    }
}

/// A report that finishes an item while auto-clear is on leaves one line in
/// the log; a failure always does, and it never removes a row.
pub proof fn lemma_reports_leave_a_trace(id: Seq<char>, state: RowStateView, auto_clear: bool)
    ensures
        auto_clear && is_settled(state) ==> state_log(id, state, auto_clear).len() == 1,
        state is Failed ==> state_log(id, state, auto_clear).len() == 1 && !is_settled(state),
{
}

/// Reporting a state keeps every row on the list and changes no row but the
/// first one of that item, which takes the state.
pub proof fn lemma_state_report_keeps_rows(rows: Seq<RowView>, id: Seq<char>, state: RowStateView)
    ensures
        with_state(rows, id, state).len() == rows.len(),
        forall|i: int|
            0 <= i < rows.len() && Some(i) != first_with_id(rows, id, 0) ==> #[trigger] with_state(
                rows,
                id,
                state,
            )[i] == rows[i],
        first_with_id(rows, id, 0) matches Some(k) ==> 0 <= k < rows.len() && rows[k].0.0 == id
            && with_state(rows, id, state)[k].3 == state,
{
    lemma_first_with_id(rows, id, 0);
}

proof fn lemma_first_with_id(rows: Seq<RowView>, id: Seq<char>, i: int)
    ensures
        first_with_id(rows, id, i) matches Some(k) ==> i <= k < rows.len() && rows[k].0.0 == id,
    decreases rows.len() - i,
{
    if 0 <= i < rows.len() && rows[i].0.0 != id {
        lemma_first_with_id(rows, id, i + 1);
    }
}

/// Item `id` has a row on the list.
pub open spec fn lists_item(rows: Seq<RowView>, id: Seq<char>) -> bool {
    exists|i: int| 0 <= i < rows.len() && (#[trigger] rows[i]).0.0 == id
}

/// Handling `msg` in `s` takes item `id` off the list: a finished state for
/// it arrives while finished items are cleared.
pub open spec fn clears_item(s: Session, msg: Msg, id: Seq<char>) -> bool {
    match msg {
        Msg::RowState(mid, state) => s.auto_clear && is_settled(state@) && mid@ == id,
        _ => false,
    }
}

/// `states` are the sessions that handling `msgs`, one at a time and in
/// order, goes through.
pub open spec fn handles_in_turn(states: Seq<Session>, msgs: Seq<Msg>) -> bool {
    &&& states.len() == msgs.len() + 1
    &&& forall|i: int|
        #![trigger msgs[i]]
        0 <= i < msgs.len() ==> handled(states[i], msgs[i], states[i + 1])
}

proof fn lemma_without_other_keeps(rows: Seq<RowView>, other: Seq<char>, id: Seq<char>)
    requires
        other != id,
        lists_item(rows, id),
    ensures
        lists_item(without_id(rows, other), id),
    decreases rows.len(),
{
    let last = rows.last();
    let rest = without_id(rows.drop_last(), other);
    if last.0.0 == id {
        assert(without_id(rows, other) == rest.push(last));
        assert(without_id(rows, other)[rest.len() as int] == last);
    } else {
        let i = choose|i: int| 0 <= i < rows.len() && (#[trigger] rows[i]).0.0 == id;
        assert(rows.drop_last()[i] == rows[i]);
        lemma_without_other_keeps(rows.drop_last(), other, id);
        let j = choose|j: int| 0 <= j < rest.len() && (#[trigger] rest[j]).0.0 == id;
        if last.0.0 != other {
            assert(without_id(rows, other)[j] == rest[j]);
        }
    }
}

proof fn lemma_step_keeps_item(s: Session, msg: Msg, t: Session, id: Seq<char>)
    requires
        handled(s, msg, t),
        !(msg is ScanOk),
        !clears_item(s, msg, id),
        lists_item(row_views(s.rows@), id),
    ensures
        lists_item(row_views(t.rows@), id),
{
    let rows = row_views(s.rows@);
    if let Msg::RowState(mid, state) = msg {
        if s.auto_clear && is_settled(state@) {
            lemma_without_other_keeps(rows, mid@, id);
        } else {
            let i = choose|i: int| 0 <= i < rows.len() && (#[trigger] rows[i]).0.0 == id;
            lemma_state_report_keeps_rows(rows, mid@, state@);
            let u = with_state(rows, mid@, state@);
            assert(u[i].0.0 == id);
        }
    }
}

/// Across any run of messages with no new scan, an item leaves the list only
/// when a finished (done or skipped) state for it arrives while finished
/// items are cleared: pending, working and failed items are never removed.
pub proof fn lemma_items_leave_only_when_cleared(
    states: Seq<Session>,
    msgs: Seq<Msg>,
    id: Seq<char>,
)
    requires
        handles_in_turn(states, msgs),
        forall|i: int|
            0 <= i < msgs.len() ==> !(#[trigger] msgs[i] is ScanOk) && !clears_item(
                states[i],
                msgs[i],
                id,
            ),
        lists_item(row_views(states[0].rows@), id),
    ensures
        lists_item(row_views(states.last().rows@), id),
    decreases msgs.len(),
{
    let n = msgs.len() as int;
    if n > 0 {
        let ss = states.drop_last();
        let ms = msgs.drop_last();
        assert forall|i: int| 0 <= i < ms.len() implies handled(ss[i], #[trigger] ms[i], ss[i + 1]) by {
            assert(ms[i] == msgs[i]);
        }
        assert forall|i: int| 0 <= i < ms.len() implies !(#[trigger] ms[i] is ScanOk) && !clears_item(
            ss[i],
            ms[i],
            id,
        ) by {
            assert(ms[i] == msgs[i]);
        }
        lemma_items_leave_only_when_cleared(ss, ms, id);
        assert(msgs[n - 1] == msgs[n - 1]);
        lemma_step_keeps_item(states[n - 1], msgs[n - 1], states[n], id);
    }
}

/// Every selected row that is not done is a target of the next run: a failed
/// or skipped item can be retried by applying again.
pub proof fn lemma_selected_unfinished_rows_are_targets(rows: Seq<RowView>)
    ensures
        forall|j: int|
            0 <= j < rows.len() && (#[trigger] rows[j]).2 && !(rows[j].3 is Done) ==> apply_targets(
                rows,
            ).contains(rows[j].0.0),
    decreases rows.len(),
{
    if rows.len() > 0 {
        let init = rows.drop_last();
        lemma_selected_unfinished_rows_are_targets(init);
        let rest = apply_targets(init);
        let t = apply_targets(rows);
        assert forall|j: int|
            0 <= j < rows.len() && (#[trigger] rows[j]).2 && !(rows[j].3 is Done) implies t.contains(
            rows[j].0.0,
        ) by {
            if j < rows.len() - 1 {
                assert(init[j] == rows[j]);
                assert(rest.contains(rows[j].0.0));
                let k = choose|k: int| 0 <= k < rest.len() && rest[k] == rows[j].0.0;
                assert(t[k] == rest[k]);
            } else {
                assert(rows[j] == rows.last());
                assert(t[t.len() - 1] == rows[j].0.0);
            }
        }
    }
}

/// Selecting all or none sets the flag of every row, whatever its state, and
/// changes nothing else of any row.
pub proof fn lemma_selection_sets_every_row(rows: Seq<RowView>, selected: bool)
    ensures
        with_selection(rows, selected).len() == rows.len(),
        forall|i: int|
            0 <= i < rows.len() ==> {
                let r = #[trigger] with_selection(rows, selected)[i];
                &&& r.2 == selected
                &&& r.0 == rows[i].0 && r.1 == rows[i].1 && r.3 == rows[i].3
            },
{
}

/// The sign-in form is filled exactly when both of its fields are: in
/// password mode an email with a visible character and a non-empty
/// password, in key mode both keys with a visible character.
pub proof fn lemma_login_form_needs_both_fields(s: Session)
    ensures
        s.mode == LoginMode::Password ==> (login_filled_spec(s) == (has_visible(s.email@)
            && s.password@.len() > 0)),
        s.mode == LoginMode::S3Keys ==> (login_filled_spec(s) == (has_visible(s.access@)
            && has_visible(s.secret@))),
{
    lemma_trim_empty_iff_blank(s.email@);
    lemma_trim_empty_iff_blank(s.access@);
    lemma_trim_empty_iff_blank(s.secret@);
}

/// A scan lists exactly the items whose description the fix changes: each
/// row is such an item, selected and pending, with the fixed description,
/// and each such item has its row.
pub proof fn lemma_scan_lists_what_needs_fixing(items: Seq<ItemView>)
    ensures
        forall|i: int|
            0 <= i < scan_rows(items).len() ==> {
                let r = #[trigger] scan_rows(items)[i];
                &&& items.contains(r.0)
                &&& r == row_for(r.0)
                &&& r.1 != r.0.2
            },
        forall|i: int|
            0 <= i < items.len() && fixed_text(items[i].2) != items[i].2 ==> scan_rows(
                items,
            ).contains(row_for(#[trigger] items[i])),
    decreases items.len(),
{
    if items.len() > 0 {
        let init = items.drop_last();
        lemma_scan_lists_what_needs_fixing(init);
        let rest = scan_rows(init);
        let rows = scan_rows(items);
        assert forall|i: int| 0 <= i < rows.len() implies {
            let r = #[trigger] rows[i];
            &&& items.contains(r.0)
            &&& r == row_for(r.0)
            &&& r.1 != r.0.2
        } by {
            if i < rest.len() {
                assert(rows[i] == rest[i]);
                let r = rest[i];
                let j = choose|j: int| 0 <= j < init.len() && init[j] == r.0;
                assert(items[j] == init[j]);
            } else {
                assert(items[items.len() - 1] == items.last());
            }
        }
        assert forall|i: int|
            0 <= i < items.len() && fixed_text(items[i].2) != items[i].2 implies rows.contains(
            row_for(#[trigger] items[i]),
        ) by {
            if i < items.len() - 1 {
                assert(init[i] == items[i]);
                let j = choose|j: int| 0 <= j < rest.len() && rest[j] == row_for(init[i]);
                assert(rows[j] == rest[j]);
            } else {
                assert(rows.last() == row_for(items[i]));
            }
        }
    }
}

/// An apply run works only on items of rows that are selected and not done.
pub proof fn lemma_apply_targets_are_selected(rows: Seq<RowView>)
    ensures
        forall|i: int|
            0 <= i < apply_targets(rows).len() ==> exists|j: int|
                0 <= j < rows.len() && rows[j].0.0 == #[trigger] apply_targets(rows)[i]
                    && rows[j].2 && !(rows[j].3 is Done),
    decreases rows.len(),
{
    if rows.len() > 0 {
        let init = rows.drop_last();
        lemma_apply_targets_are_selected(init);
        let rest = apply_targets(init);
        let t = apply_targets(rows);
        assert forall|i: int| 0 <= i < t.len() implies exists|j: int|
            0 <= j < rows.len() && rows[j].0.0 == #[trigger] t[i] && rows[j].2 && !(
            rows[j].3 is Done) by {
            if i < rest.len() {
                assert(t[i] == rest[i]);
                let j = choose|j: int|
                    0 <= j < init.len() && init[j].0.0 == rest[i] && init[j].2 && !(
                    init[j].3 is Done);
                assert(rows[j] == init[j]);
            } else {
                assert(rows[rows.len() - 1] == rows.last());
            }
        }
    }
}

} // verus!
