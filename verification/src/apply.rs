//! Applying the fix to one item: what to write back, given the item's
//! metadata as read just before the write, and the tally of a run.

use crate::json::{get_of, JsonValue, JsonView};
use crate::replace::{fix, fixed_text};
use crate::session::{Msg, RowState, RowStateView};
use vstd::prelude::*;

verus! {

/// A description part after the fix: strings are rewritten, anything else
/// is kept.
pub open spec fn fixed_part(part: JsonView) -> JsonView {
    match part {
        JsonView::Str(s) => JsonView::Str(fixed_text(s)),
        other => other,
    }
}

/// The fixed description. A description is normally a string, but IA allows
/// a list of strings; anything else is not text.
pub open spec fn fixed_description(current: JsonView) -> Option<JsonView> {
    match current {
        JsonView::Str(s) => Some(JsonView::Str(fixed_text(s))),
        JsonView::Array(parts) => Some(JsonView::Array(parts.map_values(|p: JsonView| fixed_part(p)))),
        _ => None,
    }
}

/// What to write for an item, from its fresh metadata: an error, nothing
/// (the live description no longer needs the fix), or the new description.
pub open spec fn plan_spec(meta: JsonView) -> Result<Option<JsonView>, Seq<char>> {
    match get_of(meta.get("metadata"@), "description"@) {
        None => Err("item has no description"@),
        Some(current) => match fixed_description(current) {
            None => Err("description is not text"@),
            Some(fixed) => if fixed == current {
                Ok(None)
            } else {
                Ok(Some(fixed))
            },
        },
    }
}

pub open spec fn plan_view(res: Result<Option<JsonValue>, String>) -> Result<Option<JsonView>, Seq<char>> {
    match res {
        Ok(Some(v)) => Ok(Some(v@)),
        Ok(None) => Ok(None),
        Err(e) => Err(e@),
    }
}

/// Decide the write for one item from the metadata read fresh before it, so
/// that a stale scan never overwrites an edit made in the meantime.
pub fn plan_update(meta: &JsonValue) -> (res: Result<Option<JsonValue>, String>)
    ensures
        plan_view(res) == plan_spec(meta@),
{
    let current = match meta.get("metadata") {
        Some(m) => m.get("description"),
        None => None,
    };
    let current = match current {
        Some(c) => c,
        None => {
            return Err(String::from_str("item has no description"));
        },
    };
    match current {
        JsonValue::String(s) => {
            let fixed = fix(s.as_str());
            if fixed == *s {
                Ok(None)
            } else {
                let res = JsonValue::String(fixed);
                Ok(Some(res))
            }
        },
        JsonValue::Array(parts) => {
            let ghost pv = match current@ {
                JsonView::Array(a) => a,
                _ => Seq::empty(),
            };
            let mut out: Vec<JsonValue> = Vec::new();
            let mut changed = false;
            let mut i: usize = 0;
            while i < parts.len()
                invariant
                    i <= parts.len(),
                    pv.len() == parts@.len(),
                    forall|j: int| 0 <= j < parts@.len() ==> #[trigger] pv[j] == parts@[j]@,
                    out@.len() == i,
                    forall|j: int| 0 <= j < i ==> (#[trigger] out@[j])@ == fixed_part(pv[j]),
                    changed == exists|j: int| 0 <= j < i && fixed_part(pv[j]) != pv[j],
                decreases parts.len() - i,
            {
                let part = match &parts[i] {
                    JsonValue::String(s) => {
                        let fixed = fix(s.as_str());
                        if !(fixed == *s) {
                            changed = true;
                        }
                        JsonValue::String(fixed)
                    },
                    other => other.copy(),
                };
                out.push(part);
                proof {
                    if changed {
                        if fixed_part(pv[i as int]) != pv[i as int] {
                            assert(exists|j: int|
                                0 <= j < i + 1 && fixed_part(pv[j]) != pv[j]);
                        }
                    }
                }
                i += 1;
            }
            let ghost fixed_parts = pv.map_values(|p: JsonView| fixed_part(p));
            if changed {
                let res = JsonValue::Array(out);
                assert(res@ == JsonView::Array(fixed_parts)) by {
                    if let JsonView::Array(a) = res@ {
                        assert(a =~= fixed_parts);
                    }
                }
                assert(fixed_parts != pv) by {
                    let j = choose|j: int| 0 <= j < parts@.len() && fixed_part(pv[j]) != pv[j];
                    assert(fixed_parts[j] != pv[j]);
                }
                Ok(Some(res))
            } else {
                assert(fixed_parts =~= pv);
                Ok(None)
            }
        },
        _ => Err(String::from_str("description is not text")),
    }
}

/// A write is planned only when the fix changes the live description, and
/// what is written is the fix of it; a description the fix leaves as it is
/// (one already using redump.info) is skipped.
pub proof fn lemma_plan_writes_only_changes(meta: JsonView)
    ensures
        plan_spec(meta) matches Ok(Some(f)) ==> get_of(meta.get("metadata"@), "description"@)
            matches Some(current) && fixed_description(current) == Some(f) && f != current,
        get_of(meta.get("metadata"@), "description"@) matches Some(current)
            && fixed_description(current) == Some(current) ==> plan_spec(meta) == Ok::<
            Option<JsonView>,
            Seq<char>,
        >(None),
{
}

/// A list description is rewritten part by part, wherever a part stands: the
/// write has as many parts, each string part fixed and every other part kept;
/// nothing is written when the fix changes no part.
pub proof fn lemma_plan_fixes_every_part(meta: JsonView, parts: Seq<JsonView>)
    requires
        get_of(meta.get("metadata"@), "description"@) == Some(JsonView::Array(parts)),
    ensures
        plan_spec(meta) is Ok,
        (plan_spec(meta) == Ok::<Option<JsonView>, Seq<char>>(None)) == (forall|i: int|
            0 <= i < parts.len() ==> (#[trigger] parts[i] matches JsonView::Str(s) ==> fixed_text(
                s,
            ) == s)),
        plan_spec(meta) matches Ok(Some(w)) ==> (w matches JsonView::Array(q) && q.len()
            == parts.len() && forall|i: int|
            0 <= i < parts.len() ==> #[trigger] q[i] == match parts[i] {
                JsonView::Str(s) => JsonView::Str(fixed_text(s)),
                p => p,
            }),
{
    let fixed = parts.map_values(|p: JsonView| fixed_part(p));
    if forall|i: int|
        0 <= i < parts.len() ==> (#[trigger] parts[i] matches JsonView::Str(s) ==> fixed_text(s)
            == s) {
        assert(fixed =~= parts) by {
            assert forall|i: int| 0 <= i < parts.len() implies fixed[i] == parts[i] by {
                assert(parts[i] matches JsonView::Str(s) ==> fixed_text(s) == s);
            }
        }
    } else {
        let i = choose|i: int|
            0 <= i < parts.len() && !(#[trigger] parts[i] matches JsonView::Str(s) ==> fixed_text(
                s,
            ) == s);
        assert(fixed[i] != parts[i]);
        assert(JsonView::Array(fixed) != JsonView::Array(parts));
    }
}

/// A text description is written as its fix, and only when the fix changes it.
pub proof fn lemma_plan_fixes_text(meta: JsonView, text: Seq<char>)
    requires
        get_of(meta.get("metadata"@), "description"@) == Some(JsonView::Str(text)),
    ensures
        plan_spec(meta) == if fixed_text(text) == text {
            Ok::<Option<JsonView>, Seq<char>>(None)
        } else {
            Ok(Some(JsonView::Str(fixed_text(text))))
        },
{
}

/// How many items a run updated and how many failed.
pub struct ApplyTally {
    pub ok: usize,
    pub failed: usize,
}

impl ApplyTally {
    pub fn new() -> (res: ApplyTally)
        ensures
            res.ok == 0 && res.failed == 0,
    {
        ApplyTally { ok: 0, failed: 0 }
    }

    /// Count the outcome for one item (`Ok(true)`: written, `Ok(false)`: the
    /// live description no longer needed the fix) and give the row's state.
    pub fn record(&mut self, outcome: Result<bool, String>) -> (state: RowState)
        requires
            outcome matches Ok(true) ==> old(self).ok < usize::MAX,
            outcome is Err ==> old(self).failed < usize::MAX,
        ensures
            match outcome {
                Ok(true) => state@ == RowStateView::Done && final(self).ok == old(self).ok + 1
                    && final(self).failed == old(self).failed,
                Ok(false) => state@ == RowStateView::Skipped("already up to date"@)
                    && final(self).ok == old(self).ok && final(self).failed == old(self).failed,
                Err(e) => state@ == RowStateView::Failed(e@) && final(self).ok == old(self).ok
                    && final(self).failed == old(self).failed + 1,
            },
    {
        match outcome {
            Ok(true) => {
                self.ok = self.ok + 1;
                RowState::Done
            },
            Ok(false) => RowState::Skipped(String::from_str("already up to date")),
            Err(e) => {
                self.failed = self.failed + 1;
                RowState::Failed(e)
            },
        }
    }

    /// The report that ends the run.
    pub fn finish(&self) -> (msg: Msg)
        ensures
            msg matches Msg::ApplyDone { ok, failed } && ok == self.ok && failed == self.failed,
    {
        Msg::ApplyDone { ok: self.ok, failed: self.failed }
    }
}

} // verus!
