//! A short before/after window around the first change, for the preview.
//!
//! The window is centred on the first match that `fix` rewrites. A text with
//! nothing to rewrite is shown around its first `redump.` (in any case), or
//! from its start when there is none. Positions are counted in characters,
//! so a window can be cut from any text.

use vstd::prelude::*;
use crate::replace::{
    equals_ignoring_case, first_rewrite, fixed_text, lemma_first_change, pattern_at,
    replacement_at, DomainRegex,
};

verus! {

/// Characters of context kept after the start of the change; one more is
/// kept before it.
pub const PAD: usize = 45;

pub open spec fn name_lower() -> Seq<char> {
    seq!['r', 'e', 'd', 'u', 'm', 'p', '.']
}

pub open spec fn name_upper() -> Seq<char> {
    seq!['R', 'E', 'D', 'U', 'M', 'P', '.']
}

/// `redump.` in any ASCII case starts at `i`.
pub open spec fn name_at(t: Seq<char>, i: int) -> bool {
    0 <= i && i + 7 <= t.len() && equals_ignoring_case(
        t.subrange(i, i + 7),
        name_lower(),
        name_upper(),
    )
}

/// The first position, at `i` or after, where `redump.` starts.
pub open spec fn first_name_from(t: Seq<char>, i: int) -> Option<int>
    decreases t.len() - i,
{
    if i < 0 || t.len() < i + 7 {
        None
    } else if name_at(t, i) {
        Some(i)
    } else {
        first_name_from(t, i + 1)
    }
}

/// Where the window of `t` is centred: the first match that `fix` rewrites,
/// else the first `redump.`; `None` when there is neither.
pub open spec fn anchor(t: Seq<char>) -> Option<int> {
    if first_rewrite(t) is Some {
        first_rewrite(t)
    } else {
        first_name_from(t, 0)
    }
}

pub open spec fn window_start(p: int) -> int {
    if p > PAD {
        p - PAD - 1
    } else {
        0
    }
}

pub open spec fn window_end(p: int, n: int) -> int {
    if n - p > PAD {
        p + PAD
    } else {
        n
    }
}

pub open spec fn ellipsis_if(b: bool) -> Seq<char> {
    if b {
        seq!['.', '.', '.']
    } else {
        Seq::empty()
    }
}

/// The characters around position `p`: `PAD + 1` before it and `PAD` from
/// it on, with `...` where text was cut off.
pub open spec fn window(t: Seq<char>, p: int) -> Seq<char> {
    let s = window_start(p);
    let e = window_end(p, t.len() as int);
    ellipsis_if(s > 0) + t.subrange(s, e) + ellipsis_if(e < t.len())
}

/// The first `2 * PAD` characters.
pub open spec fn head(t: Seq<char>) -> Seq<char> {
    t.take(
        if t.len() < 2 * PAD {
            t.len() as int
        } else {
            2 * PAD
        },
    )
}

/// The window around `at`, or the head of the text.
pub open spec fn shown(t: Seq<char>, at: Option<int>) -> Seq<char> {
    match at {
        Some(p) => window(t, p),
        None => head(t),
    }
}

pub open spec fn snippet_spec(t: Seq<char>) -> Seq<char> {
    shown(t, anchor(t))
}

/// The before and after windows: both at the anchor of `before` (where it
/// lies within `after`), so they show the same place.
pub open spec fn preview_spec(before: Seq<char>, after: Seq<char>) -> (Seq<char>, Seq<char>) {
    let a = anchor(before);
    (
        shown(before, a),
        match a {
            Some(p) => if p <= after.len() {
                window(after, p)
            } else {
                snippet_spec(after)
            },
            None => snippet_spec(after),
        },
    )
}

/// The characters of a text, one per element.
fn chars_of(text: &str) -> (res: Vec<char>)
    ensures
        res@ == text@,
{
    broadcast use vstd::string::axiom_spec_iter;
    let mut v: Vec<char> = Vec::new();
    for c in it: text.chars()
        invariant
            it.seq() == text@,
            v@ == text@.take(it.index() as int),
    {
        v.push(c);
        assert(v@ =~= text@.take(it.index() + 1));
    }
    assert(v@ =~= text@);
    v
}

/// The first `redump.` in any ASCII case.
fn find_name(t: &Vec<char>) -> (res: Option<usize>)
    ensures
        match res {
            Some(i) => first_name_from(t@, 0) == Some(i as int),
            None => first_name_from(t@, 0) is None,
        },
{
    let lower = ['r', 'e', 'd', 'u', 'm', 'p', '.'];
    let upper = ['R', 'E', 'D', 'U', 'M', 'P', '.'];
    assert(lower@ =~= name_lower());
    assert(upper@ =~= name_upper());
    let n = t.len();
    let mut i: usize = 0;
    while i < n && 7 <= n - i
        invariant
            n == t@.len(),
            lower@ == name_lower(),
            upper@ == name_upper(),
            i <= n,
            first_name_from(t@, 0) == first_name_from(t@, i as int),
        decreases n - i,
    {
        let mut j: usize = 0;
        let mut same = true;
        while j < 7 && same
            invariant
                n == t@.len(),
                lower@ == name_lower(),
                upper@ == name_upper(),
                i + 7 <= n,
                j <= 7,
                same == (forall|k: int|
                    0 <= k < j ==> #[trigger] t@[i + k] == name_lower()[k] || t@[i + k]
                        == name_upper()[k]),
            decreases 7 - j,
        {
            let c = t[i + j];
            if c != lower[j] && c != upper[j] {
                same = false;
            }
            j += 1;
        }
        let ghost w = t@.subrange(i as int, i + 7);
        if same {
            assert forall|k: int| 0 <= k < 7 implies #[trigger] w[k] == name_lower()[k] || w[k]
                == name_upper()[k] by {
                assert(w[k] == t@[i + k]);
            }
            assert(name_at(t@, i as int));
            return Some(i);
        }
        assert(!name_at(t@, i as int)) by {
            let k = choose|k: int|
                0 <= k < j && !(#[trigger] t@[i + k] == name_lower()[k] || t@[i + k]
                    == name_upper()[k]);
            assert(w[k] == t@[i + k]);
        }
        i += 1;
    }
    None
}

/// Where the window of `text` is centred.
fn anchor_of(rx: &DomainRegex, text: &str) -> (res: Option<usize>)
    ensures
        match res {
            Some(p) => anchor(text@) == Some(p as int) && p <= text@.len(),
            None => anchor(text@) is None,
        },
{
    if let Some(q) = rx.first_change(text) {
        proof {
            lemma_first_change(text@);
            assert(pattern_at(text@, q as int));
        }
        return Some(q);
    }
    let chars = chars_of(text);
    let found = find_name(&chars);
    proof {
        lemma_first_name_in_range(text@, 0);
    }
    found
}

proof fn lemma_first_name_in_range(t: Seq<char>, i: int)
    ensures
        first_name_from(t, i) matches Some(j) ==> i <= j && j + 7 <= t.len(),
    decreases t.len() - i,
{
    if !(i < 0 || t.len() < i + 7) && !name_at(t, i) {
        lemma_first_name_in_range(t, i + 1);
    }
}

/// The window around `at`, or the head of the text.
fn shown_text(text: &str, at: Option<usize>) -> (res: String)
    requires
        at matches Some(p) ==> p <= text@.len(),
    ensures
        res@ == shown(text@, match at {
            Some(p) => Some(p as int),
            None => None,
        }),
{
    let n = text.unicode_len();
    match at {
        Some(p) => {
            let start = if p > PAD {
                p - PAD - 1
            } else {
                0
            };
            let end = if n - p > PAD {
                p + PAD
            } else {
                n
            };
            let mut out = String::new();
            if start > 0 {
                out.append("...");
            }
            out.append(text.substring_char(start, end));
            if end < n {
                out.append("...");
            }
            proof {
                reveal_strlit("...");
            }
            assert(out@ =~= window(text@, p as int));
            out
        },
        None => {
            let take = if n < 2 * PAD {
                n
            } else {
                2 * PAD
            };
            let h = text.substring_char(0, take);
            assert(h@ =~= head(text@));
            h.to_owned()
        },
    }
}

/// A short window around the first change: the first match that `fix`
/// rewrites, else the first `redump.` in any case, with `PAD + 1`
/// characters before it and `PAD` from it on; the first `2 * PAD`
/// characters when there is neither.
pub fn snippet(text: &str) -> (res: String)
    ensures
        res@ == snippet_spec(text@),
{
    snippet_in(&DomainRegex::new(), text)
}

/// `snippet`, with the domain pattern already compiled.
fn snippet_in(rx: &DomainRegex, text: &str) -> (res: String)
    ensures
        res@ == snippet_spec(text@),
{
    let at = anchor_of(rx, text);
    shown_text(text, at)
}

/// The before and after windows of a change, both at the first change of
/// `before`, so that they show the same place of the two texts. The domain
/// pattern is compiled once by the caller, for all the previews it shows.
pub fn preview(rx: &DomainRegex, before: &str, after: &str) -> (res: (String, String))
    ensures
        res.0@ == preview_spec(before@, after@).0,
        res.1@ == preview_spec(before@, after@).1,
{
    let at = anchor_of(rx, before);
    let old_part = shown_text(before, at);
    let n = after.unicode_len();
    let new_part = match at {
        Some(p) => if p <= n {
            shown_text(after, Some(p))
        } else {
            snippet_in(rx, after)
        },
        None => snippet_in(rx, after),
    };
    (old_part, new_part)
}

/// In a preview of a fix, the after window is centred on the replacement:
/// it starts at the same position as the match it replaces, and everything
/// before it is unchanged.
pub proof fn lemma_preview_shows_the_change(before: Seq<char>)
    ensures
        first_rewrite(before) is Some ==> ({
            let p = anchor(before)->0;
            let after = fixed_text(before);
            &&& p <= after.len()
            &&& after.take(p) == before.take(p)
            &&& after.subrange(p, p + 11) == replacement_at(before, p)
            &&& window_start(p) <= p
            &&& p + 10 <= window_end(p, before.len() as int)
        }),
{
    lemma_first_change(before);
    if first_rewrite(before) is None {
        return;
    }
    let p = anchor(before)->0;
    let after = fixed_text(before);
    assert(replacement_at(before, p).len() == 11);
    assert(after.subrange(p, p + 11) =~= replacement_at(before, p));
    assert(after.take(p) =~= before.take(p));
}

} // verus!
