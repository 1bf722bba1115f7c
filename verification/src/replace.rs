//! The one baked-in transformation: redump.org -> redump.info.
//!
//! The `regex` crate finds the domain; which text it finds is stated here
//! exactly (`occurrences`), and what is done with each match (keep it, or
//! rewrite its top-level domain preserving case) is verified.

use vstd::prelude::*;

verus! {

/// Matches the `redump.org` domain anywhere it appears - bare, in prose, or
/// inside a URL. The trailing `\b` keeps `redump.organization` intact.
pub const DOMAIN_PATTERN: &'static str = "(?i)(redump)\\.(org)\\b";

/// `regex::Regex`, carried through opaquely.
#[verifier::external_type_specification]
#[verifier::external_body]
pub struct ExRegex(regex::Regex);

/// `regex::Error`, carried through opaquely.
#[verifier::external_type_specification]
#[verifier::external_body]
pub struct ExRegexError(regex::Error);

/// Whether a character outside ASCII is a word character (Unicode `\w`, as
/// the regex crate's Unicode-aware `\b` uses it).
pub uninterp spec fn unicode_word(c: char) -> bool;

/// Whether `char::is_alphanumeric` holds of a character outside ASCII.
pub uninterp spec fn unicode_alphanumeric(c: char) -> bool;

/// Whether `char::is_uppercase` holds of a character outside ASCII.
pub uninterp spec fn unicode_uppercase(c: char) -> bool;

pub open spec fn is_ascii_char(c: char) -> bool {
    (c as u32) < 128
}

pub open spec fn ascii_upper(c: char) -> bool {
    'A' <= c && c <= 'Z'
}

pub open spec fn ascii_lower(c: char) -> bool {
    'a' <= c && c <= 'z'
}

pub open spec fn ascii_digit(c: char) -> bool {
    '0' <= c && c <= '9'
}

/// A word character for `\b`: in ASCII the letters, digits and `_`.
pub open spec fn word_char(c: char) -> bool {
    if is_ascii_char(c) {
        ascii_upper(c) || ascii_lower(c) || ascii_digit(c) || c == '_'
    } else {
        unicode_word(c)
    }
}

/// `char::is_alphanumeric`: in ASCII the letters and digits.
pub open spec fn alphanumeric(c: char) -> bool {
    if is_ascii_char(c) {
        ascii_upper(c) || ascii_lower(c) || ascii_digit(c)
    } else {
        unicode_alphanumeric(c)
    }
}

/// `char::is_uppercase`: in ASCII the capital letters.
pub open spec fn uppercase(c: char) -> bool {
    if is_ascii_char(c) {
        ascii_upper(c)
    } else {
        unicode_uppercase(c)
    }
}

/// `s` is `lower` with any letters in either ASCII case (`upper` being
/// `lower` in upper case).
pub open spec fn equals_ignoring_case(s: Seq<char>, lower: Seq<char>, upper: Seq<char>) -> bool {
    &&& s.len() == lower.len()
    &&& forall|i: int| 0 <= i < s.len() ==> #[trigger] s[i] == lower[i] || s[i] == upper[i]
}

pub open spec fn domain_lower() -> Seq<char> {
    seq!['r', 'e', 'd', 'u', 'm', 'p', '.', 'o', 'r', 'g']
}

pub open spec fn domain_upper() -> Seq<char> {
    seq!['R', 'E', 'D', 'U', 'M', 'P', '.', 'O', 'R', 'G']
}

/// `DOMAIN_PATTERN` matches at character position `i`: `redump.org` in any
/// ASCII case (the pattern is case-insensitive, and these letters have no
/// case variants outside ASCII), followed by the end of the text or by a
/// character that is not a word character.
pub open spec fn pattern_at(h: Seq<char>, i: int) -> bool {
    &&& 0 <= i && i + 10 <= h.len()
    &&& equals_ignoring_case(h.subrange(i, i + 10), domain_lower(), domain_upper())
    &&& (i + 10 == h.len() || !word_char(h[i + 10]))
}

/// The start positions of the successive matches, searching from `i`: each
/// search resumes where the previous match ended.
pub open spec fn occurrences_from(h: Seq<char>, i: int) -> Seq<int>
    decreases h.len() - i,
{
    if i < 0 || h.len() < i + 10 {
        Seq::empty()
    } else if pattern_at(h, i) {
        seq![i] + occurrences_from(h, i + 10)
    } else {
        occurrences_from(h, i + 1)
    }
}

/// The start positions of all matches of `DOMAIN_PATTERN` in `h`, in order.
pub open spec fn occurrences(h: Seq<char>) -> Seq<int> {
    occurrences_from(h, 0)
}

/// A match as plain text: (whole match, group 1, group 2).
pub type MatchView = (Seq<char>, Seq<char>, Seq<char>);

/// The match that starts at `p`: the whole, `redump`, and `org`.
pub open spec fn match_at(h: Seq<char>, p: int) -> MatchView {
    (h.subrange(p, p + 10), h.subrange(p, p + 6), h.subrange(p + 7, p + 10))
}

/// The text between match `k - 1` (or the start) and match `k` (or the end).
pub open spec fn gap(h: Seq<char>, occ: Seq<int>, k: int) -> Seq<char> {
    h.subrange(
        if k == 0 {
            0
        } else {
            occ[k - 1] + 10
        },
        if k == occ.len() {
            h.len() as int
        } else {
            occ[k]
        },
    )
}

/// "redump" starts the domain label: it opens the text, or follows a
/// character that is not alphanumeric. This leaves `notredump.org` alone
/// while still matching `www.redump.org`.
pub open spec fn label_start(h: Seq<char>, i: int) -> bool {
    i == 0 || !alphanumeric(h[i - 1])
}

pub open spec fn all_uppercase(s: Seq<char>) -> bool {
    forall|i: int| 0 <= i < s.len() ==> uppercase(#[trigger] s[i])
}

/// The new top-level domain, mirroring the casing of the one it replaces.
pub open spec fn info_for(tld: Seq<char>) -> Seq<char> {
    if all_uppercase(tld) {
        seq!['I', 'N', 'F', 'O']
    } else {
        seq!['i', 'n', 'f', 'o']
    }
}

/// What the match at `i` becomes: `name.info` when it starts the label,
/// else itself.
pub open spec fn replacement_at(h: Seq<char>, i: int) -> Seq<char> {
    if label_start(h, i) {
        h.subrange(i, i + 6) + seq!['.'] + info_for(h.subrange(i + 7, i + 10))
    } else {
        h.subrange(i, i + 10)
    }
}

/// The rewrite of `h` from position `i` on, the search being at `i`.
pub open spec fn rewrite_from(h: Seq<char>, i: int) -> Seq<char>
    decreases h.len() - i,
{
    if i < 0 || h.len() < i {
        Seq::empty()
    } else if h.len() < i + 10 {
        h.subrange(i, h.len() as int)
    } else if pattern_at(h, i) {
        replacement_at(h, i) + rewrite_from(h, i + 10)
    } else {
        seq![h[i]] + rewrite_from(h, i + 1)
    }
}

/// The position of the first match, from `i` on, that is rewritten.
pub open spec fn first_rewrite_from(h: Seq<char>, i: int) -> Option<int>
    decreases h.len() - i,
{
    if i < 0 || h.len() < i + 10 {
        None
    } else if pattern_at(h, i) {
        if label_start(h, i) {
            Some(i)
        } else {
            first_rewrite_from(h, i + 10)
        }
    } else {
        first_rewrite_from(h, i + 1)
    }
}

/// Every `redump.org` that starts a domain label rewritten to `redump.info`.
pub open spec fn fixed_text(h: Seq<char>) -> Seq<char> {
    rewrite_from(h, 0)
}

/// The character position of the first match that `fixed_text` rewrites.
pub open spec fn first_rewrite(h: Seq<char>) -> Option<int> {
    first_rewrite_from(h, 0)
}

/// Whether `fix` would change the text.
pub open spec fn needs_fix_spec(text: Seq<char>) -> bool {
    fixed_text(text) != text
}

/// Every match is a lookalike such as `notredump.org`: none starts a label.
pub open spec fn only_lookalikes(h: Seq<char>) -> bool {
    forall|j: int| pattern_at(h, j) ==> !label_start(h, j)
}

/// A compiled regex together with the pattern it was compiled from.
struct CompiledPattern {
    regex: regex::Regex,
    source: Ghost<Seq<char>>,
}

/// `regex::Regex::new`, with the pattern recorded beside the result.
/// Claimed: the value holds the regex compiled from `pattern`, and
/// `DOMAIN_PATTERN` is accepted (its syntax is valid and its compiled size is
/// far below the crate's default limit, the only reasons `new` gives for an
/// error); nothing is claimed of which other patterns are accepted.
#[verifier::external_body]
fn compile_pattern(pattern: &str) -> (res: Result<CompiledPattern, regex::Error>)
    ensures
        pattern@ == DOMAIN_PATTERN@ ==> res is Ok,
        res matches Ok(c) ==> c.source@ == pattern@,
{
    match regex::Regex::new(pattern) {
        Ok(regex) => Ok(CompiledPattern { regex, source: Ghost(pattern@) }),
        Err(e) => Err(e),
    }
}

/// `char::is_alphanumeric`. Claimed: the result is `alphanumeric` of the
/// character (in ASCII exactly the letters and digits).
#[verifier::external_body]
fn is_alphanumeric(c: char) -> (res: bool)
    ensures
        res == alphanumeric(c),
        !is_ascii_char(c) ==> res == unicode_alphanumeric(c),
{
    c.is_alphanumeric()
}

/// `char::is_uppercase`. Claimed: the result is `uppercase` of the
/// character (in ASCII exactly `A` to `Z`).
#[verifier::external_body]
fn is_uppercase(c: char) -> (res: bool)
    ensures
        res == uppercase(c),
        !is_ascii_char(c) ==> res == unicode_uppercase(c),
{
    c.is_uppercase()
}

/// The compiled `DOMAIN_PATTERN`; no other pattern can be put in it.
pub struct DomainRegex {
    pattern: CompiledPattern,
}

impl DomainRegex {
    /// The pattern the regex was compiled from.
    pub closed spec fn source(&self) -> Seq<char> {
        self.pattern.source@
    }

    #[verifier::type_invariant]
    spec fn compiled_from_domain_pattern(&self) -> bool {
        self.pattern.source@ == DOMAIN_PATTERN@
    }
}

/// One match of the domain pattern: the whole match and its two groups.
pub struct DomainMatch {
    pub whole: String,
    pub name: String,
    pub tld: String,
}

impl View for DomainMatch {
    type V = MatchView;

    open spec fn view(&self) -> MatchView {
        (self.whole@, self.name@, self.tld@)
    }
}

/// `regex::Regex::captures_iter` on a regex compiled from `DOMAIN_PATTERN`, each match converted to
/// a `DomainMatch` (group 0, 1 and 2 as owned strings). Claimed: one entry per
/// match, in order, each being the text at the match's position; both groups
/// take part in every match, so the indexing does not panic. A match is
/// followed by the end of the text or by a character that is not a word
/// character (the `\b`).
#[verifier::external_body]
fn domain_matches(rx: &CompiledPattern, haystack: &str) -> (res: Vec<DomainMatch>)
    requires
        rx.source@ == DOMAIN_PATTERN@,
    ensures
        res@.len() == occurrences(haystack@).len(),
        forall|k: int|
            0 <= k < res@.len() ==> #[trigger] res@[k]@ == match_at(
                haystack@,
                occurrences(haystack@)[k],
            ),
        forall|k: int|
            #![trigger res@[k]]
            0 <= k < res@.len() && occurrences(haystack@)[k] + 10 < haystack@.len() ==> {
                let next = haystack@[occurrences(haystack@)[k] + 10];
                !word_char(next) && (!is_ascii_char(next) ==> !unicode_word(next))
            },
{
    let mut found = Vec::new();
    for c in rx.regex.captures_iter(haystack) {
        found.push(DomainMatch { whole: c[0].to_owned(), name: c[1].to_owned(), tld: c[2].to_owned() });
    }
    found
}

/// `regex::Regex::split` on a regex compiled from `DOMAIN_PATTERN`, each piece converted to an
/// owned string. Claimed: the pieces are the texts between successive
/// matches, the first one before the first match and the last one after the
/// last match (so one more piece than there are matches).
#[verifier::external_body]
fn domain_gaps(rx: &CompiledPattern, haystack: &str) -> (res: Vec<String>)
    requires
        rx.source@ == DOMAIN_PATTERN@,
    ensures
        res@.len() == occurrences(haystack@).len() + 1,
        forall|k: int|
            0 <= k < res@.len() ==> #[trigger] res@[k]@ == gap(
                haystack@,
                occurrences(haystack@),
                k,
            ),
{
    let mut pieces = Vec::new();
    for piece in rx.regex.split(haystack) {
        pieces.push(piece.to_owned());
    }
    pieces
}

/// `regex::Regex::is_match` on a regex compiled from `DOMAIN_PATTERN`. Claimed: true exactly when
/// there is a match anywhere.
#[verifier::external_body]
fn domain_is_match(rx: &CompiledPattern, haystack: &str) -> (res: bool)
    requires
        rx.source@ == DOMAIN_PATTERN@,
    ensures
        res == (occurrences(haystack@).len() > 0),
{
    rx.regex.is_match(haystack)
}

/// True when every character of `s` is uppercase (so also for `""`).
fn all_chars_uppercase(s: &str) -> (res: bool)
    ensures
        res == all_uppercase(s@),
{
    let n = s.unicode_len();
    let mut i: usize = 0;
    while i < n
        invariant
            n == s@.len(),
            i <= n,
            forall|j: int| 0 <= j < i ==> uppercase(#[trigger] s@[j]),
        decreases n - i,
    {
        if !is_uppercase(s.get_char(i)) {
            return false;
        }
        i += 1;
    }
    true
}

/// From `j`, the search skips text up to the next match `p`, which it
/// finds, and copies that text unchanged.
proof fn lemma_gap(h: Seq<char>, j: int)
    requires
        0 <= j,
        occurrences_from(h, j).len() > 0,
    ensures
        j <= occurrences_from(h, j)[0],
        pattern_at(h, occurrences_from(h, j)[0]),
        rewrite_from(h, j) == h.subrange(j, occurrences_from(h, j)[0]) + rewrite_from(
            h,
            occurrences_from(h, j)[0],
        ),
        occurrences_from(h, occurrences_from(h, j)[0]) == occurrences_from(h, j),
        first_rewrite_from(h, j) == first_rewrite_from(h, occurrences_from(h, j)[0]),
    decreases h.len() - j,
{
    let p = occurrences_from(h, j)[0];
    if pattern_at(h, j) {
        assert(h.subrange(j, j) =~= Seq::<char>::empty());
        assert(rewrite_from(h, j) =~= h.subrange(j, j) + rewrite_from(h, j));
    } else {
        lemma_gap(h, j + 1);
        assert(h.subrange(j, p) =~= seq![h[j]] + h.subrange(j + 1, p));
        assert(rewrite_from(h, j) =~= h.subrange(j, p) + rewrite_from(h, p));
    }
}

/// With no match left from `j`, the rest is copied unchanged.
proof fn lemma_tail(h: Seq<char>, j: int)
    requires
        0 <= j <= h.len(),
        occurrences_from(h, j).len() == 0,
    ensures
        rewrite_from(h, j) == h.subrange(j, h.len() as int),
        first_rewrite_from(h, j) is None,
    decreases h.len() - j,
{
    if h.len() >= j + 10 {
        lemma_tail(h, j + 1);
        assert(h.subrange(j, h.len() as int) =~= seq![h[j]] + h.subrange(j + 1, h.len() as int));
    }
}


/// What a match of the pattern looks like, character by character.
proof fn lemma_pattern_chars(s: Seq<char>, j: int)
    requires
        pattern_at(s, j),
    ensures
        s[j] == 'r' || s[j] == 'R',
        s[j + 1] == 'e' || s[j + 1] == 'E',
        s[j + 2] == 'd' || s[j + 2] == 'D',
        s[j + 3] == 'u' || s[j + 3] == 'U',
        s[j + 4] == 'm' || s[j + 4] == 'M',
        s[j + 5] == 'p' || s[j + 5] == 'P',
        s[j + 6] == '.',
        s[j + 7] == 'o' || s[j + 7] == 'O',
        s[j + 8] == 'r' || s[j + 8] == 'R',
        s[j + 9] == 'g' || s[j + 9] == 'G',
        j + 10 < s.len() ==> !word_char(s[j + 10]),
{
    let w = s.subrange(j, j + 10);
    assert(w[0] == s[j] && w[1] == s[j + 1] && w[2] == s[j + 2] && w[3] == s[j + 3]);
    assert(w[4] == s[j + 4] && w[5] == s[j + 5] && w[6] == s[j + 6] && w[7] == s[j + 7]);
    assert(w[8] == s[j + 8] && w[9] == s[j + 9]);
}

/// Two matches never overlap: `redump.org` cannot start inside another one.
proof fn lemma_no_overlap(h: Seq<char>, i: int, j: int)
    requires
        pattern_at(h, i),
        pattern_at(h, j),
        i < j,
    ensures
        i + 10 <= j,
{
    lemma_pattern_chars(h, i);
    lemma_pattern_chars(h, j);
}

/// Whether the pattern matches in `a + b` past `a` is decided by `b` alone.
proof fn lemma_pattern_shift(a: Seq<char>, b: Seq<char>, j: int)
    requires
        j >= a.len(),
    ensures
        pattern_at(a + b, j) == pattern_at(b, j - a.len()),
{
    let k = j - a.len();
    if j + 10 <= (a + b).len() {
        assert((a + b).subrange(j, j + 10) =~= b.subrange(k, k + 10));
    }
}

/// The rewrite is never shorter than the text it rewrites.
proof fn lemma_rewrite_not_shorter(h: Seq<char>, i: int)
    requires
        0 <= i <= h.len(),
    ensures
        rewrite_from(h, i).len() >= h.len() - i,
    decreases h.len() - i,
{
    if h.len() >= i + 10 {
        if pattern_at(h, i) {
            lemma_rewrite_not_shorter(h, i + 10);
        } else {
            lemma_rewrite_not_shorter(h, i + 1);
        }
    }
}

/// Up to the first match that is rewritten, the text is copied unchanged;
/// with none, all of it is.
proof fn lemma_first_rewrite_split(h: Seq<char>, i: int)
    requires
        0 <= i <= h.len(),
    ensures
        match first_rewrite_from(h, i) {
            Some(q) => {
                &&& i <= q
                &&& pattern_at(h, q)
                &&& label_start(h, q)
                &&& rewrite_from(h, i) == h.subrange(i, q) + replacement_at(h, q) + rewrite_from(
                    h,
                    q + 10,
                )
            },
            None => rewrite_from(h, i) == h.subrange(i, h.len() as int),
        },
    decreases h.len() - i,
{
    if h.len() >= i + 10 {
        if pattern_at(h, i) {
            if !label_start(h, i) {
                lemma_first_rewrite_split(h, i + 10);
                match first_rewrite_from(h, i + 10) {
                    Some(q) => {
                        assert(h.subrange(i, q) =~= h.subrange(i, i + 10) + h.subrange(i + 10, q));
                    },
                    None => {
                        assert(h.subrange(i, h.len() as int) =~= h.subrange(i, i + 10)
                            + h.subrange(i + 10, h.len() as int));
                    },
                }
            } else {
                assert(h.subrange(i, i) =~= Seq::<char>::empty());
            }
        } else {
            lemma_first_rewrite_split(h, i + 1);
            match first_rewrite_from(h, i + 1) {
                Some(q) => {
                    assert(h.subrange(i, q) =~= seq![h[i]] + h.subrange(i + 1, q));
                },
                None => {
                    assert(h.subrange(i, h.len() as int) =~= seq![h[i]] + h.subrange(
                        i + 1,
                        h.len() as int,
                    ));
                },
            }
        }
    }
}

/// The search reaches every match that starts a label.
proof fn lemma_rewrite_found(h: Seq<char>, i: int, j: int)
    requires
        0 <= i <= j,
        pattern_at(h, j),
        label_start(h, j),
    ensures
        first_rewrite_from(h, i) is Some,
    decreases j - i,
{
    if i < j {
        if pattern_at(h, i) {
            lemma_no_overlap(h, i, j);
            if !label_start(h, i) {
                lemma_rewrite_found(h, i + 10, j);
            }
        } else {
            lemma_rewrite_found(h, i + 1, j);
        }
    }
}

/// The rewrite leaves the text as it is exactly when every match is a
/// lookalike (such as `notredump.org`): any match that starts a domain label
/// is changed, and lookalikes are kept.
pub proof fn lemma_unchanged_iff_lookalikes(h: Seq<char>)
    ensures
        (fixed_text(h) == h) == only_lookalikes(h),
        (first_rewrite(h) is None) == only_lookalikes(h),
{
    lemma_first_rewrite_split(h, 0);
    assert(h.subrange(0, h.len() as int) =~= h);
    if !only_lookalikes(h) {
        let j = choose|j: int| pattern_at(h, j) && label_start(h, j);
        lemma_rewrite_found(h, 0, j);
    }
    if let Some(q) = first_rewrite(h) {
        lemma_rewrite_not_shorter(h, q + 10);
        assert(fixed_text(h).len() > h.len());
    }
}

/// The first change: before the first match that is rewritten, the rewrite
/// is the text itself, and at it stands the match's replacement.
pub proof fn lemma_first_change(h: Seq<char>)
    ensures
        match first_rewrite(h) {
            Some(q) => {
                &&& pattern_at(h, q)
                &&& label_start(h, q)
                &&& fixed_text(h) == h.take(q) + replacement_at(h, q) + rewrite_from(h, q + 10)
            },
            None => fixed_text(h) == h,
        },
{
    lemma_first_rewrite_split(h, 0);
    assert(h.subrange(0, h.len() as int) =~= h);
    if let Some(q) = first_rewrite(h) {
        assert(h.subrange(0, q) =~= h.take(q));
    }
}

/// In the rewrite of `h` from `i`, every match is a lookalike, except one at
/// its very start that is a lookalike in `h` itself.
proof fn lemma_rewrite_has_no_label_match(h: Seq<char>, i: int)
    requires
        0 <= i <= h.len(),
    ensures
        forall|j: int|
            #![trigger pattern_at(rewrite_from(h, i), j)]
            pattern_at(rewrite_from(h, i), j) ==> (0 < j && alphanumeric(
                rewrite_from(h, i)[j - 1],
            )) || (j == 0 && pattern_at(h, i) && !label_start(h, i)),
    decreases h.len() - i,
{
    let g = rewrite_from(h, i);
    if h.len() < i + 10 {
        assert forall|j: int| pattern_at(g, j) implies false by {}
    } else if pattern_at(h, i) {
        let rest = rewrite_from(h, i + 10);
        lemma_rewrite_has_no_label_match(h, i + 10);
        lemma_pattern_chars(h, i);
        let r = replacement_at(h, i);
        assert(g == r + rest);
        assert forall|j: int| pattern_at(g, j) implies (0 < j && alphanumeric(g[j - 1])) || (j
            == 0 && pattern_at(h, i) && !label_start(h, i)) by {
            lemma_pattern_chars(g, j);
            if j >= r.len() {
                lemma_pattern_shift(r, rest, j);
                let k = j - r.len();
                assert(pattern_at(rest, k));
                if k == 0 {
                    lemma_pattern_chars(h, i + 10);
                    if label_start(h, i) {
                        assert(word_char(h[i + 10]));
                    }
                }
                assert(g[j - 1] == if k == 0 {
                    r[r.len() - 1]
                } else {
                    rest[k - 1]
                });
                if !label_start(h, i) && k == 0 {
                    assert(r[9] == h[i + 9]);
                }
            } else if label_start(h, i) {
                assert(r[0] == h[i] && r[1] == h[i + 1] && r[2] == h[i + 2] && r[3] == h[i + 3]);
                assert(r[4] == h[i + 4] && r[5] == h[i + 5] && r[6] == '.');
                assert(r[7] == 'i' || r[7] == 'I');
                assert(r[8] == 'n' || r[8] == 'N');
                assert(r[9] == 'f' || r[9] == 'F');
                assert(r[10] == 'o' || r[10] == 'O');
                assert(false);
            } else {
                assert(r =~= h.subrange(i, i + 10));
                assert(r[j] == h[i + j]);
                if j > 0 {
                    assert(r[j + 1] == h[i + j + 1] || j == 9);
                    assert(false);
                }
            }
        }
    } else {
        let rest = rewrite_from(h, i + 1);
        lemma_rewrite_has_no_label_match(h, i + 1);
        let one = seq![h[i]];
        assert(g == one + rest);
        assert forall|j: int| pattern_at(g, j) implies (0 < j && alphanumeric(g[j - 1])) || (j
            == 0 && pattern_at(h, i) && !label_start(h, i)) by {
            if j >= 1 {
                lemma_pattern_shift(one, rest, j);
                assert(pattern_at(rest, j - 1));
                assert(g[j - 1] == if j == 1 {
                    h[i]
                } else {
                    rest[j - 2]
                });
            } else {
                lemma_copied_start(h, i);
                assert(false);
            }
        }
    }
}

/// A match at the start of `a + b`, where `b` starts with `redump` in some
/// case, lies within `a` together with the character after it.
proof fn lemma_match_before_domain(a: Seq<char>, b: Seq<char>)
    requires
        pattern_at(a + b, 0),
        a.len() > 0,
        b.len() >= 2,
        b[0] == 'r' || b[0] == 'R',
        b[1] == 'e' || b[1] == 'E',
    ensures
        a.len() >= 11,
{
    let g = a + b;
    lemma_pattern_chars(g, 0);
    let d = a.len() as int;
    if d <= 10 {
        assert(g[d] == b[0]);
        if d == 8 {
            assert(g[9] == b[1]);
        }
        if d == 10 {
            assert(word_char(g[10]));
        }
    }
}

/// Where the search copies the character at `i` (no match there), the
/// rewrite from `i` does not start with a match either.
proof fn lemma_copied_start(h: Seq<char>, i: int)
    requires
        0 <= i,
        h.len() >= i + 10,
        !pattern_at(h, i),
    ensures
        !pattern_at(rewrite_from(h, i), 0),
{
    let g = rewrite_from(h, i);
    lemma_first_rewrite_split(h, i);
    if pattern_at(g, 0) {
        let front = match first_rewrite_from(h, i) {
            Some(q) => {
                let r = replacement_at(h, q);
                let rest = rewrite_from(h, q + 10);
                lemma_pattern_chars(h, q);
                assert(r[0] == h[q] && r[1] == h[q + 1]);
                assert(g =~= h.subrange(i, q) + (r + rest));
                lemma_match_before_domain(h.subrange(i, q), r + rest);
                h.subrange(i, q)
            },
            None => h.subrange(i, h.len() as int),
        };
        assert(g.subrange(0, 10) =~= h.subrange(i, i + 10));
        if g.len() > 10 {
            assert(g[10] == front[10]);
            assert(front[10] == h[i + 10]);
        }
        assert(pattern_at(h, i));
    }
}

/// Rewriting twice changes nothing more: the rewrite holds no `redump.org`
/// that starts a domain label, so the text of an item that was fixed no
/// longer needs fixing.
pub proof fn lemma_fix_is_idempotent(h: Seq<char>)
    ensures
        fixed_text(fixed_text(h)) == fixed_text(h),
        !needs_fix_spec(fixed_text(h)),
{
    lemma_rewrite_has_no_label_match(h, 0);
    let g = fixed_text(h);
    assert forall|j: int| pattern_at(g, j) implies !label_start(g, j) by {
        assert(pattern_at(rewrite_from(h, 0), j));
        if j == 0 {
            assert(label_start(h, 0));
        }
    }
    lemma_unchanged_iff_lookalikes(g);
}

impl DomainRegex {
    /// Compile `DOMAIN_PATTERN`.
    pub fn new() -> (res: DomainRegex)
        ensures
            res.source() == DOMAIN_PATTERN@,
    {
        DomainRegex { pattern: compile_pattern(DOMAIN_PATTERN).unwrap() }
    }

    /// The rewrite of `input`, and the character position of the first
    /// match that it rewrites.
    fn rewrite(&self, input: &str) -> (res: (String, Option<usize>))
        ensures
            res.0@ == fixed_text(input@),
            match res.1 {
                Some(q) => first_rewrite(input@) == Some(q as int),
                None => first_rewrite(input@) is None,
            },
    {
        proof {
            use_type_invariant(self);
        }
        let n = input.unicode_len();
        let gaps = domain_gaps(&self.pattern, input);
        let found = domain_matches(&self.pattern, input);
        let ghost h = input@;
        let ghost occ = occurrences(h);
        let mut out = String::new();
        let mut first: Option<usize> = None;
        // Characters of the input consumed so far, and the last of them.
        let mut e: usize = 0;
        let mut prev: Option<char> = None;
        let mut k: usize = 0;
        assert(occ.subrange(0, occ.len() as int) =~= occ);
        while k < found.len()
            invariant
                h == input@,
                n == h.len(),
                occ == occurrences(h),
                gaps@.len() == occ.len() + 1,
                found@.len() == occ.len(),
                forall|j: int| 0 <= j < found@.len() ==> #[trigger] found@[j]@ == match_at(h, occ[j]),
                forall|j: int| 0 <= j < gaps@.len() ==> #[trigger] gaps@[j]@ == gap(h, occ, j),
                k <= found.len(),
                e <= n,
                e == (if k == 0 {
                    0
                } else {
                    occ[k - 1] + 10
                }),
                occurrences_from(h, e as int) == occ.subrange(k as int, occ.len() as int),
                fixed_text(h) == out@ + rewrite_from(h, e as int),
                match first {
                    Some(q) => first_rewrite(h) == Some(q as int),
                    None => first_rewrite(h) == first_rewrite_from(h, e as int),
                },
                prev == (if e == 0 {
                    None
                } else {
                    Some(h[e - 1])
                }),
            decreases found.len() - k,
        {
            let piece = &gaps[k];
            let m = &found[k];
            let ghost p = occ[k as int];
            proof {
                assert(occurrences_from(h, e as int)[0] == p);
                lemma_gap(h, e as int);
                assert(piece@ == h.subrange(e as int, p));
            }
            let glen = piece.unicode_len();
            let start = e + glen;
            assert(start == p);
            let before = if glen == 0 {
                prev
            } else {
                Some(piece.get_char(glen - 1))
            };
            let label = match before {
                None => true,
                Some(c) => !is_alphanumeric(c),
            };
            assert(label == label_start(h, p));
            let ghost before_match = out@ + piece@;
            out.append(piece.as_str());
            proof {
                assert(m@ == match_at(h, p));
                reveal_strlit(".");
                reveal_strlit("info");
                reveal_strlit("INFO");
            }
            if label {
                if first.is_none() {
                    first = Some(start);
                }
                out.append(m.name.as_str());
                out.append(".");
                let upper = all_chars_uppercase(m.tld.as_str());
                if upper {
                    out.append("INFO");
                } else {
                    out.append("info");
                }
                assert(out@ =~= before_match + replacement_at(h, p));
            } else {
                out.append(m.whole.as_str());
                assert(out@ =~= before_match + replacement_at(h, p));
            }
            proof {
                assert(occurrences_from(h, p) == seq![p] + occurrences_from(h, p + 10));
                assert(occ.subrange(k as int, occ.len() as int)[0] == p);
                assert(occ.subrange(k + 1, occ.len() as int) =~= occ.subrange(
                    k as int,
                    occ.len() as int,
                ).drop_first());
                assert(m.whole@[9] == h[p + 9]);
            }
            e = start + 10;
            prev = Some(m.whole.get_char(9));
            k += 1;
        }
        let last = &gaps[k];
        proof {
            lemma_tail(h, e as int);
            assert(last@ == h.subrange(e as int, h.len() as int));
        }
        out.append(last.as_str());
        (out, first)
    }

    /// Rewrite every `redump.org` to `redump.info`, preserving the original
    /// casing of both halves.
    pub fn fix(&self, input: &str) -> (res: String)
        ensures
            res@ == fixed_text(input@),
            (res@ == input@) == only_lookalikes(input@),
    {
        proof {
            lemma_unchanged_iff_lookalikes(input@);
        }
        self.rewrite(input).0
    }

    /// The character position of the first match that `fix` rewrites.
    pub fn first_change(&self, input: &str) -> (res: Option<usize>)
        ensures
            match res {
                Some(q) => first_rewrite(input@) == Some(q as int),
                None => first_rewrite(input@) is None,
            },
    {
        self.rewrite(input).1
    }

    /// True if `fix` would change this text.
    pub fn needs_fix(&self, input: &str) -> (res: bool)
        ensures
            res == (fixed_text(input@) != input@),
            res == !only_lookalikes(input@),
    {
        proof {
            lemma_unchanged_iff_lookalikes(input@);
        }
        proof {
            use_type_invariant(self);
        }
        let matched = domain_is_match(&self.pattern, input);
        if !matched {
            proof {
                lemma_tail(input@, 0);
                assert(input@.subrange(0, input@.len() as int) =~= input@);
            }
        }
        let fixed = self.fix(input);
        let original = input.to_owned();
        matched && !(fixed == original)
    }
}

/// Rewrite every `redump.org` to `redump.info`, preserving the original
/// casing of both halves. Works on plain text and on URLs alike, so
/// `www.redump.org/disc/192839128392` becomes
/// `www.redump.info/disc/192839128392`. The pattern is compiled for each
/// call; `DomainRegex::new` compiles it once for many texts.
pub fn fix(input: &str) -> (res: String)
    ensures
        res@ == fixed_text(input@),
        (res@ == input@) == only_lookalikes(input@),
{
    DomainRegex::new().fix(input)
}

/// True if `fix` would change this text.
pub fn needs_fix(input: &str) -> (res: bool)
    ensures
        res == needs_fix_spec(input@),
        res == !only_lookalikes(input@),
{
    DomainRegex::new().needs_fix(input)
}

} // verus!
