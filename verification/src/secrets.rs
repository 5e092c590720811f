//! What counts as a secret in a text, and what masking the secrets does to it.

use crate::text::white_space;
use vstd::prelude::*;

verus! {

/// The token substituted for any masked secret. No secret shape matches inside
/// it, so masking a masked text changes nothing.
pub const MASK: &'static str = "***REDACTED***";

// ---------------------------------------------------------------------------
// Character classes
// ---------------------------------------------------------------------------

/// Which characters outside ASCII are word characters (`\w`).
pub uninterp spec fn foreign_word_char(c: char) -> bool;

/// `\w`: a word character.
pub open spec fn word_char(c: char) -> bool {
    if (c as u32) < 128 {
        'a' <= c <= 'z' || 'A' <= c <= 'Z' || '0' <= c <= '9' || c == '_'
    } else {
        foreign_word_char(c)
    }
}

/// `\s`: a character with the Unicode property `White_Space`.
pub open spec fn space_char(c: char) -> bool {
    white_space(c)
}

pub open spec fn hex_char(c: char) -> bool {
    '0' <= c <= '9' || 'a' <= c <= 'f' || 'A' <= c <= 'F'
}

/// `[A-Za-z0-9\-._~+/]`: a character of a bearer token.
pub open spec fn token_char(c: char) -> bool {
    ||| 'a' <= c <= 'z'
    ||| 'A' <= c <= 'Z'
    ||| '0' <= c <= '9'
    ||| c == '-'
    ||| c == '.'
    ||| c == '_'
    ||| c == '~'
    ||| c == '+'
    ||| c == '/'
}

/// `c` is the lower-case ASCII letter `x` up to simple case folding: besides
/// the two ASCII forms, the long s folds to `s` and the Kelvin sign to `k`.
pub open spec fn folds_to(c: char, x: char) -> bool {
    ||| c == x
    ||| c as u32 + 32 == x as u32
    ||| x == 's' && c == '\u{17f}'
    ||| x == 'k' && c == '\u{212a}'
}

/// The text `t` reads as the word `w` from position `i` on, in any case.
pub open spec fn reads(t: Seq<char>, i: int, w: Seq<char>) -> bool {
    &&& 0 <= i
    &&& i + w.len() <= t.len()
    &&& forall|k: int| 0 <= k < w.len() ==> folds_to(#[trigger] t[i + k], w[k])
}

pub open spec fn all_space(t: Seq<char>, from: int, to: int) -> bool {
    forall|k: int| from <= k < to ==> space_char(#[trigger] t[k])
}

pub open spec fn all_hex(t: Seq<char>, from: int, to: int) -> bool {
    forall|k: int| from <= k < to ==> hex_char(#[trigger] t[k])
}

pub open spec fn all_token(t: Seq<char>, from: int, to: int) -> bool {
    forall|k: int| from <= k < to ==> token_char(#[trigger] t[k])
}

pub open spec fn no_quote(t: Seq<char>, from: int, to: int) -> bool {
    forall|k: int| from <= k < to ==> #[trigger] t[k] != '\''
}

/// `\b`: exactly one of the two characters around position `p` is a word
/// character.
pub open spec fn word_boundary(t: Seq<char>, p: int) -> bool {
    (0 < p <= t.len() && word_char(t[p - 1])) != (0 <= p < t.len() && word_char(t[p]))
}

// ---------------------------------------------------------------------------
// Secret shapes
// ---------------------------------------------------------------------------

/// One secret found in a text, as character positions.
pub struct Secret {
    /// Where the match starts.
    pub start: int,
    /// One past its last character.
    pub end: int,
    /// For an assignment such as `password = '...'`: where the opening quote is.
    pub quote: Option<int>,
    /// For `bearer <token>`: where the token starts.
    pub token: Option<int>,
}

/// One of the key words `password`, `secret`, `key` stands in `t` from `i` to `e`.
pub open spec fn key_word(t: Seq<char>, i: int, e: int) -> bool {
    ||| e == i + 8 && reads(t, i, seq!['p', 'a', 's', 's', 'w', 'o', 'r', 'd'])
    ||| e == i + 6 && reads(t, i, seq!['s', 'e', 'c', 'r', 'e', 't'])
    ||| e == i + 3 && reads(t, i, seq!['k', 'e', 'y'])
}

/// `(?i:password|secret|key)\s*=\s*`, from `start` up to the position `quote`,
/// with the key word ending at `word` and the `=` at `eq`.
pub open spec fn assignment_parts(
    t: Seq<char>,
    start: int,
    word: int,
    eq: int,
    quote: int,
) -> bool {
    &&& key_word(t, start, word)
    &&& word <= eq < quote < t.len()
    &&& all_space(t, word, eq)
    &&& t[eq] == '='
    &&& all_space(t, eq + 1, quote)
}

/// An assignment of a quoted literal: the prefix up to `quote`, the opening
/// quote there, no quote up to `end - 1`, and the closing quote there.
pub open spec fn is_assignment(t: Seq<char>, start: int, quote: int, end: int) -> bool {
    &&& exists|word: int, eq: int| #[trigger] assignment_parts(t, start, word, eq, quote)
    &&& t[quote] == '\''
    &&& quote + 1 < end <= t.len()
    &&& no_quote(t, quote + 1, end - 1)
    &&& t[end - 1] == '\''
}

/// A token from `token` to `end`: at least twelve token characters, as many as
/// there are, up to `pad`, then up to two `=`, as many as there are.
pub open spec fn token_parts(t: Seq<char>, token: int, pad: int, end: int) -> bool {
    &&& token + 12 <= pad <= end <= t.len()
    &&& all_token(t, token, pad)
    &&& pad == t.len() || !token_char(t[pad])
    &&& end <= pad + 2
    &&& forall|k: int| pad <= k < end ==> #[trigger] t[k] == '='
    &&& end == pad + 2 || end == t.len() || t[end] != '='
}

/// `bearer`, white space, and a token.
pub open spec fn is_bearer(t: Seq<char>, start: int, token: int, end: int) -> bool {
    &&& reads(t, start, seq!['b', 'e', 'a', 'r', 'e', 'r'])
    &&& start + 6 < token
    &&& all_space(t, start + 6, token)
    &&& exists|pad: int| #[trigger] token_parts(t, token, pad, end)
}

/// A version 4 UUID that stands as a word of its own.
pub open spec fn is_uuid(t: Seq<char>, start: int, end: int) -> bool {
    &&& 0 <= start
    &&& end == start + 36
    &&& end <= t.len()
    &&& word_boundary(t, start)
    &&& word_boundary(t, end)
    &&& all_hex(t, start, start + 8)
    &&& t[start + 8] == '-'
    &&& all_hex(t, start + 9, start + 13)
    &&& t[start + 13] == '-'
    &&& t[start + 14] == '4'
    &&& all_hex(t, start + 15, start + 18)
    &&& t[start + 18] == '-'
    &&& ({
        let c = t[start + 19];
        c == '8' || c == '9' || c == 'a' || c == 'b' || c == 'A' || c == 'B'
    })
    &&& all_hex(t, start + 20, start + 23)
    &&& t[start + 23] == '-'
    &&& all_hex(t, start + 24, start + 36)
}

/// A run of 32 or more hexadecimal digits that stands as a word of its own.
pub open spec fn is_long_hex(t: Seq<char>, start: int, end: int) -> bool {
    &&& 0 <= start
    &&& start + 32 <= end <= t.len()
    &&& word_boundary(t, start)
    &&& word_boundary(t, end)
    &&& all_hex(t, start, end)
}

/// `m` describes a secret of `t`, of one of the four shapes.
pub open spec fn is_secret(t: Seq<char>, m: Secret) -> bool {
    match (m.quote, m.token) {
        (Some(quote), None) => is_assignment(t, m.start, quote, m.end),
        (None, Some(token)) => is_bearer(t, m.start, token, m.end),
        (None, None) => is_uuid(t, m.start, m.end) || is_long_hex(t, m.start, m.end),
        (Some(_), Some(_)) => false,
    }
}

/// Some secret of `t` starts at `p`.
pub open spec fn starts_secret(t: Seq<char>, p: int) -> bool {
    exists|m: Secret| #[trigger] is_secret(t, m) && m.start == p
}

// ---------------------------------------------------------------------------
// All secrets of a text
// ---------------------------------------------------------------------------

/// Where the search for the secret number `k` begins.
pub open spec fn gap_from(ms: Seq<Secret>, from: int, k: int) -> int {
    if k == 0 {
        from
    } else {
        ms[k - 1].end
    }
}

/// Where the gap in front of the secret number `k` ends.
pub open spec fn gap_to(t: Seq<char>, ms: Seq<Secret>, k: int) -> int {
    if k == ms.len() {
        t.len() as int
    } else {
        ms[k].start
    }
}

/// `ms` are the secrets of `t` from `from` on, found from left to right: each
/// starts at the first position behind the one before it where a secret starts.
#[verifier::opaque]
pub open spec fn leftmost(t: Seq<char>, ms: Seq<Secret>, from: int) -> bool {
    &&& forall|k: int| 0 <= k < ms.len() ==> is_secret(t, #[trigger] ms[k])
    &&& forall|k: int| 0 <= k < ms.len() ==> gap_from(ms, from, k) <= (#[trigger] ms[k]).start
    &&& forall|k: int, p: int|
        0 <= k <= ms.len() && #[trigger] gap_from(ms, from, k) <= p < gap_to(t, ms, k)
            ==> !#[trigger] starts_secret(t, p)
}

/// The secrets of `t` that start at or behind `from`, from left to right.
pub open spec fn secrets_from(t: Seq<char>, from: int) -> Seq<Secret>
    decreases t.len() - from,
{
    let m = choose|m: Secret| #[trigger] is_secret(t, m) && m.start == from;
    if from < 0 || from >= t.len() {
        Seq::empty()
    } else if starts_secret(t, from) && from < m.end <= t.len() {
        seq![m] + secrets_from(t, m.end)
    } else {
        secrets_from(t, from + 1)
    }
}

/// All secrets of `t`, from left to right.
pub open spec fn secrets(t: Seq<char>) -> Seq<Secret> {
    secrets_from(t, 0)
}

// ---------------------------------------------------------------------------
// Masking
// ---------------------------------------------------------------------------

/// The first character of `m` that is masked: what follows the opening quote,
/// the token, or all of it.
pub open spec fn mask_from(m: Secret) -> int {
    match (m.quote, m.token) {
        (Some(quote), _) => quote + 1,
        (None, Some(token)) => token,
        (None, None) => m.start,
    }
}

/// One past the last character of `m` that is masked: the closing quote stays.
pub open spec fn mask_to(m: Secret) -> int {
    if m.quote is Some {
        m.end - 1
    } else {
        m.end
    }
}

/// Where the kept text in front of the secret number `k` starts.
pub open spec fn kept_from(ms: Seq<Secret>, k: int) -> int {
    if k == 0 {
        0
    } else {
        mask_to(ms[k - 1])
    }
}

/// The masked text up to and including the mask of the secret number `k - 1`.
pub open spec fn masked_until(t: Seq<char>, ms: Seq<Secret>, k: int) -> Seq<char>
    decreases k,
{
    if k <= 0 {
        Seq::empty()
    } else {
        masked_until(t, ms, k - 1) + t.subrange(kept_from(ms, k - 1), mask_from(ms[k - 1]))
            + MASK@
    }
}

/// `t` with the secret part of each of `ms` replaced by the mask.
pub open spec fn masked(t: Seq<char>, ms: Seq<Secret>) -> Seq<char> {
    masked_until(t, ms, ms.len() as int) + t.subrange(kept_from(ms, ms.len() as int), t.len() as int)
}

/// `t` with all its secrets masked.
pub open spec fn redacted(t: Seq<char>) -> Seq<char> {
    masked(t, secrets(t))
}

// ---------------------------------------------------------------------------
// The secrets of a text are determined
// ---------------------------------------------------------------------------

pub proof fn lemma_secret_bounds(t: Seq<char>, m: Secret)
    requires
        is_secret(t, m),
    ensures
        0 <= m.start <= mask_from(m) <= mask_to(m) <= m.end <= t.len(),
        m.start < m.end,
{
    if m.quote is Some {
        let quote = m.quote->0;
        let (word, eq) = choose|word: int, eq: int| #[trigger]
            assignment_parts(t, m.start, word, eq, quote);
    } else if m.token is Some {
        let token = m.token->0;
        let pad = choose|pad: int| #[trigger] token_parts(t, token, pad, m.end);
    }
}

/// What the character at the start of each shape can be.
pub proof fn lemma_first_char(t: Seq<char>, m: Secret)
    requires
        is_secret(t, m),
    ensures
        0 <= m.start < t.len(),
        m.quote is Some ==> {
            let c = t[m.start];
            folds_to(c, 'p') || folds_to(c, 's') || folds_to(c, 'k')
        },
        m.token is Some ==> folds_to(t[m.start], 'b'),
        m.quote is None && m.token is None ==> all_hex(t, m.start, m.start + 8),
{
    lemma_secret_bounds(t, m);
    if m.quote is Some {
        let quote = m.quote->0;
        let (word, eq) = choose|word: int, eq: int| #[trigger]
            assignment_parts(t, m.start, word, eq, quote);
        assert(t[m.start + 0] == t[m.start]);
    } else if m.token is Some {
        assert(t[m.start + 0] == t[m.start]);
    }
}

pub proof fn lemma_assignment_unique(t: Seq<char>, start: int, q1: int, e1: int, q2: int, e2: int)
    requires
        is_assignment(t, start, q1, e1),
        is_assignment(t, start, q2, e2),
    ensures
        q1 == q2,
        e1 == e2,
{
    let (w1, x1) = choose|word: int, eq: int| #[trigger] assignment_parts(t, start, word, eq, q1);
    let (w2, x2) = choose|word: int, eq: int| #[trigger] assignment_parts(t, start, word, eq, q2);
    assert(t[start + 0] == t[start]);
    assert(w1 == w2);
    assert(x1 == x2) by {
        if x1 < x2 {
            assert(space_char(t[x1]));
        }
        if x2 < x1 {
            assert(space_char(t[x2]));
        }
    }
    assert(q1 == q2) by {
        if q1 < q2 {
            assert(space_char(t[q1]));
        }
        if q2 < q1 {
            assert(space_char(t[q2]));
        }
    }
    if e1 < e2 {
        assert(t[e1 - 1] == '\'');
    }
    if e2 < e1 {
        assert(t[e2 - 1] == '\'');
    }
}

proof fn lemma_token_unique(t: Seq<char>, token: int, p1: int, e1: int, p2: int, e2: int)
    requires
        token_parts(t, token, p1, e1),
        token_parts(t, token, p2, e2),
    ensures
        p1 == p2,
        e1 == e2,
{
    if p1 < p2 {
        assert(token_char(t[p1]));
    }
    if p2 < p1 {
        assert(token_char(t[p2]));
    }
    if e1 < e2 {
        assert(t[e1] == '=');
    }
    if e2 < e1 {
        assert(t[e2] == '=');
    }
}

pub proof fn lemma_bearer_unique(t: Seq<char>, start: int, k1: int, e1: int, k2: int, e2: int)
    requires
        is_bearer(t, start, k1, e1),
        is_bearer(t, start, k2, e2),
    ensures
        k1 == k2,
        e1 == e2,
{
    let p1 = choose|pad: int| #[trigger] token_parts(t, k1, pad, e1);
    let p2 = choose|pad: int| #[trigger] token_parts(t, k2, pad, e2);
    if k1 < k2 {
        assert(space_char(t[k1]));
        assert(token_char(t[k1]));
    }
    if k2 < k1 {
        assert(space_char(t[k2]));
        assert(token_char(t[k2]));
    }
    lemma_token_unique(t, k1, p1, e1, p2, e2);
}

proof fn lemma_hex_unique(t: Seq<char>, start: int, e1: int, e2: int)
    requires
        is_long_hex(t, start, e1),
        is_long_hex(t, start, e2),
    ensures
        e1 == e2,
{
    if e1 < e2 {
        assert(hex_char(t[e1 - 1]) && hex_char(t[e1]));
    }
    if e2 < e1 {
        assert(hex_char(t[e2 - 1]) && hex_char(t[e2]));
    }
}

/// At most one secret starts at any position.
pub proof fn lemma_secret_unique(t: Seq<char>, a: Secret, b: Secret)
    requires
        is_secret(t, a),
        is_secret(t, b),
        a.start == b.start,
    ensures
        a == b,
{
    let s = a.start;
    lemma_first_char(t, a);
    lemma_first_char(t, b);
    if a.quote is Some {
        if b.quote is None && b.token is None {
            assert(hex_char(t[s]));
        }
        assert(b.quote is Some);
        lemma_assignment_unique(t, s, a.quote->0, a.end, b.quote->0, b.end);
    } else if a.token is Some {
        if b.quote is None && b.token is None {
            assert(hex_char(t[s + 3]));
            assert(folds_to(t[s + 3], 'r'));
        }
        assert(b.token is Some);
        lemma_bearer_unique(t, s, a.token->0, a.end, b.token->0, b.end);
    } else {
        if b.quote is Some {
            assert(hex_char(t[s]));
        }
        if b.token is Some {
            assert(hex_char(t[s + 3]));
            assert(folds_to(t[s + 3], 'r'));
        }
        if is_uuid(t, s, a.end) && is_long_hex(t, s, b.end) {
            assert(hex_char(t[s + 8]));
        }
        if is_uuid(t, s, b.end) && is_long_hex(t, s, a.end) {
            assert(hex_char(t[s + 8]));
        }
        if is_long_hex(t, s, a.end) && is_long_hex(t, s, b.end) {
            lemma_hex_unique(t, s, a.end, b.end);
        }
    }
}

/// Every text has its secrets from left to right.
pub proof fn lemma_secrets_leftmost(t: Seq<char>, from: int)
    requires
        0 <= from <= t.len(),
    ensures
        leftmost(t, secrets_from(t, from), from),
    decreases t.len() - from,
{
    reveal(leftmost);
    let ms = secrets_from(t, from);
    if from < t.len() {
        if starts_secret(t, from) {
            let m = choose|m: Secret| #[trigger] is_secret(t, m) && m.start == from;
            lemma_secret_bounds(t, m);
            let rest = secrets_from(t, m.end);
            lemma_secrets_leftmost(t, m.end);
            assert(ms =~= seq![m] + rest);
            assert forall|k: int| 0 <= k < ms.len() implies is_secret(t, #[trigger] ms[k])
                && gap_from(ms, from, k) <= ms[k].start by {
                if k > 0 {
                    assert(ms[k] == rest[k - 1]);
                    assert(gap_from(ms, from, k) == gap_from(rest, m.end, k - 1));
                }
            }
            assert forall|k: int, p: int|
                0 <= k <= ms.len() && #[trigger] gap_from(ms, from, k) <= p < gap_to(
                    t,
                    ms,
                    k,
                ) implies !#[trigger] starts_secret(t, p) by {
                if k > 0 {
                    assert(gap_from(ms, from, k) == gap_from(rest, m.end, k - 1));
                    assert(gap_to(t, ms, k) == gap_to(t, rest, k - 1));
                }
            }
        } else {
            lemma_secrets_leftmost(t, from + 1);
            assert forall|k: int| 0 <= k < ms.len() implies gap_from(ms, from, k) <= (
            #[trigger] ms[k]).start by {
                assert(gap_from(ms, from + 1, k) <= ms[k].start);
            }
            assert forall|k: int, p: int|
                0 <= k <= ms.len() && #[trigger] gap_from(ms, from, k) <= p < gap_to(
                    t,
                    ms,
                    k,
                ) implies !#[trigger] starts_secret(t, p) by {
                if k > 0 || p > from {
                    assert(gap_from(ms, from + 1, k) <= p);
                }
            }
        }
    }
}

/// The secret number `k` of a left-to-right search.
pub proof fn lemma_leftmost_at(t: Seq<char>, ms: Seq<Secret>, from: int, k: int)
    requires
        leftmost(t, ms, from),
        0 <= k < ms.len(),
    ensures
        is_secret(t, ms[k]),
        gap_from(ms, from, k) <= ms[k].start,
        0 <= ms[k].start <= mask_from(ms[k]) <= mask_to(ms[k]) <= ms[k].end <= t.len(),
        ms[k].start < ms[k].end,
{
    reveal(leftmost);
    lemma_secret_bounds(t, ms[k]);
}

/// No secret starts in a gap that a left-to-right search leaves.
pub proof fn lemma_gap_is_plain(t: Seq<char>, ms: Seq<Secret>, from: int, k: int, p: int)
    requires
        leftmost(t, ms, from),
        0 <= k <= ms.len(),
        gap_from(ms, from, k) <= p < gap_to(t, ms, k),
    ensures
        !starts_secret(t, p),
{
    reveal(leftmost);
}

/// A left-to-right search finds the same secrets, however it is done.
pub proof fn lemma_leftmost_unique(t: Seq<char>, a: Seq<Secret>, b: Seq<Secret>, from: int)
    requires
        leftmost(t, a, from),
        leftmost(t, b, from),
    ensures
        a == b,
    decreases a.len(),
{
    reveal(leftmost);
    if a.len() == 0 {
        if b.len() > 0 {
            assert(is_secret(t, b[0]));
            lemma_secret_bounds(t, b[0]);
            assert(gap_from(b, from, 0) <= b[0].start);
            assert(gap_from(a, from, 0) <= b[0].start < gap_to(t, a, 0));
            assert(starts_secret(t, b[0].start));
        }
        assert(a =~= b);
    } else {
        assert(is_secret(t, a[0]));
        lemma_secret_bounds(t, a[0]);
        assert(gap_from(a, from, 0) <= a[0].start);
        assert(starts_secret(t, a[0].start));
        assert(b.len() > 0) by {
            if b.len() == 0 {
                assert(gap_from(b, from, 0) <= a[0].start < gap_to(t, b, 0));
            }
        }
        assert(is_secret(t, b[0]));
        lemma_secret_bounds(t, b[0]);
        assert(gap_from(b, from, 0) <= b[0].start);
        assert(starts_secret(t, b[0].start));
        assert(a[0].start == b[0].start) by {
            if a[0].start < b[0].start {
                assert(gap_from(b, from, 0) <= a[0].start < gap_to(t, b, 0));
            }
            if b[0].start < a[0].start {
                assert(gap_from(a, from, 0) <= b[0].start < gap_to(t, a, 0));
            }
        }
        lemma_secret_unique(t, a[0], b[0]);
        lemma_leftmost_rest(t, a, from);
        lemma_leftmost_rest(t, b, from);
        lemma_leftmost_unique(t, a.drop_first(), b.drop_first(), a[0].end);
        assert(a =~= seq![a[0]] + a.drop_first());
        assert(b =~= seq![b[0]] + b.drop_first());
    }
}

proof fn lemma_leftmost_rest(t: Seq<char>, a: Seq<Secret>, from: int)
    requires
        leftmost(t, a, from),
        a.len() > 0,
    ensures
        leftmost(t, a.drop_first(), a[0].end),
{
    reveal(leftmost);
    let r = a.drop_first();
    assert forall|k: int| 0 <= k < r.len() implies is_secret(t, #[trigger] r[k]) && gap_from(
        r,
        a[0].end,
        k,
    ) <= r[k].start by {
        assert(r[k] == a[k + 1]);
        assert(gap_from(a, from, k + 1) <= a[k + 1].start);
    }
    assert forall|k: int, p: int|
        0 <= k <= r.len() && #[trigger] gap_from(r, a[0].end, k) <= p < gap_to(
            t,
            r,
            k,
        ) implies !#[trigger] starts_secret(t, p) by {
        assert(gap_from(a, from, k + 1) == gap_from(r, a[0].end, k));
        assert(gap_to(t, a, k + 1) == gap_to(t, r, k));
    }
}

} // verus!
