//! What masking guarantees: no secret survives it, it changes nothing else, and
//! doing it twice is doing it once.

use crate::redact::{redacted_variable, secret_name};
use crate::secrets::{
    all_token, assignment_parts, folds_to, gap_from, gap_to, hex_char, is_assignment, is_bearer,
    is_long_hex, is_secret, is_uuid, kept_from, leftmost, lemma_first_char, lemma_gap_is_plain,
    lemma_leftmost_at, lemma_secret_bounds, lemma_secrets_leftmost, mask_from, mask_to, masked,
    masked_until, no_quote, reads, redacted, secrets, space_char, starts_secret, token_char,
    token_parts, word_boundary, MASK, Secret,
};
use crate::text::{ascii_lowercase, trim};
use vstd::prelude::*;

verus! {

/// Where the kept text behind the secret number `k - 1` ends.
spec fn kept_to(t: Seq<char>, ms: Seq<Secret>, k: int) -> int {
    if k == ms.len() {
        t.len() as int
    } else {
        mask_from(ms[k])
    }
}

/// Where the kept text number `k` starts in the masked text.
spec fn kept_at(t: Seq<char>, ms: Seq<Secret>, k: int) -> int {
    masked_until(t, ms, k).len() as int
}

spec fn kept_len(t: Seq<char>, ms: Seq<Secret>, k: int) -> int {
    kept_to(t, ms, k) - kept_from(ms, k)
}

proof fn lemma_mask_chars()
    ensures
        MASK@ == seq!['*', '*', '*', 'R', 'E', 'D', 'A', 'C', 'T', 'E', 'D', '*', '*', '*'],
{
    reveal_strlit("***REDACTED***");
    assert(MASK@ =~= seq!['*', '*', '*', 'R', 'E', 'D', 'A', 'C', 'T', 'E', 'D', '*', '*', '*']);
}

proof fn lemma_kept_bounds(t: Seq<char>, ms: Seq<Secret>, k: int)
    requires
        leftmost(t, ms, 0),
        0 <= k <= ms.len(),
    ensures
        0 <= kept_from(ms, k) <= kept_to(t, ms, k) <= t.len(),
        kept_from(ms, k) <= gap_from(ms, 0, k) <= gap_to(t, ms, k) <= kept_to(t, ms, k),
        gap_from(ms, 0, k) <= kept_from(ms, k) + 1,
        kept_from(ms, k) < gap_from(ms, 0, k) ==> k > 0 && t[kept_from(ms, k)] == '\'',
{
    if k > 0 {
        lemma_leftmost_at(t, ms, 0, k - 1);
    }
    if k < ms.len() {
        lemma_leftmost_at(t, ms, 0, k);
    }
}

/// The masked text up to the secret number `k` is a prefix of the masked text.
proof fn lemma_prefix(t: Seq<char>, ms: Seq<Secret>, k: int, l: int)
    requires
        0 <= k <= l,
    ensures
        masked_until(t, ms, k).len() <= masked_until(t, ms, l).len(),
        masked_until(t, ms, l).take(masked_until(t, ms, k).len() as int) == masked_until(t, ms, k),
    decreases l - k,
{
    if k < l {
        lemma_prefix(t, ms, k, l - 1);
        let a = masked_until(t, ms, k);
        let b = masked_until(t, ms, l - 1);
        let c = masked_until(t, ms, l);
        assert(c.take(a.len() as int) =~= b.take(a.len() as int));
    } else {
        assert(masked_until(t, ms, l).take(masked_until(t, ms, l).len() as int) =~= masked_until(
            t,
            ms,
            l,
        ));
    }
}

/// The kept text number `k` and the mask behind it, as they stand in the masked
/// text.
proof fn lemma_layout(t: Seq<char>, ms: Seq<Secret>, k: int)
    requires
        leftmost(t, ms, 0),
        0 <= k <= ms.len(),
    ensures
        0 <= kept_at(t, ms, k),
        kept_at(t, ms, k) + kept_len(t, ms, k) <= masked(t, ms).len(),
        forall|j: int|
            0 <= j < kept_len(t, ms, k) ==> #[trigger] masked(t, ms)[kept_at(t, ms, k) + j]
                == t[kept_from(ms, k) + j],
        k == ms.len() ==> kept_at(t, ms, k) + kept_len(t, ms, k) == masked(t, ms).len(),
        k < ms.len() ==> {
            &&& kept_at(t, ms, k + 1) == kept_at(t, ms, k) + kept_len(t, ms, k) + 14
            &&& kept_at(t, ms, k + 1) <= masked(t, ms).len()
            &&& forall|j: int|
                0 <= j < 14 ==> #[trigger] masked(t, ms)[kept_at(t, ms, k) + kept_len(t, ms, k) + j]
                    == MASK@[j]
        },
{
    let n = ms.len() as int;
    let out = masked(t, ms);
    lemma_kept_bounds(t, ms, k);
    lemma_mask_chars();
    if k < n {
        lemma_prefix(t, ms, k + 1, n);
        let upto = masked_until(t, ms, k + 1);
        let all = masked_until(t, ms, n);
        assert forall|q: int| 0 <= q < upto.len() implies #[trigger] out[q] == upto[q] by {
            assert(all.take(upto.len() as int)[q] == upto[q]);
        }
        let kept = t.subrange(kept_from(ms, k), mask_from(ms[k]));
        assert(upto == masked_until(t, ms, k) + kept + MASK@);
        assert forall|j: int| 0 <= j < kept_len(t, ms, k) implies #[trigger] out[kept_at(t, ms, k)
            + j] == t[kept_from(ms, k) + j] by {
            assert(upto[kept_at(t, ms, k) + j] == kept[j]);
        }
        assert forall|j: int| 0 <= j < 14 implies #[trigger] out[kept_at(t, ms, k) + kept_len(
            t,
            ms,
            k,
        ) + j] == MASK@[j] by {
            assert(upto[kept_at(t, ms, k) + kept_len(t, ms, k) + j] == MASK@[j]);
        }
    } else {
        let kept = t.subrange(kept_from(ms, n), t.len() as int);
        assert forall|j: int| 0 <= j < kept_len(t, ms, k) implies #[trigger] out[kept_at(t, ms, k)
            + j] == t[kept_from(ms, k) + j] by {
            assert(out[kept_at(t, ms, k) + j] == kept[j]);
        }
    }
}

/// Every position of the masked text lies in some kept text or in some mask.
proof fn lemma_locate(t: Seq<char>, ms: Seq<Secret>, q: int, l: int) -> (k: int)
    requires
        leftmost(t, ms, 0),
        0 <= l <= ms.len(),
        0 <= q,
        q < kept_at(t, ms, l) || (l == ms.len() && q < masked(t, ms).len()),
    ensures
        0 <= k <= ms.len(),
        kept_at(t, ms, k) <= q,
        q < kept_at(t, ms, k) + kept_len(t, ms, k) || (k < ms.len() && q < kept_at(t, ms, k + 1)),
    decreases l,
{
    lemma_layout(t, ms, l);
    if q >= kept_at(t, ms, l) {
        l
    } else {
        lemma_layout(t, ms, l - 1);
        if q >= kept_at(t, ms, l - 1) {
            l - 1
        } else {
            lemma_locate(t, ms, q, l - 1)
        }
    }
}

proof fn lemma_kept_order(t: Seq<char>, ms: Seq<Secret>, k: int, l: int)
    requires
        leftmost(t, ms, 0),
        0 <= k <= l <= ms.len(),
    ensures
        kept_at(t, ms, k) <= kept_at(t, ms, l),
        k < l ==> kept_to(t, ms, k) <= kept_from(ms, l),
        k < l ==> kept_at(t, ms, k) + kept_len(t, ms, k) < kept_at(t, ms, l),
    decreases l - k,
{
    if k < l {
        lemma_kept_order(t, ms, k, l - 1);
        lemma_layout(t, ms, l - 1);
        lemma_kept_bounds(t, ms, l - 1);
        lemma_leftmost_at(t, ms, 0, l - 1);
    }
}

/// No secret starts inside a mask.
proof fn lemma_mask_starts_nothing(out: Seq<char>, x: Secret, base: int)
    requires
        base <= x.start < base + 14 <= out.len(),
        forall|j: int| 0 <= j < 14 ==> #[trigger] out[base + j] == MASK@[j],
    ensures
        !is_secret(out, x),
{
    lemma_mask_chars();
    if is_secret(out, x) {
        lemma_first_char(out, x);
    }
    let j = x.start - base;
    assert(out[base + j] == MASK@[j]);
    if is_secret(out, x) && x.quote is None && x.token is None {
        if j < 4 {
            assert(hex_char(out[x.start]));
        } else if j <= 8 {
            assert(out[base + 8] == MASK@[8]);
            assert(hex_char(out[base + 8]));
        } else if j <= 11 {
            assert(out[base + 11] == MASK@[11]);
            assert(hex_char(out[base + 11]));
        } else {
            assert(hex_char(out[x.start]));
        }
    }
}

/// A position in the kept text in front of a secret, where another secret
/// starts, is the start of that secret.
proof fn lemma_start_in_kept(t: Seq<char>, ms: Seq<Secret>, k: int, y: Secret)
    requires
        leftmost(t, ms, 0),
        0 <= k <= ms.len(),
        is_secret(t, y),
        kept_from(ms, k) <= y.start < kept_to(t, ms, k),
    ensures
        k < ms.len(),
        y == ms[k],
        y.quote is Some || y.token is Some,
{
    lemma_kept_bounds(t, ms, k);
    lemma_first_char(t, y);
    let o = y.start;
    assert(starts_secret(t, o));
    if o < gap_from(ms, 0, k) {
        assert(t[o] == '\'');
        if y.quote is None && y.token is None {
            assert(hex_char(t[o]));
        }
        assert(false);
    }
    if gap_from(ms, 0, k) <= o < gap_to(t, ms, k) {
        lemma_gap_is_plain(t, ms, 0, k, o);
        assert(false);
    }
    let m = ms[k];
    lemma_leftmost_at(t, ms, 0, k);
    if m.start == o {
        crate::secrets::lemma_secret_unique(t, y, m);
    } else if m.quote is Some {
        let quote = m.quote->0;
        let (word, eq) = choose|word: int, eq: int| #[trigger]
            assignment_parts(t, m.start, word, eq, quote);
        if o >= word {
            if o < eq {
                assert(space_char(t[o]));
            } else if eq < o < quote {
                assert(space_char(t[o]));
            }
            if y.quote is None && y.token is None {
                assert(hex_char(t[o]));
            }
            assert(false);
        }
        lemma_inside_key_word(t, m.start, word, y);
        if word < eq {
            assert(space_char(t[word]));
        }
        assert(hex_char(t[word]));
        assert(false);
    } else {
        let token = m.token->0;
        if o >= m.start + 6 {
            assert(space_char(t[o]));
            if y.quote is None && y.token is None {
                assert(hex_char(t[o]));
            }
            assert(false);
        }
        let i = o - m.start;
        assert(folds_to(t[m.start + i], seq!['b', 'e', 'a', 'r', 'e', 'r'][i]));
        if y.quote is None && y.token is None {
            assert(space_char(t[m.start + 6]));
            assert(hex_char(t[m.start + 6]));
        }
        assert(false);
    }
}

/// Only a run of hexadecimal digits can start inside a key word, and it runs on
/// behind the word.
proof fn lemma_inside_key_word(t: Seq<char>, start: int, word: int, y: Secret)
    requires
        crate::secrets::key_word(t, start, word),
        is_secret(t, y),
        start < y.start < word,
        word < t.len(),
    ensures
        y.quote is None && y.token is None,
        hex_char(t[word]),
{
    lemma_first_char(t, y);
    let o = y.start;
    let i = o - start;
    assert(t[start + i] == t[o]);
    assert(t[start + i + 1] == t[o + 1]);
    if y.quote is Some {
        let (w, eq) = choose|w: int, eq: int| #[trigger]
            assignment_parts(t, o, w, eq, y.quote->0);
        assert(t[o + 0] == t[o]);
        assert(folds_to(t[o], 's'));
        assert(word == start + 8);
        assert(folds_to(t[start + i], seq!['p', 'a', 's', 's', 'w', 'o', 'r', 'd'][i]));
        assert(folds_to(t[o + 1], 'e'));
        assert(i == 2 || i == 3);
        assert(folds_to(t[start + (i + 1)], seq!['p', 'a', 's', 's', 'w', 'o', 'r', 'd'][i + 1]));
        assert(false);
    } else if y.token is None {
        assert(o < word < o + 8);
        assert(hex_char(t[word]));
    }
}

/// In a text that holds the prefix of an assignment and a quote behind it, an
/// assignment starts there.
proof fn lemma_assignment_completes(
    t: Seq<char>,
    start: int,
    word: int,
    eq: int,
    quote: int,
    c: int,
)
    requires
        assignment_parts(t, start, word, eq, quote),
        t[quote] == '\'',
        quote < c < t.len(),
        t[c] == '\'',
    ensures
        exists|end: int| #[trigger] is_assignment(t, start, quote, end),
    decreases c,
{
    if no_quote(t, quote + 1, c) {
        assert(is_assignment(t, start, quote, c + 1));
    } else {
        let d = choose|d: int| quote + 1 <= d < c && t[d] == '\'';
        lemma_assignment_completes(t, start, word, eq, quote, d);
    }
}

/// Twelve token characters grow to a token.
proof fn lemma_token_completes(t: Seq<char>, token: int, upto: int)
    requires
        0 <= token,
        token + 12 <= upto <= t.len(),
        all_token(t, token, upto),
    ensures
        exists|pad: int, end: int| #[trigger] token_parts(t, token, pad, end),
    decreases t.len() - upto,
{
    if upto < t.len() && token_char(t[upto]) {
        lemma_token_completes(t, token, upto + 1);
    } else if upto == t.len() || t[upto] != '=' {
        assert(token_parts(t, token, upto, upto));
    } else if upto + 1 == t.len() || t[upto + 1] != '=' {
        assert(token_parts(t, token, upto, upto + 1));
    } else {
        assert(token_parts(t, token, upto, upto + 2));
    }
}

/// An assignment found in the masked text is one whose literal is the mask.
proof fn lemma_masked_assignment(t: Seq<char>, ms: Seq<Secret>, x: Secret, k: int)
    requires
        leftmost(t, ms, 0),
        is_secret(masked(t, ms), x),
        x.quote is Some,
        0 <= k <= ms.len(),
        kept_at(t, ms, k) <= x.start < kept_at(t, ms, k) + kept_len(t, ms, k),
    ensures
        masked(t, ms).subrange(mask_from(x), mask_to(x)) == MASK@,
{
    let out = masked(t, ms);
    let p = x.start;
    let quote = x.quote->0;
    let (word, eq) = choose|word: int, eq: int| #[trigger]
        assignment_parts(out, p, word, eq, quote);
    lemma_layout(t, ms, k);
    lemma_kept_bounds(t, ms, k);
    lemma_mask_chars();
    let a = kept_at(t, ms, k);
    let stop = a + kept_len(t, ms, k);
    let shift = kept_from(ms, k) - a;
    if quote >= stop {
        assert(k < ms.len());
        assert(out[stop + 0] == '*');
        assert(out[stop] == '*');
        if stop < word {
            let i = stop - p;
            assert(out[p + i] == '*');
        } else if stop < eq {
            assert(space_char(out[stop]));
        } else if eq < stop < quote {
            assert(space_char(out[stop]));
        }
        assert(false);
    }
    assert forall|q: int| p <= q <= quote implies #[trigger] out[q] == t[q + shift] by {
        assert(out[a + (q - a)] == t[kept_from(ms, k) + (q - a)]);
    }
    let o = p + shift;
    // the prefix stands in the text itself
    assert(assignment_parts(t, o, word + shift, eq + shift, quote + shift)) by {
        lemma_shift_key_word(out, t, p, word, shift);
        assert forall|i: int| word + shift <= i < eq + shift implies space_char(#[trigger] t[i]) by {
            assert(out[i - shift] == t[i]);
        }
        assert forall|i: int| eq + shift + 1 <= i < quote + shift implies space_char(
            #[trigger] t[i],
        ) by {
            assert(out[i - shift] == t[i]);
        }
    }
    // and so does a quote behind it
    let c = x.end - 1;
    let l = lemma_locate(t, ms, c, ms.len() as int);
    lemma_layout(t, ms, l);
    lemma_kept_bounds(t, ms, l);
    if c >= kept_at(t, ms, l) + kept_len(t, ms, l) {
        let j = c - kept_at(t, ms, l) - kept_len(t, ms, l);
        assert(out[kept_at(t, ms, l) + kept_len(t, ms, l) + j] == MASK@[j]);
        assert(false);
    }
    let oc = kept_from(ms, l) + (c - kept_at(t, ms, l));
    assert(out[kept_at(t, ms, l) + (c - kept_at(t, ms, l))] == t[oc]);
    if l < k {
        lemma_kept_order(t, ms, l, k);
        assert(false);
    }
    lemma_kept_order(t, ms, k, l);
    assert(quote + shift < oc);
    lemma_assignment_completes(t, o, word + shift, eq + shift, quote + shift, oc);
    let end = choose|end: int| #[trigger] is_assignment(t, o, quote + shift, end);
    let y = Secret { start: o, end, quote: Some(quote + shift), token: None };
    assert(is_secret(t, y));
    lemma_start_in_kept(t, ms, k, y);
    // so it is the assignment that was masked: its literal is the mask now
    assert(quote + 1 == stop);
    lemma_layout(t, ms, k + 1);
    lemma_kept_bounds(t, ms, k + 1);
    assert(t[kept_from(ms, k + 1)] == '\'');
    assert(kept_len(t, ms, k + 1) > 0) by {
        lemma_leftmost_at(t, ms, 0, k);
        if k + 1 < ms.len() {
            lemma_leftmost_at(t, ms, 0, k + 1);
        }
    }
    assert(out[kept_at(t, ms, k + 1) + 0] == '\'');
    assert(out[stop + 14] == '\'');
    assert forall|q: int| stop <= q < stop + 14 implies #[trigger] out[q] == MASK@[q - stop] by {
        assert(out[stop + (q - stop)] == MASK@[q - stop]);
    }
    assert(x.end - 1 == stop + 14) by {
        if x.end - 1 < stop + 14 {
            assert(out[x.end - 1] == MASK@[x.end - 1 - stop]);
        }
    }
    assert(out.subrange(mask_from(x), mask_to(x)) =~= MASK@);
}

proof fn lemma_shift_key_word(out: Seq<char>, t: Seq<char>, p: int, word: int, shift: int)
    requires
        crate::secrets::key_word(out, p, word),
        0 <= p + shift,
        word + shift <= t.len(),
        forall|q: int| p <= q < word ==> #[trigger] out[q] == t[q + shift],
    ensures
        crate::secrets::key_word(t, p + shift, word + shift),
{
    if reads(out, p, seq!['p', 'a', 's', 's', 'w', 'o', 'r', 'd']) && word == p + 8 {
        lemma_shift_reads(out, t, p, seq!['p', 'a', 's', 's', 'w', 'o', 'r', 'd'], shift);
    } else if reads(out, p, seq!['s', 'e', 'c', 'r', 'e', 't']) && word == p + 6 {
        lemma_shift_reads(out, t, p, seq!['s', 'e', 'c', 'r', 'e', 't'], shift);
    } else {
        lemma_shift_reads(out, t, p, seq!['k', 'e', 'y'], shift);
    }
}

proof fn lemma_shift_reads(out: Seq<char>, t: Seq<char>, p: int, w: Seq<char>, shift: int)
    requires
        reads(out, p, w),
        0 <= p + shift,
        p + w.len() + shift <= t.len(),
        forall|q: int| p <= q < p + w.len() ==> #[trigger] out[q] == t[q + shift],
    ensures
        reads(t, p + shift, w),
{
    assert forall|i: int| 0 <= i < w.len() implies folds_to(#[trigger] t[p + shift + i], w[i]) by {
        assert(folds_to(out[p + i], w[i]));
    }
}

/// No bearer token is found in the masked text.
proof fn lemma_masked_bearer(t: Seq<char>, ms: Seq<Secret>, x: Secret, k: int)
    requires
        leftmost(t, ms, 0),
        x.token is Some,
        0 <= k <= ms.len(),
        kept_at(t, ms, k) <= x.start < kept_at(t, ms, k) + kept_len(t, ms, k),
    ensures
        !is_secret(masked(t, ms), x),
{
    let out = masked(t, ms);
    if is_secret(out, x) {
        let p = x.start;
        let token = x.token->0;
        let pad = choose|pad: int| #[trigger] token_parts(out, token, pad, x.end);
        lemma_layout(t, ms, k);
        lemma_kept_bounds(t, ms, k);
        lemma_mask_chars();
        let a = kept_at(t, ms, k);
        let stop = a + kept_len(t, ms, k);
        let shift = kept_from(ms, k) - a;
        if pad > stop {
            assert(k < ms.len());
            assert(out[stop + 0] == '*');
            if stop < p + 6 {
                let i = stop - p;
                assert(out[p + i] == '*');
            } else if stop < token {
                assert(space_char(out[stop]));
            } else {
                assert(token_char(out[stop]));
            }
            assert(false);
        }
        assert forall|q: int| p <= q < pad implies #[trigger] out[q] == t[q + shift] by {
            assert(out[a + (q - a)] == t[kept_from(ms, k) + (q - a)]);
        }
        let o = p + shift;
        let w = seq!['b', 'e', 'a', 'r', 'e', 'r'];
        lemma_shift_reads(out, t, p, w, shift);
        assert forall|i: int| o + 6 <= i < token + shift implies space_char(#[trigger] t[i]) by {
            assert(out[i - shift] == t[i]);
        }
        assert forall|i: int| token + shift <= i < pad + shift implies token_char(#[trigger] t[i]) by {
            assert(out[i - shift] == t[i]);
        }
        lemma_token_completes(t, token + shift, pad + shift);
        let (pad2, end) = choose|pad: int, end: int| #[trigger]
            token_parts(t, token + shift, pad, end);
        let y = Secret { start: o, end, quote: None, token: Some(token + shift) };
        assert(is_bearer(t, o, token + shift, end));
        assert(is_secret(t, y));
        lemma_start_in_kept(t, ms, k, y);
        assert(mask_from(ms[k]) == token + shift);
    }
}

/// No UUID and no long run of hexadecimal digits is found in the masked text.
proof fn lemma_masked_hex(t: Seq<char>, ms: Seq<Secret>, x: Secret, k: int)
    requires
        leftmost(t, ms, 0),
        x.quote is None && x.token is None,
        0 <= k <= ms.len(),
        kept_at(t, ms, k) <= x.start < kept_at(t, ms, k) + kept_len(t, ms, k),
    ensures
        !is_secret(masked(t, ms), x),
{
    let out = masked(t, ms);
    if is_secret(out, x) {
        let p = x.start;
        lemma_layout(t, ms, k);
        lemma_kept_bounds(t, ms, k);
        lemma_mask_chars();
        lemma_secret_bounds(out, x);
        let a = kept_at(t, ms, k);
        let stop = a + kept_len(t, ms, k);
        let shift = kept_from(ms, k) - a;
        assert forall|q: int| p <= q < x.end implies hex_char(#[trigger] out[q]) || out[q] == '-' by {
        }
        assert(hex_char(out[p]) && hex_char(out[x.end - 1]));
        if x.end > stop {
            assert(k < ms.len());
            assert(out[stop + 0] == '*');
            assert(hex_char(out[stop]) || out[stop] == '-');
            assert(false);
        }
        assert forall|q: int| p <= q < x.end implies #[trigger] out[q] == t[q + shift] by {
            assert(out[a + (q - a)] == t[kept_from(ms, k) + (q - a)]);
        }
        let o = p + shift;
        let e = x.end + shift;
        assert(t[o] == out[p]);
        assert(t[e - 1] == out[x.end - 1]);
        assert(word_boundary(t, o)) by {
            if p > a {
                assert(out[a + (p - 1 - a)] == t[kept_from(ms, k) + (p - 1 - a)]);
            } else if k > 0 {
                let m = ms[k - 1];
                lemma_leftmost_at(t, ms, 0, k - 1);
                if m.token is Some {
                    let pad = choose|pad: int| #[trigger] token_parts(t, m.token->0, pad, m.end);
                    assert(token_char(t[o]));
                    assert(t[o - 1] == '=');
                } else if m.quote is None {
                    assert(hex_char(t[m.end - 1]));
                }
            }
        }
        assert(word_boundary(t, e)) by {
            if x.end < stop {
                assert(out[a + (x.end - a)] == t[kept_from(ms, k) + (x.end - a)]);
            } else if k < ms.len() {
                let m = ms[k];
                lemma_leftmost_at(t, ms, 0, k);
                if m.token is Some {
                    assert(space_char(t[e - 1]));
                } else if m.quote is None {
                    lemma_first_char(t, m);
                    assert(hex_char(t[e]));
                }
            }
        }
        let y = Secret { start: o, end: e, quote: None, token: None };
        if is_uuid(out, p, x.end) {
            assert forall|i: int| o <= i < e implies #[trigger] t[i] == out[i - shift] by {
                assert(out[i - shift] == t[i]);
            }
            assert(is_uuid(t, o, e));
        } else {
            assert forall|i: int| o <= i < e implies hex_char(#[trigger] t[i]) by {
                assert(out[i - shift] == t[i]);
            }
            assert(is_long_hex(t, o, e));
        }
        assert(is_secret(t, y));
        lemma_start_in_kept(t, ms, k, y);
    }
}

/// No secret survives masking: whatever still has the shape of a secret in a
/// masked text is an assignment whose literal is the mask itself.
pub proof fn law_no_secret_survives(t: Seq<char>, x: Secret)
    requires
        is_secret(redacted(t), x),
    ensures
        x.quote is Some,
        redacted(t).subrange(mask_from(x), mask_to(x)) == MASK@,
{
    let ms = secrets(t);
    lemma_secrets_leftmost(t, 0);
    let out = masked(t, ms);
    lemma_secret_bounds(out, x);
    let k = lemma_locate(t, ms, x.start, ms.len() as int);
    lemma_layout(t, ms, k);
    if x.start >= kept_at(t, ms, k) + kept_len(t, ms, k) {
        lemma_mask_starts_nothing(out, x, kept_at(t, ms, k) + kept_len(t, ms, k));
    } else if x.quote is Some {
        lemma_masked_assignment(t, ms, x, k);
    } else if x.token is Some {
        lemma_masked_bearer(t, ms, x, k);
    } else {
        lemma_masked_hex(t, ms, x, k);
    }
}

/// Masking what is the mask already changes nothing.
proof fn lemma_mask_of_masks(t: Seq<char>, ms: Seq<Secret>, k: int)
    requires
        leftmost(t, ms, 0),
        0 <= k <= ms.len(),
        forall|i: int|
            0 <= i < ms.len() ==> t.subrange(mask_from(#[trigger] ms[i]), mask_to(ms[i])) == MASK@,
    ensures
        masked_until(t, ms, k) == t.take(kept_from(ms, k)),
    decreases k,
{
    if k > 0 {
        lemma_mask_of_masks(t, ms, k - 1);
        lemma_kept_bounds(t, ms, k - 1);
        lemma_kept_bounds(t, ms, k);
        lemma_leftmost_at(t, ms, 0, k - 1);
        let m = ms[k - 1];
        assert(t.take(mask_to(m)) =~= t.take(kept_from(ms, k - 1)) + t.subrange(
            kept_from(ms, k - 1),
            mask_from(m),
        ) + t.subrange(mask_from(m), mask_to(m)));
    } else {
        assert(t.take(0) =~= Seq::<char>::empty());
    }
}

/// Redaction is idempotent: redacting a redacted text gives it back.
pub proof fn law_redaction_is_idempotent(t: Seq<char>)
    ensures
        redacted(redacted(t)) == redacted(t),
{
    let out = redacted(t);
    let ms = secrets(out);
    lemma_secrets_leftmost(out, 0);
    assert forall|i: int| 0 <= i < ms.len() implies out.subrange(
        mask_from(#[trigger] ms[i]),
        mask_to(ms[i]),
    ) == MASK@ by {
        lemma_leftmost_at(out, ms, 0, i);
        law_no_secret_survives(t, ms[i]);
    }
    let n = ms.len() as int;
    lemma_mask_of_masks(out, ms, n);
    lemma_kept_bounds(out, ms, n);
    assert(out =~= out.take(kept_from(ms, n)) + out.subrange(kept_from(ms, n), out.len() as int));
}

/// Text without a secret comes back as it is.
pub proof fn law_plain_text_is_kept(t: Seq<char>)
    requires
        forall|m: Secret| !#[trigger] is_secret(t, m),
    ensures
        secrets(t).len() == 0,
        redacted(t) == t,
{
    lemma_secrets_leftmost(t, 0);
    if secrets(t).len() > 0 {
        lemma_leftmost_at(t, secrets(t), 0, 0);
    }
    assert(redacted(t) =~= t);
}

/// Text with a secret comes back with a mask in it.
pub proof fn law_secrets_are_masked(t: Seq<char>, m: Secret)
    requires
        is_secret(t, m),
    ensures
        secrets(t).len() > 0,
        crate::text::occurs(redacted(t), MASK@),
{
    let ms = secrets(t);
    lemma_secrets_leftmost(t, 0);
    lemma_secret_bounds(t, m);
    if ms.len() == 0 {
        assert(starts_secret(t, m.start));
        lemma_gap_is_plain(t, ms, 0, 0, m.start);
    }
    lemma_layout(t, ms, 0);
    lemma_mask_chars();
    let at = kept_at(t, ms, 0) + kept_len(t, ms, 0);
    assert forall|q: int| at <= q < at + 14 implies #[trigger] redacted(t)[q] == MASK@[q - at] by {
        assert(redacted(t)[at + (q - at)] == MASK@[q - at]);
    }
    assert(redacted(t).subrange(at, at + 14) =~= MASK@);
    assert(crate::text::occurs_at(redacted(t), MASK@, at));
}

/// The mask itself is never masked.
pub proof fn law_mask_is_plain()
    ensures
        secrets(MASK@).len() == 0,
        redacted(MASK@) == MASK@,
{
    assert forall|m: Secret| !#[trigger] is_secret(MASK@, m) by {
        if is_secret(MASK@, m) {
            lemma_mask_chars();
            lemma_first_char(MASK@, m);
            lemma_mask_starts_nothing(MASK@, m, 0);
        }
    }
    law_plain_text_is_kept(MASK@);
}

/// Masking a variable twice is masking it once.
pub proof fn law_variable_redaction_is_idempotent(v: (Seq<char>, Seq<char>))
    ensures
        redacted_variable(redacted_variable(v)) == redacted_variable(v),
{
    if !secret_name(ascii_lowercase(trim(v.0))) {
        law_redaction_is_idempotent(v.1);
    }
}

} // verus!
