//! What redaction hides: variables by their names, and texts by the shapes of the
//! secrets in them.

use crate::redact::{redacted_value, redacted_variable, secret_name};
use crate::secrets::{
    all_space, all_token, assignment_parts, folds_to, is_assignment, is_bearer, is_long_hex,
    is_secret, is_uuid, key_word, leftmost, lemma_first_char, lemma_leftmost_unique,
    lemma_secrets_leftmost, masked, masked_until, no_quote, reads, redacted, secrets, starts_secret,
    token_parts, word_boundary, word_char, MASK, Secret,
};
use crate::text::{ascii_lowercase, white_space};
use crate::text_laws::{bare, blank, law_ascii_lowercase, law_trim};
use vstd::prelude::*;

verus! {

// ---------------------------------------------------------------------------
// Names
// ---------------------------------------------------------------------------

/// The names of variables that are secret whatever they hold.
pub open spec fn secret_names() -> Seq<Seq<char>> {
    seq![
        "password"@,
        "passwd"@,
        "pwd"@,
        "secret"@,
        "key"@,
        "apikey"@,
        "api_key"@,
        "token"@,
        "access_token"@,
        "refresh_token"@,
        "private_key"@,
        "client_secret"@,
        "auth"@,
        "authorization"@,
        "credential"@,
        "credentials"@,
    ]
}

/// The text reads as `name`, capital letters of ASCII standing for small ones.
pub open spec fn spells(text: Seq<char>, name: Seq<char>) -> bool {
    &&& text.len() == name.len()
    &&& forall|k: int|
        0 <= k < name.len() ==> (#[trigger] text[k] == name[k] || (65 <= text[k] as int <= 90
            && text[k] as int + 32 == name[k] as int))
}

proof fn lemma_names_are_small_letters(i: int)
    requires
        0 <= i < secret_names().len(),
    ensures
        secret_names()[i].len() > 0,
        97 <= secret_names()[i][0] as int <= 122,
        97 <= secret_names()[i].last() as int <= 122,
        secret_name(secret_names()[i]),
{
    reveal_strlit("password");
    reveal_strlit("passwd");
    reveal_strlit("pwd");
    reveal_strlit("secret");
    reveal_strlit("key");
    reveal_strlit("apikey");
    reveal_strlit("api_key");
    reveal_strlit("token");
    reveal_strlit("access_token");
    reveal_strlit("refresh_token");
    reveal_strlit("private_key");
    reveal_strlit("client_secret");
    reveal_strlit("auth");
    reveal_strlit("authorization");
    reveal_strlit("credential");
    reveal_strlit("credentials");
}

proof fn lemma_spelled_is_lower(text: Seq<char>, name: Seq<char>)
    requires
        spells(text, name),
        forall|k: int| 0 <= k < name.len() ==> !(65 <= #[trigger] name[k] as int <= 90),
    ensures
        ascii_lowercase(text) == name,
{
    assert forall|k: int| 0 <= k < name.len() implies ascii_lowercase(text)[k] == name[k] by {
        law_ascii_lowercase(text, k);
        assert(text[k] == name[k] || (65 <= text[k] as int <= 90 && text[k] as int + 32
            == name[k] as int));
        assert(!(65 <= name[k] as int <= 90));
    }
    assert(ascii_lowercase(text) =~= name);
}

proof fn lemma_names_have_no_capitals(i: int, k: int)
    requires
        0 <= i < secret_names().len(),
        0 <= k < secret_names()[i].len(),
    ensures
        !(65 <= secret_names()[i][k] as int <= 90),
{
    reveal_strlit("password");
    reveal_strlit("passwd");
    reveal_strlit("pwd");
    reveal_strlit("secret");
    reveal_strlit("key");
    reveal_strlit("apikey");
    reveal_strlit("api_key");
    reveal_strlit("token");
    reveal_strlit("access_token");
    reveal_strlit("refresh_token");
    reveal_strlit("private_key");
    reveal_strlit("client_secret");
    reveal_strlit("auth");
    reveal_strlit("authorization");
    reveal_strlit("credential");
    reveal_strlit("credentials");
}

/// A variable with one of the secret names, in whatever case and with white space
/// around it, keeps its name and loses all of its value.
pub proof fn law_secret_names_hide_their_values(
    i: int,
    before: Seq<char>,
    core: Seq<char>,
    after: Seq<char>,
    value: Seq<char>,
)
    requires
        0 <= i < secret_names().len(),
        spells(core, secret_names()[i]),
        blank(before),
        blank(after),
    ensures
        redacted_variable((before + core + after, value)) == (
            before + core + after,
            "***REDACTED***"@,
        ),
        redacted_value(before + core + after, value) == "***REDACTED***"@,
{
    let name = secret_names()[i];
    lemma_names_are_small_letters(i);
    assert forall|k: int| 0 <= k < name.len() implies !(65 <= #[trigger] name[k] as int <= 90) by {
        lemma_names_have_no_capitals(i, k);
    }
    lemma_spelled_is_lower(core, name);
    assert(core[0] == name[0] || core[0] as int + 32 == name[0] as int);
    let l = core.len() - 1;
    assert(core[l] == name[l] || core[l] as int + 32 == name[l] as int);
    assert(bare(core));
    law_trim(before, core, after);
}

/// A variable with another name keeps it, and of its value only what has the
/// shape of a secret is hidden.
pub proof fn law_other_names_show_their_values(
    before: Seq<char>,
    core: Seq<char>,
    after: Seq<char>,
    value: Seq<char>,
)
    requires
        forall|i: int| 0 <= i < secret_names().len() ==> !spells(core, #[trigger] secret_names()[i]),
        bare(core),
        blank(before),
        blank(after),
    ensures
        redacted_variable((before + core + after, value)) == (
            before + core + after,
            redacted(value),
        ),
{
    law_trim(before, core, after);
    let lower = ascii_lowercase(core);
    if secret_name(lower) {
        let names = secret_names();
        assert forall|i: int| 0 <= i < names.len() implies lower != #[trigger] names[i] by {
            assert(!spells(core, secret_names()[i]));
            if lower == names[i] {
                assert forall|k: int| 0 <= k < names[i].len() implies (#[trigger] core[k]
                    == names[i][k] || (65 <= core[k] as int <= 90 && core[k] as int + 32
                    == names[i][k] as int)) by {
                    law_ascii_lowercase(core, k);
                }
                assert(spells(core, names[i]));
            }
        }
        assert(names[0] == "password"@ && names[1] == "passwd"@ && names[2] == "pwd"@ && names[3]
            == "secret"@ && names[4] == "key"@ && names[5] == "apikey"@ && names[6] == "api_key"@
            && names[7] == "token"@ && names[8] == "access_token"@ && names[9]
            == "refresh_token"@ && names[10] == "private_key"@ && names[11] == "client_secret"@
            && names[12] == "auth"@ && names[13] == "authorization"@ && names[14]
            == "credential"@ && names[15] == "credentials"@);
    }
}

// ---------------------------------------------------------------------------
// Shapes
// ---------------------------------------------------------------------------

/// The text holds only blanks and punctuation of ASCII: no letter, no digit, no
/// underscore.
pub open spec fn only_marks(s: Seq<char>) -> bool {
    forall|i: int|
        0 <= i < s.len() ==> ({
            let n = (#[trigger] s[i]) as int;
            n < 128 && !(48 <= n <= 57) && !(65 <= n <= 90) && !(97 <= n <= 122) && n != 95
        })
}

/// A hexadecimal digit.
pub open spec fn is_hex(c: char) -> bool {
    let n = c as int;
    48 <= n <= 57 || 97 <= n <= 102 || 65 <= n <= 70
}

/// A character that a bearer token may hold.
pub open spec fn is_token(c: char) -> bool {
    let n = c as int;
    48 <= n <= 57 || 65 <= n <= 90 || 97 <= n <= 122 || c == '-' || c == '.' || c == '_' || c
        == '~' || c == '+' || c == '/'
}

proof fn lemma_code(c: char)
    ensures
        0 <= c as int,
        c as u32 == c as int,
{
}

proof fn lemma_marks_start_nothing(t: Seq<char>, p: int)
    requires
        0 <= p < t.len(),
        ({
            let n = t[p] as int;
            n < 128 && !(48 <= n <= 57) && !(65 <= n <= 90) && !(97 <= n <= 122) && n != 95
        }),
    ensures
        !starts_secret(t, p),
{
    if starts_secret(t, p) {
        let m = choose|m: Secret| #[trigger] is_secret(t, m) && m.start == p;
        lemma_first_char(t, m);
        lemma_code(t[p]);
        if m.quote is None && m.token is None {
            assert(crate::secrets::hex_char(t[p]));
        }
    }
}

/// One secret among marks is all that is masked.
proof fn lemma_single(t: Seq<char>, m: Secret, before: Seq<char>, after: Seq<char>)
    requires
        is_secret(t, m),
        only_marks(before),
        only_marks(after),
        m.start == before.len(),
        0 <= m.start < m.end <= t.len(),
        m.end == t.len() - after.len(),
        t.take(m.start) == before,
        t.skip(m.end) == after,
    ensures
        secrets(t) == seq![m],
        redacted(t) == t.take(crate::secrets::mask_from(m)) + "***REDACTED***"@ + t.skip(
            crate::secrets::mask_to(m),
        ),
{
    let ms = seq![m];
    assert forall|p: int| 0 <= p < m.start || m.end <= p < t.len() implies !#[trigger] starts_secret(
        t,
        p,
    ) by {
        if p < m.start {
            assert(t.take(m.start)[p] == t[p]);
            assert(before[p] == t[p]);
        } else {
            assert(t.skip(m.end)[p - m.end] == t[p]);
            assert(after[p - m.end] == t[p]);
        }
        lemma_marks_start_nothing(t, p);
    }
    assert(leftmost(t, ms, 0)) by {
        reveal(leftmost);
    }
    lemma_secrets_leftmost(t, 0);
    lemma_leftmost_unique(t, secrets(t), ms, 0);
    crate::secrets::lemma_secret_bounds(t, m);
    reveal_with_fuel(masked_until, 2);
    let a = crate::secrets::mask_from(m);
    let b = crate::secrets::mask_to(m);
    assert(t.subrange(0, a) =~= t.take(a));
    assert(t.subrange(b, t.len() as int) =~= t.skip(b));
    assert(masked(t, ms) =~= t.take(a) + MASK@ + t.skip(b));
}

/// Thirty-two or more hexadecimal digits that stand alone are masked.
pub proof fn law_long_hex_is_hidden(before: Seq<char>, h: Seq<char>, after: Seq<char>)
    requires
        only_marks(before),
        only_marks(after),
        h.len() >= 32,
        forall|i: int| 0 <= i < h.len() ==> is_hex(#[trigger] h[i]),
    ensures
        redacted(before + h + after) == before + "***REDACTED***"@ + after,
{
    let t = before + h + after;
    let s = before.len() as int;
    let e = s + h.len();
    let m = Secret { start: s, end: e, quote: None, token: None };
    assert forall|k: int| s <= k < e implies crate::secrets::hex_char(#[trigger] t[k]) by {
        assert(is_hex(h[k - s]));
    }
    lemma_edges(t, before, after, s, e);
    assert(is_long_hex(t, s, e));
    assert(t.take(s) =~= before);
    assert(t.skip(e) =~= after);
    lemma_single(t, m, before, after);
}

/// Where word characters stand between marks, they start and end a word.
proof fn lemma_edges(t: Seq<char>, before: Seq<char>, after: Seq<char>, s: int, e: int)
    requires
        only_marks(before),
        only_marks(after),
        s == before.len(),
        s < e,
        e == t.len() - after.len(),
        forall|i: int| 0 <= i < s ==> #[trigger] t[i] == before[i],
        forall|i: int| e <= i < t.len() ==> #[trigger] t[i] == after[i - e],
        crate::secrets::hex_char(t[s]),
        crate::secrets::hex_char(t[e - 1]),
    ensures
        word_boundary(t, s),
        word_boundary(t, e),
{
    lemma_code(t[s]);
    lemma_code(t[e - 1]);
    assert(word_char(t[s]) && word_char(t[e - 1]));
    if s > 0 {
        assert(t[s - 1] == before[s - 1]);
        lemma_code(t[s - 1]);
        assert(!word_char(t[s - 1]));
    }
    if e < t.len() {
        assert(t[e] == after[0]);
        lemma_code(t[e]);
        assert(!word_char(t[e]));
    }
}

/// An identifier of the fourth version, of the usual form, is masked.
pub proof fn law_random_identifiers_are_hidden(before: Seq<char>, u: Seq<char>, after: Seq<char>)
    requires
        only_marks(before),
        only_marks(after),
        u.len() == 36,
        forall|i: int|
            0 <= i < 36 && i != 8 && i != 13 && i != 18 && i != 23 ==> is_hex(#[trigger] u[i]),
        u[8] == '-' && u[13] == '-' && u[18] == '-' && u[23] == '-',
        u[14] == '4',
        u[19] == '8' || u[19] == '9' || u[19] == 'a' || u[19] == 'b' || u[19] == 'A' || u[19]
            == 'B',
    ensures
        redacted(before + u + after) == before + "***REDACTED***"@ + after,
{
    let t = before + u + after;
    let s = before.len() as int;
    let e = s + 36;
    let m = Secret { start: s, end: e, quote: None, token: None };
    assert forall|k: int|
        s <= k < e && k != s + 8 && k != s + 13 && k != s + 18 && k != s
            + 23 implies crate::secrets::hex_char(#[trigger] t[k]) by {
        assert(is_hex(u[k - s]));
    }
    assert(t[s + 8] == u[8] && t[s + 13] == u[13] && t[s + 18] == u[18] && t[s + 23] == u[23]);
    assert(t[s + 14] == u[14] && t[s + 19] == u[19]);
    assert(crate::secrets::hex_char(t[s]) && crate::secrets::hex_char(t[e - 1]));
    lemma_edges(t, before, after, s, e);
    assert(is_uuid(t, s, e));
    assert(t.take(s) =~= before);
    assert(t.skip(e) =~= after);
    lemma_single(t, m, before, after);
}

proof fn lemma_spelled_reads(t: Seq<char>, s: int, w: Seq<char>, name: Seq<char>)
    requires
        spells(w, name),
        0 <= s,
        s + w.len() <= t.len(),
        forall|k: int| 0 <= k < w.len() ==> #[trigger] t[s + k] == w[k],
    ensures
        reads(t, s, name),
{
    assert forall|k: int| 0 <= k < name.len() implies folds_to(#[trigger] t[s + k], name[k]) by {
        assert(w[k] == name[k] || (65 <= w[k] as int <= 90 && w[k] as int + 32
            == name[k] as int));
    }
}

/// Of `bearer`, white space, and a token of twelve or more characters, padded or
/// not, the token is masked.
pub proof fn law_bearer_tokens_are_hidden(
    before: Seq<char>,
    word: Seq<char>,
    gap: Seq<char>,
    token: Seq<char>,
    pad: Seq<char>,
    after: Seq<char>,
)
    requires
        only_marks(before),
        only_marks(after),
        spells(word, "bearer"@),
        blank(gap) && gap.len() > 0,
        token.len() >= 12,
        forall|i: int| 0 <= i < token.len() ==> is_token(#[trigger] token[i]),
        pad.len() <= 2,
        forall|i: int| 0 <= i < pad.len() ==> #[trigger] pad[i] == '=',
        after.len() > 0 ==> !is_token(after[0]) && after[0] != '=',
    ensures
        redacted(before + word + gap + token + pad + after) == before + word + gap
            + "***REDACTED***"@ + after,
{
    reveal_strlit("bearer");
    let t = before + word + gap + token + pad + after;
    let s = before.len() as int;
    let k = s + 6 + gap.len();
    let p = k + token.len();
    let e = p + pad.len();
    let m = Secret { start: s, end: e, quote: None, token: Some(k) };
    lemma_spelled_reads(t, s, word, "bearer"@);
    assert("bearer"@ =~= seq!['b', 'e', 'a', 'r', 'e', 'r']);
    assert forall|i: int| s + 6 <= i < k implies crate::secrets::space_char(#[trigger] t[i]) by {
        assert(white_space(gap[i - s - 6]));
    }
    assert forall|i: int| k <= i < p implies crate::secrets::token_char(#[trigger] t[i]) by {
        assert(is_token(token[i - k]));
    }
    assert forall|i: int| p <= i < e implies #[trigger] t[i] == '=' by {
        assert(pad[i - p] == '=');
    }
    if e < t.len() {
        assert(t[e] == after[0]);
    }
    if p < t.len() {
        if pad.len() > 0 {
            assert(t[p] == '=');
        }
        assert(!crate::secrets::token_char(t[p]));
    }
    assert(all_space(t, s + 6, k) && all_token(t, k, p));
    assert(token_parts(t, k, p, e));
    assert(is_bearer(t, s, k, e));
    assert(t.take(s) =~= before);
    assert(t.skip(e) =~= after);
    lemma_single(t, m, before, after);
    assert(t.take(k) =~= before + word + gap);
}

/// Of `password`, `secret` or `key`, an equals sign and a literal in single
/// quotes, what the literal holds is masked.
pub proof fn law_assigned_literals_are_hidden(
    before: Seq<char>,
    word: Seq<char>,
    gap: Seq<char>,
    more: Seq<char>,
    value: Seq<char>,
    after: Seq<char>,
)
    requires
        only_marks(before),
        only_marks(after),
        spells(word, "password"@) || spells(word, "secret"@) || spells(word, "key"@),
        blank(gap),
        blank(more),
        !value.contains('\''),
    ensures
        redacted(before + word + gap + "="@ + more + "'"@ + value + "'"@ + after) == before + word
            + gap + "="@ + more + "'"@ + "***REDACTED***"@ + "'"@ + after,
{
    reveal_strlit("password");
    reveal_strlit("secret");
    reveal_strlit("key");
    reveal_strlit("=");
    reveal_strlit("'");
    let t = before + word + gap + "="@ + more + "'"@ + value + "'"@ + after;
    let s = before.len() as int;
    let w = s + word.len();
    let q = w + gap.len();
    let o = q + 1 + more.len();
    let e = o + 1 + value.len() + 1;
    let m = Secret { start: s, end: e, quote: Some(o), token: None };
    assert forall|k: int| 0 <= k < word.len() implies #[trigger] t[s + k] == word[k] by {}
    if spells(word, "password"@) {
        lemma_spelled_reads(t, s, word, "password"@);
        assert("password"@ =~= seq!['p', 'a', 's', 's', 'w', 'o', 'r', 'd']);
    } else if spells(word, "secret"@) {
        lemma_spelled_reads(t, s, word, "secret"@);
        assert("secret"@ =~= seq!['s', 'e', 'c', 'r', 'e', 't']);
    } else {
        lemma_spelled_reads(t, s, word, "key"@);
        assert("key"@ =~= seq!['k', 'e', 'y']);
    }
    assert(key_word(t, s, w));
    assert forall|i: int| w <= i < q implies crate::secrets::space_char(#[trigger] t[i]) by {
        assert(white_space(gap[i - w]));
    }
    assert forall|i: int| q + 1 <= i < o implies crate::secrets::space_char(#[trigger] t[i]) by {
        assert(white_space(more[i - q - 1]));
    }
    assert forall|i: int| o + 1 <= i < e - 1 implies #[trigger] t[i] != '\'' by {
        assert(value.contains(value[i - o - 1]));
    }
    assert(t[q] == '=' && t[o] == '\'' && t[e - 1] == '\'');
    assert(assignment_parts(t, s, w, q, o));
    assert(no_quote(t, o + 1, e - 1));
    assert(is_assignment(t, s, o, e));
    assert(t.take(s) =~= before);
    assert(t.skip(e) =~= after);
    lemma_single(t, m, before, after);
    assert(t.take(o + 1) =~= before + word + gap + "="@ + more + "'"@);
    assert(t.skip(e - 1) =~= "'"@ + after);
    assert(t.take(o + 1) + "***REDACTED***"@ + t.skip(e - 1) =~= before + word + gap + "="@ + more
        + "'"@ + "***REDACTED***"@ + "'"@ + after);
}

/// A character is a letter, small or capital.
pub open spec fn is_letter(c: char, small: char, capital: char) -> bool {
    c == small || c == capital
}

/// The word `bearer`, in whatever case, stands in a text at a place.
pub open spec fn says_bearer(t: Seq<char>, i: int) -> bool {
    &&& 0 <= i
    &&& i + 6 <= t.len()
    &&& is_letter(t[i], 'b', 'B')
    &&& is_letter(t[i + 1], 'e', 'E')
    &&& is_letter(t[i + 2], 'a', 'A')
    &&& is_letter(t[i + 3], 'r', 'R')
    &&& is_letter(t[i + 4], 'e', 'E')
    &&& is_letter(t[i + 5], 'r', 'R')
}

/// A text without a single quote, without the word `bearer`, and without
/// thirty-two hexadecimal digits in a row, is shown as it is where it also has no
/// hyphen.
pub proof fn law_plain_words_are_shown(t: Seq<char>)
    requires
        !t.contains('\''),
        !t.contains('-'),
        forall|i: int| !#[trigger] says_bearer(t, i),
        forall|i: int|
            #![trigger t[i]]
            0 <= i && i + 32 <= t.len() ==> exists|k: int|
                i <= k < i + 32 && !is_hex(#[trigger] t[k]),
    ensures
        redacted(t) == t,
{
    assert forall|m: Secret| !#[trigger] crate::secrets::is_secret(t, m) by {
        if crate::secrets::is_secret(t, m) {
            match (m.quote, m.token) {
                (Some(quote), None) => {
                    assert(t[quote] == '\'');
                    assert(t.contains(t[quote]));
                },
                (None, Some(token)) => {
                    let w = seq!['b', 'e', 'a', 'r', 'e', 'r'];
                    let s = m.start;
                    assert(crate::secrets::reads(t, s, w));
                    assert forall|k: int| 0 <= k < 6 implies crate::secrets::folds_to(
                        #[trigger] t[s + k],
                        w[k],
                    ) by {}
                    assert(w[0] == 'b' && w[1] == 'e' && w[2] == 'a' && w[3] == 'r' && w[4] == 'e'
                        && w[5] == 'r');
                    lemma_folds(t[s + 0], 'b', 'B');
                    lemma_folds(t[s + 1], 'e', 'E');
                    lemma_folds(t[s + 2], 'a', 'A');
                    lemma_folds(t[s + 3], 'r', 'R');
                    lemma_folds(t[s + 4], 'e', 'E');
                    lemma_folds(t[s + 5], 'r', 'R');
                    assert(says_bearer(t, s));
                },
                _ => {
                    let s = m.start;
                    if crate::secrets::is_uuid(t, s, m.end) {
                        assert(t[s + 8] == '-');
                        assert(t.contains(t[s + 8]));
                    } else {
                        let i = s;
                        assert(0 <= i && i + 32 <= t.len());
                        let c = t[i];
                        let k = choose|k: int| i <= k < i + 32 && !is_hex(#[trigger] t[k]);
                        assert(crate::secrets::hex_char(t[k]));
                    }
                },
            }
        }
    }
    crate::masking::law_plain_text_is_kept(t);
}

proof fn lemma_folds(c: char, small: char, capital: char)
    requires
        crate::secrets::folds_to(c, small),
        capital as u32 + 32 == small as u32,
        small != 's',
        small != 'k',
    ensures
        is_letter(c, small, capital),
{
}

/// Masking goes secret by secret: without one the text stays, and of the last one
/// what is to be hidden is masked, what stands behind it stays, and what stands
/// before it is masked by itself.
pub proof fn law_masking_goes_secret_by_secret(t: Seq<char>, ms: Seq<Secret>, m: Secret)
    requires
        crate::redact::in_order(t, ms.push(m)),
    ensures
        masked(t, Seq::<Secret>::empty()) == t,
        masked(t, ms.push(m)) == masked(t.take(crate::secrets::mask_from(m)), ms)
            + "***REDACTED***"@ + t.skip(crate::secrets::mask_to(m)),
{
    let all = ms.push(m);
    let a = crate::secrets::mask_from(m);
    let b = crate::secrets::mask_to(m);
    let n = ms.len() as int;
    assert(masked(t, Seq::<Secret>::empty()) =~= t);
    assert(all[n] == m);
    assert(0 <= crate::secrets::kept_from(all, n) <= a <= b <= t.len());
    lemma_masked_before(t, ms, m, n);
    let before = t.take(a);
    assert(crate::secrets::kept_from(all, n) == crate::secrets::kept_from(ms, n));
    assert(before.subrange(crate::secrets::kept_from(ms, n), a) =~= t.subrange(
        crate::secrets::kept_from(ms, n),
        a,
    ));
    assert(t.subrange(b, t.len() as int) =~= t.skip(b));
    assert(crate::secrets::masked_until(t, all, n + 1) == crate::secrets::masked_until(t, all, n)
        + t.subrange(crate::secrets::kept_from(all, n), a) + MASK@);
    assert(masked(t, all) =~= masked(before, ms) + MASK@ + t.skip(b));
}

proof fn lemma_masked_before(t: Seq<char>, ms: Seq<Secret>, m: Secret, k: int)
    requires
        crate::redact::in_order(t, ms.push(m)),
        0 <= k <= ms.len(),
    ensures
        crate::secrets::masked_until(t, ms.push(m), k) == crate::secrets::masked_until(
            t.take(crate::secrets::mask_from(m)),
            ms,
            k,
        ),
    decreases k,
{
    let all = ms.push(m);
    let a = crate::secrets::mask_from(m);
    if k > 0 {
        lemma_masked_before(t, ms, m, k - 1);
        assert(all[k - 1] == ms[k - 1]);
        assert(all[ms.len() as int] == m);
        lemma_bounded(t, ms, m, k - 1);
        let from = crate::secrets::kept_from(all, k - 1);
        let to = crate::secrets::mask_from(all[k - 1]);
        assert(from == crate::secrets::kept_from(ms, k - 1));
        assert(t.subrange(from, to) =~= t.take(a).subrange(from, to));
    }
}

/// What is kept before a secret that is not the last one ends before the last one.
proof fn lemma_bounded(t: Seq<char>, ms: Seq<Secret>, m: Secret, k: int)
    requires
        crate::redact::in_order(t, ms.push(m)),
        0 <= k < ms.len(),
    ensures
        0 <= crate::secrets::kept_from(ms.push(m), k) <= crate::secrets::mask_from(
            ms.push(m)[k],
        ) <= crate::secrets::mask_from(m),
    decreases ms.len() - k,
{
    let all = ms.push(m);
    assert(0 <= crate::secrets::kept_from(all, k) <= crate::secrets::mask_from(all[k])
        <= crate::secrets::mask_to(all[k]));
    assert(0 <= crate::secrets::kept_from(all, k + 1) <= crate::secrets::mask_from(all[k + 1]));
    assert(crate::secrets::kept_from(all, k + 1) == crate::secrets::mask_to(all[k]));
    if k + 1 < ms.len() {
        lemma_bounded(t, ms, m, k + 1);
    } else {
        assert(all[k + 1] == m);
    }
}

/// An identifier of the usual form that is not of the fourth version, or not of the
/// usual variant, is shown as it is.
pub proof fn law_other_identifiers_are_shown(u: Seq<char>)
    requires
        u.len() == 36,
        forall|i: int|
            0 <= i < 36 && i != 8 && i != 13 && i != 18 && i != 23 ==> is_hex(#[trigger] u[i]),
        u[8] == '-' && u[13] == '-' && u[18] == '-' && u[23] == '-',
        u[14] != '4' || !(u[19] == '8' || u[19] == '9' || u[19] == 'a' || u[19] == 'b' || u[19]
            == 'A' || u[19] == 'B'),
    ensures
        redacted(u) == u,
{
    assert forall|m: Secret| !#[trigger] crate::secrets::is_secret(u, m) by {
        if crate::secrets::is_secret(u, m) {
            match (m.quote, m.token) {
                (Some(quote), None) => {
                    assert(u[quote] == '\'');
                    assert(is_hex(u[quote]) || u[quote] == '-');
                },
                (None, Some(token)) => {
                    let w = seq!['b', 'e', 'a', 'r', 'e', 'r'];
                    let s = m.start;
                    assert(crate::secrets::reads(u, s, w));
                    assert(crate::secrets::folds_to(u[s + 3], w[3]));
                    assert(w[3] == 'r');
                    lemma_folds(u[s + 3], 'r', 'R');
                    assert(is_hex(u[s + 3]) || u[s + 3] == '-');
                },
                _ => {
                    let s = m.start;
                    if crate::secrets::is_uuid(u, s, m.end) {
                        assert(s == 0);
                        assert(u[s + 14] == u[14] && u[s + 19] == u[19]);
                    } else {
                        assert(0 <= s <= 4);
                        assert(crate::secrets::hex_char(u[8]));
                    }
                },
            }
        }
    }
    crate::masking::law_plain_text_is_kept(u);
}

/// What follows `bearer` is shown as it is where it is too short for a token.
pub proof fn law_short_tokens_are_shown(word: Seq<char>, gap: Seq<char>, digits: Seq<char>)
    requires
        spells(word, "bearer"@),
        blank(gap),
        gap.len() > 0,
        digits.len() < 12,
        forall|i: int| 0 <= i < digits.len() ==> '0' <= #[trigger] digits[i] <= '9',
    ensures
        redacted(word + gap + digits) == word + gap + digits,
{
    reveal_strlit("bearer");
    let t = word + gap + digits;
    let n = 6 + gap.len() as int;
    assert(word.len() == 6);
    assert forall|i: int| 0 <= i < t.len() implies (i < 6 ==> #[trigger] t[i] == word[i]) && (6 <= i
        < n ==> t[i] == gap[i - 6] && white_space(t[i])) && (n <= i ==> t[i] == digits[i - n] && '0'
        <= t[i] <= '9') by {
        if 6 <= i < n {
            assert(white_space(gap[i - 6]));
        } else if n <= i {
            assert('0' <= digits[i - n] <= '9');
        }
    }
    lemma_spelled_bearer(word);
    assert forall|i: int| 0 <= i < t.len() implies #[trigger] t[i] != '\'' && t[i] != '-' && (i >= 1
        ==> t[i] != 'b' && t[i] != 'B') by {
        if 6 <= i < n {
            crate::text_laws::law_white_space(t[i]);
        } else if i < 6 {
            assert(t[i] == word[i]);
        }
    }
    assert forall|m: Secret| !#[trigger] crate::secrets::is_secret(t, m) by {
        if crate::secrets::is_secret(t, m) {
            let s = m.start;
            match (m.quote, m.token) {
                (Some(quote), None) => {
                    assert(t[quote] == '\'');
                },
                (None, Some(token)) => {
                    let w = seq!['b', 'e', 'a', 'r', 'e', 'r'];
                    assert(crate::secrets::reads(t, s, w));
                    assert(crate::secrets::folds_to(t[s + 0], w[0]));
                    assert(w[0] == 'b');
                    lemma_folds(t[s + 0], 'b', 'B');
                    assert(s == 0);
                    let pad = choose|pad: int| #[trigger]
                        crate::secrets::token_parts(t, token, pad, m.end);
                    assert(crate::secrets::token_char(t[token]));
                    if token < n {
                        crate::text_laws::law_white_space(t[token]);
                    } else if token > n {
                        assert(crate::secrets::space_char(t[n]));
                        crate::text_laws::law_white_space(t[n]);
                    }
                },
                _ => {
                    if crate::secrets::is_uuid(t, s, m.end) {
                        assert(t[s + 8] == '-');
                    } else if s <= 3 {
                        assert(crate::secrets::hex_char(t[3]));
                    } else if s <= 6 {
                        assert(crate::secrets::hex_char(t[6]));
                        crate::text_laws::law_white_space(t[6]);
                    } else if s < n {
                        assert(crate::secrets::hex_char(t[s]));
                        crate::text_laws::law_white_space(t[s]);
                    }
                },
            }
        }
    }
    crate::masking::law_plain_text_is_kept(t);
}

proof fn lemma_spelled_bearer(word: Seq<char>)
    requires
        spells(word, "bearer"@),
    ensures
        word.len() == 6,
        forall|i: int|
            0 <= i < 6 ==> #[trigger] word[i] != '\'' && word[i] != '-' && (i >= 1 ==> word[i] != 'b'
                && word[i] != 'B'),
        !is_hex(word[3]),
{
    reveal_strlit("bearer");
    let b = "bearer"@;
    assert(b[0] == 'b' && b[1] == 'e' && b[2] == 'a' && b[3] == 'r' && b[4] == 'e' && b[5] == 'r');
    assert forall|i: int| 0 <= i < 6 implies #[trigger] word[i] != '\'' && word[i] != '-' && (i >= 1
        ==> word[i] != 'b' && word[i] != 'B') by {
        assert(b[i] == 'b' || b[i] == 'e' || b[i] == 'a' || b[i] == 'r');
    }
}

// ---------------------------------------------------------------------------
// What is left
// ---------------------------------------------------------------------------

/// A character that cannot be part of a word.
pub open spec fn is_mark(c: char) -> bool {
    let n = c as int;
    n < 128 && !(48 <= n <= 57) && !(65 <= n <= 90) && !(97 <= n <= 122) && n != 95
}

/// A part of a text has a mark, or nothing, on either side.
pub open spec fn stands_alone(t: Seq<char>, from: int, to: int) -> bool {
    &&& from > 0 ==> is_mark(t[from - 1])
    &&& to < t.len() ==> is_mark(t[to])
}

proof fn lemma_alone(t: Seq<char>, from: int, to: int)
    requires
        0 <= from < to <= t.len(),
        stands_alone(t, from, to),
        is_hex(t[from]),
        is_hex(t[to - 1]),
    ensures
        word_boundary(t, from),
        word_boundary(t, to),
{
    lemma_code(t[from]);
    lemma_code(t[to - 1]);
    assert(word_char(t[from]) && word_char(t[to - 1]));
    if from > 0 {
        lemma_code(t[from - 1]);
        assert(!word_char(t[from - 1]));
    }
    if to < t.len() {
        lemma_code(t[to]);
        assert(!word_char(t[to]));
    }
}

/// In no redacted text thirty-two or more hexadecimal digits stand alone.
pub proof fn law_no_long_hex_is_left(t: Seq<char>, from: int, to: int)
    requires
        0 <= from,
        from + 32 <= to <= redacted(t).len(),
        stands_alone(redacted(t), from, to),
    ensures
        exists|i: int| from <= i < to && !is_hex(#[trigger] redacted(t)[i]),
{
    let out = redacted(t);
    if forall|i: int| from <= i < to ==> is_hex(#[trigger] out[i]) {
        assert(is_hex(out[from]) && is_hex(out[to - 1]));
        lemma_alone(out, from, to);
        assert forall|k: int| from <= k < to implies crate::secrets::hex_char(#[trigger] out[k]) by {
            assert(is_hex(out[k]));
        }
        let x = Secret { start: from, end: to, quote: None, token: None };
        assert(is_long_hex(out, from, to));
        assert(crate::secrets::is_secret(out, x));
        crate::masking::law_no_secret_survives(t, x);
    }
}

/// In no redacted text an identifier of the fourth version stands alone.
pub proof fn law_no_random_identifier_is_left(t: Seq<char>, from: int)
    requires
        0 <= from,
        from + 36 <= redacted(t).len(),
        stands_alone(redacted(t), from, from + 36),
        forall|i: int|
            0 <= i < 36 && i != 8 && i != 13 && i != 18 && i != 23 ==> is_hex(
                #[trigger] redacted(t)[from + i],
            ),
        redacted(t)[from + 8] == '-' && redacted(t)[from + 13] == '-' && redacted(t)[from + 18]
            == '-' && redacted(t)[from + 23] == '-',
    ensures
        !(redacted(t)[from + 14] == '4' && (redacted(t)[from + 19] == '8' || redacted(t)[from + 19]
            == '9' || redacted(t)[from + 19] == 'a' || redacted(t)[from + 19] == 'b'
            || redacted(t)[from + 19] == 'A' || redacted(t)[from + 19] == 'B')),
{
    let out = redacted(t);
    let to = from + 36;
    if out[from + 14] == '4' && (out[from + 19] == '8' || out[from + 19] == '9' || out[from + 19]
        == 'a' || out[from + 19] == 'b' || out[from + 19] == 'A' || out[from + 19] == 'B') {
        assert(is_hex(out[from + 0]) && is_hex(out[from + 35]));
        lemma_alone(out, from, to);
        assert forall|k: int|
            from <= k < to && k != from + 8 && k != from + 13 && k != from + 18 && k != from
                + 23 implies crate::secrets::hex_char(#[trigger] out[k]) by {
            assert(is_hex(out[from + (k - from)]));
        }
        let x = Secret { start: from, end: to, quote: None, token: None };
        assert(crate::secrets::is_uuid(out, from, to));
        assert(crate::secrets::is_secret(out, x));
        crate::masking::law_no_secret_survives(t, x);
    }
}

/// Where the characters of a token end.
proof fn lemma_token_run(t: Seq<char>, from: int) -> (to: int)
    requires
        0 <= from <= t.len(),
    ensures
        from <= to <= t.len(),
        forall|k: int| from <= k < to ==> crate::secrets::token_char(#[trigger] t[k]),
        to == t.len() || !crate::secrets::token_char(t[to]),
    decreases t.len() - from,
{
    if from == t.len() || !crate::secrets::token_char(t[from]) {
        from
    } else {
        lemma_token_run(t, from + 1)
    }
}

/// In no redacted text `bearer` and white space stand before twelve characters of a
/// token.
pub proof fn law_no_bearer_token_is_left(t: Seq<char>, from: int, token: int)
    requires
        says_bearer(redacted(t), from),
        from + 6 < token,
        token + 12 <= redacted(t).len(),
        forall|i: int| from + 6 <= i < token ==> white_space(#[trigger] redacted(t)[i]),
    ensures
        exists|i: int| token <= i < token + 12 && !is_token(#[trigger] redacted(t)[i]),
{
    let out = redacted(t);
    if forall|i: int| token <= i < token + 12 ==> is_token(#[trigger] out[i]) {
        let w = seq!['b', 'e', 'a', 'r', 'e', 'r'];
        assert forall|k: int| 0 <= k < 6 implies crate::secrets::folds_to(
            #[trigger] out[from + k],
            w[k],
        ) by {
            lemma_code(out[from + k]);
            if k == 0 {
                assert(is_letter(out[from], 'b', 'B'));
            } else if k == 1 {
                assert(is_letter(out[from + 1], 'e', 'E'));
            } else if k == 2 {
                assert(is_letter(out[from + 2], 'a', 'A'));
            } else if k == 3 {
                assert(is_letter(out[from + 3], 'r', 'R'));
            } else if k == 4 {
                assert(is_letter(out[from + 4], 'e', 'E'));
            } else {
                assert(is_letter(out[from + 5], 'r', 'R'));
            }
        }
        assert(crate::secrets::reads(out, from, w));
        let pad = lemma_token_run(out, token);
        if pad < token + 12 {
            assert(is_token(out[pad]));
            lemma_code(out[pad]);
        }
        let end = if pad + 2 <= out.len() && out[pad] == '=' && out[pad + 1] == '=' {
            pad + 2
        } else if pad + 1 <= out.len() && out[pad] == '=' {
            pad + 1
        } else {
            pad
        };
        assert(crate::secrets::token_parts(out, token, pad, end));
        assert(crate::secrets::is_bearer(out, from, token, end));
        let x = Secret { start: from, end, quote: None, token: Some(token) };
        assert(crate::secrets::is_secret(out, x));
        crate::masking::law_no_secret_survives(t, x);
    }
}

/// In every redacted text what is assigned in single quotes to `password`, `secret`
/// or `key` is the mask.
pub proof fn law_assigned_literals_are_masks(
    t: Seq<char>,
    from: int,
    word: int,
    sign: int,
    quote: int,
    end: int,
)
    requires
        0 <= from < word <= sign < quote < end < redacted(t).len(),
        ({
            let name = redacted(t).subrange(from, word);
            spells(name, "password"@) || spells(name, "secret"@) || spells(name, "key"@)
        }),
        forall|i: int| word <= i < sign ==> white_space(#[trigger] redacted(t)[i]),
        redacted(t)[sign] == '=',
        forall|i: int| sign < i < quote ==> white_space(#[trigger] redacted(t)[i]),
        redacted(t)[quote] == '\'',
        forall|i: int| quote < i < end ==> #[trigger] redacted(t)[i] != '\'',
        redacted(t)[end] == '\'',
    ensures
        redacted(t).subrange(quote + 1, end) == "***REDACTED***"@,
{
    let out = redacted(t);
    let name = out.subrange(from, word);
    lemma_key_word(out, from, word);
    assert(crate::secrets::assignment_parts(out, from, word, sign, quote));
    assert(crate::secrets::is_assignment(out, from, quote, end + 1));
    let x = Secret { start: from, end: end + 1, quote: Some(quote), token: None };
    assert(crate::secrets::is_secret(out, x));
    crate::masking::law_no_secret_survives(t, x);
}

proof fn lemma_key_word(t: Seq<char>, from: int, to: int)
    requires
        0 <= from < to <= t.len(),
        ({
            let name = t.subrange(from, to);
            spells(name, "password"@) || spells(name, "secret"@) || spells(name, "key"@)
        }),
    ensures
        crate::secrets::key_word(t, from, to),
{
    reveal_strlit("password");
    reveal_strlit("secret");
    reveal_strlit("key");
    let name = t.subrange(from, to);
    let a = seq!['p', 'a', 's', 's', 'w', 'o', 'r', 'd'];
    let b = seq!['s', 'e', 'c', 'r', 'e', 't'];
    let c = seq!['k', 'e', 'y'];
    assert("password"@ =~= a);
    assert("secret"@ =~= b);
    assert("key"@ =~= c);
    if spells(name, "password"@) {
        lemma_part_reads(t, from, to, a);
    } else if spells(name, "secret"@) {
        lemma_part_reads(t, from, to, b);
    } else {
        lemma_part_reads(t, from, to, c);
    }
}

proof fn lemma_part_reads(t: Seq<char>, from: int, to: int, w: Seq<char>)
    requires
        0 <= from < to <= t.len(),
        spells(t.subrange(from, to), w),
    ensures
        to == from + w.len(),
        crate::secrets::reads(t, from, w),
{
    let name = t.subrange(from, to);
    assert forall|k: int| 0 <= k < w.len() implies crate::secrets::folds_to(
        #[trigger] t[from + k],
        w[k],
    ) by {
        assert(name[k] == t[from + k]);
        lemma_code(t[from + k]);
        lemma_code(w[k]);
    }
}

} // verus!
