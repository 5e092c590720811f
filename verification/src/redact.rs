//! Default-on secret redaction for report builders.
//!
//! A [`Redactor`] masks secret-ish values in free text (such as SQL literals)
//! and in variable lists. It is a builder-side pass: the artifact on disk stays
//! raw, and redaction is applied when data leaves that boundary.

use crate::secrets::{
    foreign_word_char, leftmost, mask_from, mask_to, masked, masked_until, kept_from,
    redacted, secrets, lemma_leftmost_at, lemma_leftmost_unique, lemma_secrets_leftmost, Secret,
    MASK,
};
use crate::text::{ascii_lowercase, chars_of, same, slice_text, text_of, to_ascii_lowercase, trim};
use std::borrow::Cow;
use vstd::prelude::*;

verus! {

/// The combined alternation. Order is significant: the key-value form is tried
/// first, so its value (which may itself be hex) is masked as a unit with the
/// assignment prefix preserved.
pub const SECRET_PATTERN: &'static str = r"(?x)
    # password='...' | secret='...' | key='...'   (SQL string literals)
    (?P<kv>
        (?P<kvkey>(?i:password|secret|key)\s*=\s*)
        '(?P<kvval>[^']*)'
    )
    |
    # bearer <token>  (auth-header / token shaped)
    (?P<bearer>
        (?i:bearer)\s+
        (?P<bearertok>[A-Za-z0-9\-._~+/]{12,}={0,2})
    )
    |
    # UUID v4
    (?P<uuid>
        \b[0-9a-fA-F]{8}-[0-9a-fA-F]{4}-4[0-9a-fA-F]{3}-[89abAB][0-9a-fA-F]{3}-[0-9a-fA-F]{12}\b
    )
    |
    # long hex run (32+), e.g. API keys / digests
    (?P<hex>\b[0-9a-fA-F]{32,}\b)
    ";

#[verifier::external_type_specification]
#[verifier::external_body]
pub struct ExRegex(regex::Regex);

/// The pattern that a compiled expression was made from (`Regex::as_str`).
pub uninterp spec fn regex_source(re: regex::Regex) -> Seq<char>;

/// `Regex::new` on the secret pattern, which is a valid expression: what comes
/// back was compiled from that pattern.
#[verifier::external_body]
fn compile_secret_pattern(pattern: &str) -> (re: regex::Regex)
    requires
        pattern@ == SECRET_PATTERN@,
    ensures
        regex_source(re) == pattern@,
{
    regex::Regex::new(pattern).expect("redaction pattern is a valid regex")
}

/// One match of the secret pattern, as character positions.
pub struct SecretMatch {
    /// Where the match starts.
    pub start: usize,
    /// One past its last character.
    pub end: usize,
    /// Where the group `kvkey` ends, if it took part.
    pub quote: Option<usize>,
    /// Where the group `bearertok` starts, if it took part.
    pub token: Option<usize>,
}

impl View for SecretMatch {
    type V = Secret;

    open spec fn view(&self) -> Secret {
        Secret {
            start: self.start as int,
            end: self.end as int,
            quote: match self.quote {
                Some(q) => Some(q as int),
                None => None,
            },
            token: match self.token {
                Some(k) => Some(k as int),
                None => None,
            },
        }
    }
}

pub open spec fn match_views(ms: Seq<SecretMatch>) -> Seq<Secret> {
    ms.map_values(|m: SecretMatch| m@)
}

/// `Regex::captures_iter` with the secret pattern: the successive
/// non-overlapping leftmost matches. Each has one of the four shapes that the
/// pattern spells out, and none was passed over. No word character outside
/// ASCII touches a masked identifier or digest.
#[verifier::external_body]
fn find_secrets(re: &regex::Regex, text: &str) -> (ms: Vec<SecretMatch>)
    requires
        regex_source(*re) == SECRET_PATTERN@,
    ensures
        leftmost(text@, match_views(ms@), 0),
        forall|k: int|
            0 <= k < ms@.len() && (#[trigger] ms@[k]).quote is None && ms@[k].token is None
                && ms@[k].end < text@.len() && text@[ms@[k].end as int] as u32 >= 128
                ==> !foreign_word_char(text@[ms@[k].end as int]),
{
    let at = |byte: usize| text[..byte].chars().count();
    re.captures_iter(text)
        .map(|c| SecretMatch {
            start: at(c.get_match().start()),
            end: at(c.get_match().end()),
            quote: c.name("kvkey").map(|m| at(m.end())),
            token: c.name("bearertok").map(|m| at(m.start())),
        })
        .collect()
}

// ---------------------------------------------------------------------------
// Masking
// ---------------------------------------------------------------------------

/// The masked parts of `ms` stand in `t` from left to right.
pub open spec fn in_order(t: Seq<char>, ms: Seq<Secret>) -> bool {
    &&& forall|k: int|
        0 <= k < ms.len() ==> 0 <= kept_from(ms, k) <= mask_from(#[trigger] ms[k]) <= mask_to(ms[k])
            <= t.len()
}

proof fn lemma_leftmost_in_order(t: Seq<char>, ms: Seq<Secret>)
    requires
        leftmost(t, ms, 0),
    ensures
        in_order(t, ms),
{
    assert forall|k: int| 0 <= k < ms.len() implies 0 <= kept_from(ms, k) <= mask_from(
        #[trigger] ms[k],
    ) <= mask_to(ms[k]) <= t.len() by {
        lemma_leftmost_at(t, ms, 0, k);
        if k > 0 {
            lemma_leftmost_at(t, ms, 0, k - 1);
        }
    }
}

/// The first masked character of a match.
fn masked_start(m: &SecretMatch) -> (p: usize)
    requires
        mask_from(m@) <= usize::MAX,
    ensures
        p == mask_from(m@),
{
    match m.quote {
        Some(quote) => quote + 1,
        None => match m.token {
            Some(token) => token,
            None => m.start,
        },
    }
}

/// One past the last masked character of a match.
fn masked_end(m: &SecretMatch) -> (p: usize)
    requires
        mask_to(m@) >= 0,
    ensures
        p == mask_to(m@),
{
    match m.quote {
        Some(_) => m.end - 1,
        None => m.end,
    }
}

/// `text` with the secret part of each match replaced by the mask.
pub fn mask_matches(text: &str, ms: &Vec<SecretMatch>) -> (r: String)
    requires
        in_order(text@, match_views(ms@)),
    ensures
        r@ == masked(text@, match_views(ms@)),
{
    let t = chars_of(text);
    let ghost views = match_views(ms@);
    let mut out = String::new();
    let mut from: usize = 0;
    for k in 0..ms.len()
        invariant
            t@ == text@,
            views == match_views(ms@),
            in_order(text@, views),
            from == kept_from(views, k as int),
            from <= t@.len(),
            out@ == masked_until(text@, views, k as int),
    {
        assert(views[k as int] == ms@[k as int]@);
        assert(mask_from(views[k as int]) <= t.len());
        let start = masked_start(&ms[k]);
        let end = masked_end(&ms[k]);
        out.append(slice_text(&t, from, start).as_str());
        out.append(MASK);
        from = end;
    }
    out.append(slice_text(&t, from, t.len()).as_str());
    out
}

// ---------------------------------------------------------------------------
// Secret names
// ---------------------------------------------------------------------------

/// Variable names that are secret by name, whatever their value looks like.
pub open spec fn secret_name(lower: Seq<char>) -> bool {
    ||| lower == "password"@
    ||| lower == "passwd"@
    ||| lower == "pwd"@
    ||| lower == "secret"@
    ||| lower == "key"@
    ||| lower == "apikey"@
    ||| lower == "api_key"@
    ||| lower == "token"@
    ||| lower == "access_token"@
    ||| lower == "refresh_token"@
    ||| lower == "private_key"@
    ||| lower == "client_secret"@
    ||| lower == "auth"@
    ||| lower == "authorization"@
    ||| lower == "credential"@
    ||| lower == "credentials"@
}

/// Whether a variable name is secret: compared as a whole, without the white
/// space around it and without regard to ASCII case.
pub fn key_is_secret(name: &str) -> (r: bool)
    ensures
        r == secret_name(ascii_lowercase(trim(name@))),
{
    let lower_chars = to_ascii_lowercase(&crate::text::trim_chars(&chars_of(name)));
    let lower_text = text_of(&lower_chars);
    let lower = lower_text.as_str();
    same(lower, "password") || same(lower, "passwd") || same(lower, "pwd") || same(lower, "secret")
        || same(lower, "key") || same(lower, "apikey") || same(lower, "api_key") || same(
        lower,
        "token",
    ) || same(lower, "access_token") || same(lower, "refresh_token") || same(lower, "private_key")
        || same(lower, "client_secret") || same(lower, "auth") || same(lower, "authorization")
        || same(lower, "credential") || same(lower, "credentials")
}

/// The value that a variable has once its secrets are masked.
pub open spec fn redacted_value(name: Seq<char>, value: Seq<char>) -> Seq<char> {
    if secret_name(ascii_lowercase(trim(name))) {
        MASK@
    } else {
        redacted(value)
    }
}

/// A variable with its value masked.
pub open spec fn redacted_variable(v: (Seq<char>, Seq<char>)) -> (Seq<char>, Seq<char>) {
    (v.0, redacted_value(v.0, v.1))
}

/// Masks secret-ish values in text and variable lists.
///
/// Construct once and reuse: the pattern is compiled by `new`.
#[derive(Debug)]
pub struct Redactor {
    re: regex::Regex,
}

impl Default for Redactor {
    fn default() -> (r: Self)
        ensures
            r.pattern() == SECRET_PATTERN@,
    {
        Redactor::new()
    }
}

impl Clone for Redactor {
    fn clone(&self) -> (r: Self)
        ensures
            r.pattern() == self.pattern(),
    {
        proof {
            use_type_invariant(self);
        }
        Redactor::new()
    }
}

impl Redactor {
    #[verifier::type_invariant]
    spec fn holds_secret_pattern(self) -> bool {
        regex_source(self.re) == SECRET_PATTERN@
    }

    /// The pattern that this redactor finds secrets by.
    pub closed spec fn pattern(&self) -> Seq<char> {
        regex_source(self.re)
    }

    /// Create a new redactor.
    pub fn new() -> (r: Self)
        ensures
            r.pattern() == SECRET_PATTERN@,
    {
        Redactor { re: compile_secret_pattern(SECRET_PATTERN) }
    }

    /// Mask every secret-ish substring in `text`. Without one the text comes
    /// back borrowed, with nothing allocated.
    pub fn redact<'a>(&self, text: &'a str) -> (r: Cow<'a, str>)
        ensures
            r@ == redacted(text@),
            r is Borrowed <==> secrets(text@).len() == 0,
    {
        proof {
            use_type_invariant(self);
        }
        let ms = find_secrets(&self.re, text);
        proof {
            lemma_secrets_leftmost(text@, 0);
            lemma_leftmost_unique(text@, match_views(ms@), secrets(text@), 0);
            lemma_leftmost_in_order(text@, match_views(ms@));
        }
        if ms.len() == 0 {
            assert(redacted(text@) =~= text@);
            Cow::Borrowed(text)
        } else {
            Cow::Owned(mask_matches(text, &ms))
        }
    }

    /// `redact`, as an owned text.
    pub fn redact_owned(&self, text: &str) -> (r: String)
        ensures
            r@ == redacted(text@),
    {
        match self.redact(text) {
            Cow::Borrowed(b) => b.to_owned(),
            Cow::Owned(o) => o,
        }
    }

    /// Mask the values of a variable list in place.
    ///
    /// A value is masked either because it holds a secret-ish substring or
    /// because its name is itself secret, in which case all of it is replaced.
    pub fn redact_variables(&self, vars: &mut Vec<(String, String)>)
        ensures
            final(vars).deep_view() == old(vars).deep_view().map_values(
                |v: (Seq<char>, Seq<char>)| redacted_variable(v),
            ),
    {
        let ghost before = vars@;
        let mut i: usize = 0;
        while i < vars.len()
            invariant
                i <= vars@.len(),
                vars@.len() == before.len(),
                forall|k: int|
                    0 <= k < i ==> (#[trigger] vars@[k]).deep_view() == redacted_variable(
                        before[k].deep_view(),
                    ),
                forall|k: int| i <= k < before.len() ==> vars@[k] == before[k],
            decreases vars@.len() - i,
        {
            let name = vars[i].0.clone();
            let value = if key_is_secret(name.as_str()) {
                MASK.to_owned()
            } else {
                self.redact_owned(vars[i].1.as_str())
            };
            vars.set(i, (name, value));
            i = i + 1;
        }
        assert(vars.deep_view() =~= old(vars).deep_view().map_values(
            |v: (Seq<char>, Seq<char>)| redacted_variable(v),
        ));
    }
}

} // verus!
