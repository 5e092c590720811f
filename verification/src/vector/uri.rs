//! `--store` URIs: `lance://<path>` (default) and
//! `qdrant://<host:port>[/<collection>]`.

use crate::text::{chars_of, is_at, occurs_at, slice_text};
use crate::vector::error::VectorError;
use vstd::prelude::*;

verus! {

/// The default store URI: an on-disk directory.
pub const DEFAULT_STORE_URI: &'static str = "lance://./vec";

/// A parsed store target.
#[derive(Debug, Clone, PartialEq, Eq)]
pub enum StoreUri {
    /// A directory on disk.
    Lance { path: String },
    /// A server at `url`, writing into `collection`.
    Qdrant { url: String, collection: String },
}

/// The model of a [`StoreUri`].
pub enum StoreUriV {
    Lance { path: Seq<char> },
    Qdrant { url: Seq<char>, collection: Seq<char> },
}

impl DeepView for StoreUri {
    type V = StoreUriV;

    open spec fn deep_view(&self) -> StoreUriV {
        match self {
            StoreUri::Lance { path } => StoreUriV::Lance { path: path@ },
            StoreUri::Qdrant { url, collection } => StoreUriV::Qdrant {
                url: url@,
                collection: collection@,
            },
        }
    }
}

/// What follows `prefix` at the start of `s`.
pub open spec fn after_prefix(s: Seq<char>, prefix: Seq<char>) -> Option<Seq<char>> {
    if occurs_at(s, prefix, 0) {
        Some(s.skip(prefix.len() as int))
    } else {
        None
    }
}

/// Where the first `/` of `s` stands; its length where there is none.
pub open spec fn first_slash(s: Seq<char>) -> int
    decreases s.len(),
{
    if s.len() == 0 || s[0] == '/' {
        0
    } else {
        1 + first_slash(s.drop_first())
    }
}

/// `s` without the slashes at its end.
pub open spec fn without_slashes(s: Seq<char>) -> Seq<char>
    decreases s.len(),
{
    if s.len() > 0 && s.last() == '/' {
        without_slashes(s.drop_last())
    } else {
        s
    }
}

/// The authority and the collection of a server URI: split at the first slash,
/// unless nothing follows it.
pub open spec fn authority_of(rest: Seq<char>) -> (Seq<char>, Seq<char>) {
    let k = first_slash(rest);
    if k + 1 < rest.len() {
        (rest.take(k), rest.skip(k + 1))
    } else {
        (without_slashes(rest), "ncrawler"@)
    }
}

/// The text that is parsed: the default where there is none.
pub open spec fn effective_uri(s: Seq<char>) -> Seq<char> {
    if s.len() == 0 {
        DEFAULT_STORE_URI@
    } else {
        s
    }
}

/// The store that a URI names; nothing where it is malformed.
pub open spec fn uri_of(s: Seq<char>) -> Option<StoreUriV> {
    match after_prefix(s, "lance://"@) {
        Some(path) => if path.len() == 0 {
            None
        } else {
            Some(StoreUriV::Lance { path })
        },
        None => match after_prefix(s, "qdrant://"@) {
            Some(rest) => {
                let (authority, collection) = authority_of(rest);
                if authority.len() == 0 {
                    None
                } else {
                    Some(StoreUriV::Qdrant { url: "http://"@ + authority, collection })
                }
            },
            None => None,
        },
    }
}

fn strip_prefix(s: &Vec<char>, prefix: &str) -> (r: Option<Vec<char>>)
    ensures
        match r {
            Some(v) => after_prefix(s@, prefix@) == Some(v@),
            None => after_prefix(s@, prefix@) is None,
        },
{
    let p = chars_of(prefix);
    if !is_at(s, &p, 0) {
        return None;
    }
    let rest = slice_text(s, p.len(), s.len());
    assert(rest@ =~= s@.skip(p@.len() as int));
    Some(chars_of(rest.as_str()))
}

proof fn lemma_first_slash(s: Seq<char>, k: int)
    requires
        0 <= k <= s.len(),
        forall|i: int| 0 <= i < k ==> #[trigger] s[i] != '/',
        k == s.len() || s[k] == '/',
    ensures
        first_slash(s) == k,
    decreases s.len(),
{
    if k > 0 {
        assert(s[0] != '/');
        let rest = s.drop_first();
        assert forall|i: int| 0 <= i < k - 1 implies #[trigger] rest[i] != '/' by {
            assert(s[i + 1] != '/');
        }
        lemma_first_slash(rest, k - 1);
    }
}

fn split_authority(rest: &Vec<char>) -> (r: (String, String))
    ensures
        (r.0@, r.1@) == authority_of(rest@),
{
    let mut k: usize = 0;
    while k < rest.len() && rest[k] != '/'
        invariant
            k <= rest@.len(),
            forall|i: int| 0 <= i < k ==> #[trigger] rest@[i] != '/',
        decreases rest@.len() - k,
    {
        k = k + 1;
    }
    proof {
        lemma_first_slash(rest@, k as int);
    }
    if k < rest.len() && k + 1 < rest.len() {
        let authority = slice_text(rest, 0, k);
        let collection = slice_text(rest, k + 1, rest.len());
        assert(authority@ =~= rest@.take(k as int));
        assert(collection@ =~= rest@.skip(k + 1));
        return (authority, collection);
    }
    let mut end: usize = rest.len();
    assert(rest@.take(end as int) =~= rest@);
    while end > 0 && rest[end - 1] == '/'
        invariant
            end <= rest@.len(),
            without_slashes(rest@) == without_slashes(rest@.take(end as int)),
        decreases end,
    {
        assert(rest@.take(end as int).drop_last() =~= rest@.take(end - 1));
        end = end - 1;
    }
    let authority = slice_text(rest, 0, end);
    assert(authority@ =~= rest@.take(end as int));
    (authority, "ncrawler".to_owned())
}

impl StoreUri {
    /// Parse a `--store` value. Empty input falls back to the default.
    pub fn parse(s: &str) -> (r: Result<StoreUri, VectorError>)
        ensures
            match r {
                Ok(u) => uri_of(effective_uri(s@)) == Some(u.deep_view()),
                Err(e) => uri_of(effective_uri(s@)) is None && (e matches VectorError::BadUri(t)
                    && t@ == effective_uri(s@)),
            },
    {
        let given = chars_of(s);
        let text = if given.len() == 0 {
            DEFAULT_STORE_URI.to_owned()
        } else {
            s.to_owned()
        };
        let v = chars_of(text.as_str());
        if let Some(path) = strip_prefix(&v, "lance://") {
            if path.len() == 0 {
                return Err(VectorError::BadUri(text));
            }
            return Ok(StoreUri::Lance { path: crate::text::text_of(&path) });
        }
        if let Some(rest) = strip_prefix(&v, "qdrant://") {
            let (authority, collection) = split_authority(&rest);
            if chars_of(authority.as_str()).len() == 0 {
                return Err(VectorError::BadUri(text));
            }
            let mut url = "http://".to_owned();
            url.append(authority.as_str());
            return Ok(StoreUri::Qdrant { url, collection });
        }
        Err(VectorError::BadUri(text))
    }

    /// The error of a store for which this build has no backend.
    pub fn unavailable(&self) -> (r: VectorError)
        ensures
            r matches VectorError::BadUri(t) && t@ == (match self.deep_view() {
                StoreUriV::Lance { .. } => "lance:// requires the `store-lance` feature"@,
                StoreUriV::Qdrant { .. } => "qdrant:// requires the `store-qdrant` feature"@,
            }),
    {
        match self {
            StoreUri::Lance { .. } => VectorError::BadUri(
                "lance:// requires the `store-lance` feature".to_owned(),
            ),
            StoreUri::Qdrant { .. } => VectorError::BadUri(
                "qdrant:// requires the `store-qdrant` feature".to_owned(),
            ),
        }
    }
}

} // verus!
