//! BLAKE3 digests.

use vstd::prelude::*;

verus! {

/// The BLAKE3 digest of the UTF-8 bytes of a text.
pub uninterp spec fn blake3_digest(text: Seq<char>) -> Seq<u8>;

/// `blake3::hash` on the UTF-8 bytes of a text: 32 bytes, fixed by the text.
#[verifier::external_body]
pub(crate) fn digest(text: &str) -> (r: Vec<u8>)
    ensures
        r@ == blake3_digest(text@),
        r@.len() == 32,
{
    blake3::hash(text.as_bytes()).as_bytes().to_vec()
}

/// The hexadecimal digit of a number under 16.
pub open spec fn hex_digit(d: int) -> char {
    if d < 10 {
        (48 + d) as char
    } else {
        (87 + d) as char
    }
}

/// Two lower-case hexadecimal digits per byte.
pub open spec fn hex_text(bytes: Seq<u8>) -> Seq<char>
    decreases bytes.len(),
{
    if bytes.len() == 0 {
        Seq::empty()
    } else {
        hex_text(bytes.drop_last()).push(hex_digit(bytes.last() as int / 16)).push(
            hex_digit(bytes.last() as int % 16),
        )
    }
}

/// The lower-case hexadecimal BLAKE3 digest of a text.
pub open spec fn blake3_hex(text: Seq<char>) -> Seq<char> {
    hex_text(blake3_digest(text))
}

pub proof fn lemma_hex_digit(a: int, b: int)
    requires
        0 <= a < 16,
        0 <= b < 16,
        hex_digit(a) == hex_digit(b),
    ensures
        a == b,
{
    assert(hex_digit(a) as int == (if a < 10 {
        48 + a
    } else {
        87 + a
    }));
    assert(hex_digit(b) as int == (if b < 10 {
        48 + b
    } else {
        87 + b
    }));
}

/// Distinct digests have distinct hexadecimal forms.
pub proof fn law_hex_text_is_injective(a: Seq<u8>, b: Seq<u8>)
    ensures
        hex_text(a) == hex_text(b) <==> a == b,
    decreases a.len(),
{
    if hex_text(a) == hex_text(b) {
        assert(a.len() > 0 ==> hex_text(a).len() > 0);
        assert(b.len() > 0 ==> hex_text(b).len() > 0);
        if a.len() == 0 || b.len() == 0 {
            assert(a =~= b);
        } else {
            let s = hex_text(a);
            let t = hex_text(b);
            let n = s.len() as int;
            assert(s[n - 1] == t[n - 1] && s[n - 2] == t[n - 2]);
            lemma_hex_digit(a.last() as int / 16, b.last() as int / 16);
            lemma_hex_digit(a.last() as int % 16, b.last() as int % 16);
            assert(a.last() == b.last());
            assert(s.take(n - 2) =~= hex_text(a.drop_last()));
            assert(t.take(n - 2) =~= hex_text(b.drop_last()));
            law_hex_text_is_injective(a.drop_last(), b.drop_last());
            assert(a =~= a.drop_last().push(a.last()));
            assert(b =~= b.drop_last().push(b.last()));
        }
    }
}

fn digit_of(d: u8) -> (c: char)
    requires
        d < 16,
    ensures
        c == hex_digit(d as int),
{
    if d < 10 {
        (48u8 + d) as char
    } else {
        (87u8 + d) as char
    }
}

pub(crate) fn hex_of(bytes: &Vec<u8>) -> (r: String)
    ensures
        r@ == hex_text(bytes@),
{
    let mut r = String::new();
    for i in 0..bytes.len()
        invariant
            r@ == hex_text(bytes@.take(i as int)),
    {
        assert(bytes@.take(i + 1).drop_last() =~= bytes@.take(i as int));
        r.push(digit_of(bytes[i] / 16));
        r.push(digit_of(bytes[i] % 16));
    }
    assert(bytes@.take(bytes@.len() as int) =~= bytes@);
    r
}

} // verus!
