//! Random identifiers, tokens and secrets.

use vstd::prelude::*;

use rand::RngCore;

use crate::claims_json::hex_char;
use crate::text::push_char;

verus! {

/// Lower-case hexadecimal text of some bytes, two digits per byte, high digit first.
pub open spec fn hex_text(b: Seq<u8>) -> Seq<char>
    decreases b.len(),
{
    if b.len() == 0 {
        seq![]
    } else {
        hex_text(b.drop_last()) + seq![
            hex_char((b.last() / 16) as int),
            hex_char((b.last() % 16) as int),
        ]
    }
}

/// Whether a character is a lower-case hexadecimal digit.
pub open spec fn is_lower_hex(c: char) -> bool {
    (48 <= (c as u32) && (c as u32) <= 57) || (97 <= (c as u32) && (c as u32) <= 102)
}

/// The hexadecimal text of `n` bytes has `2n` characters, all lower-case hex digits.
pub proof fn lemma_hex_text_shape(b: Seq<u8>)
    ensures
        hex_text(b).len() == 2 * b.len(),
        forall|i: int| 0 <= i < hex_text(b).len() ==> is_lower_hex(#[trigger] hex_text(b)[i]),
    decreases b.len(),
{
    if b.len() > 0 {
        lemma_hex_text_shape(b.drop_last());
        let h = hex_text(b);
        let p = hex_text(b.drop_last());
        assert forall|i: int| 0 <= i < h.len() implies is_lower_hex(#[trigger] h[i]) by {
            if i < p.len() {
                assert(h[i] == p[i]);
            }
        }
    }
}

/// Calls `rand::rng().fill_bytes` of rand on a buffer of `n` zero bytes.
/// Claims: `n` bytes come back; what they are is random and not claimed.
#[verifier::external_body]
fn random_bytes(n: usize) -> (v: Vec<u8>)
    ensures
        v@.len() == n,
{
    let mut buf = vec![0u8; n];
    rand::rng().fill_bytes(&mut buf);
    buf
}

fn hex_digit_of(d: u8) -> (c: char)
    requires
        d < 16,
    ensures
        c == hex_char(d as int),
{
    if d < 10 {
        (48u8 + d) as char
    } else {
        (87u8 + d) as char
    }
}

/// The lower-case hexadecimal text of some bytes.
pub fn hex_encode(bytes: &[u8]) -> (s: String)
    ensures
        s@ == hex_text(bytes@),
{
    let mut s = String::new();
    let mut i: usize = 0;
    while i < bytes.len()
        invariant
            i <= bytes@.len(),
            s@ == hex_text(bytes@.take(i as int)),
        decreases bytes@.len() - i,
    {
        let b = bytes[i];
        push_char(&mut s, hex_digit_of(b / 16));
        push_char(&mut s, hex_digit_of(b % 16));
        proof {
            let t = bytes@.take(i + 1);
            assert(t.drop_last() =~= bytes@.take(i as int));
            assert(t.last() == b);
        }
        i = i + 1;
    }
    assert(bytes@.take(bytes@.len() as int) =~= bytes@);
    s
}

/// A random text of `2 * bytes` lower-case hexadecimal digits.
pub fn rand_hex(bytes: usize) -> (s: String)
    ensures
        exists|b: Seq<u8>| b.len() == bytes && s@ == hex_text(b),
        s@.len() == 2 * bytes,
        forall|i: int| 0 <= i < s@.len() ==> is_lower_hex(#[trigger] s@[i]),
{
    let buf = random_bytes(bytes);
    let s = hex_encode(buf.as_slice());
    proof {
        lemma_hex_text_shape(buf@);
    }
    s
}

/// The secret that signs session tokens: the configured value's bytes when one
/// is set, else 32 random bytes (sessions then end when the process does).
pub fn load_secret(configured: Option<String>) -> (secret: Vec<u8>)
    ensures
        match configured {
            Some(s) => secret@ == vstd::utf8::encode_utf8(s@),
            None => secret@.len() == 32,
        },
{
    match configured {
        Some(s) => vstd::slice::slice_to_vec(s.as_str().as_bytes()),
        None => random_bytes(32),
    }
}

} // verus!
