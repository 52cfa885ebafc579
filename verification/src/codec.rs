use vstd::prelude::*;

use base64::engine::general_purpose::STANDARD as BASE64;
use base64::Engine;
use rand::Rng;

verus! {

/// The symbol of the standard base64 alphabet (RFC 4648) for the six-bit
/// value `v`.
pub open spec fn base64_symbol(v: int) -> char {
    if v < 26 {
        (v + 65) as char
    } else if v < 52 {
        (v - 26 + 97) as char
    } else if v < 62 {
        (v - 52 + 48) as char
    } else if v == 62 {
        '+'
    } else {
        '/'
    }
}

/// The standard base64 text (RFC 4648 alphabet, `=` padding) of `bytes`: each
/// group of three bytes gives four symbols of six bits each; a last group of
/// one or two bytes is filled with zero bits and padded with `=` to four.
pub open spec fn base64_encoding(bytes: Seq<u8>) -> Seq<char>
    decreases bytes.len(),
{
    if bytes.len() == 0 {
        Seq::<char>::empty()
    } else if bytes.len() == 1 {
        let a = bytes[0] as int;
        seq![base64_symbol(a / 4), base64_symbol((a % 4) * 16), '=', '=']
    } else if bytes.len() == 2 {
        let a = bytes[0] as int;
        let b = bytes[1] as int;
        seq![base64_symbol(a / 4), base64_symbol((a % 4) * 16 + b / 16), base64_symbol((b % 16) * 4), '=']
    } else {
        let a = bytes[0] as int;
        let b = bytes[1] as int;
        let c = bytes[2] as int;
        seq![
            base64_symbol(a / 4),
            base64_symbol((a % 4) * 16 + b / 16),
            base64_symbol((b % 16) * 4 + c / 64),
            base64_symbol(c % 64),
        ] + base64_encoding(bytes.subrange(3, bytes.len() as int))
    }
}

/// What standard base64 decoding (canonical padding required, no stray bits
/// in the last symbol) reads from `text`: the bytes whose standard encoding
/// `text` is, or `None` where it is the encoding of no bytes. No two byte
/// sequences have the same encoding (`lemma_encoding_injective`), so the bytes
/// are unique.
pub open spec fn base64_decoding(text: Seq<char>) -> Option<Seq<u8>> {
    if exists|b: Seq<u8>| #[trigger] base64_encoding(b) == text {
        Some(choose|b: Seq<u8>| #[trigger] base64_encoding(b) == text)
    } else {
        None
    }
}

/// A symbol of the standard base64 alphabet (padding excluded).
pub open spec fn is_base64_symbol(c: char) -> bool {
    ||| ('A' <= c && c <= 'Z')
    ||| ('a' <= c && c <= 'z')
    ||| ('0' <= c && c <= '9')
    ||| c == '+'
    ||| c == '/'
}

/// The shape of the standard base64 text of 32 bytes: 43 alphabet symbols and
/// one `=`.
pub open spec fn is_key_text(t: Seq<char>) -> bool {
    &&& t.len() == 44
    &&& t[43] == '='
    &&& forall|i: int| 0 <= i < 43 ==> is_base64_symbol(#[trigger] t[i])
}

/// `STANDARD.encode` of the `base64` crate on 32 bytes. Claimed: the text is
/// the standard encoding stated by `base64_encoding`.
#[verifier::external_body]
fn encode_base64(bytes: &[u8; 32]) -> (r: String)
    ensures
        r@ == base64_encoding(bytes@),
{
    BASE64.encode(bytes)
}

/// `STANDARD.decode` of the `base64` crate on the UTF-8 bytes of `text`.
/// Claimed: it succeeds exactly on the standard encodings of byte sequences
/// (as `base64_decoding` states), with those bytes; the engine requires
/// canonical padding and refuses non-zero bits after the last byte.
#[verifier::external_body]
pub(crate) fn decode_base64(text: &Vec<char>) -> (r: Option<Vec<u8>>)
    ensures
        match r {
            Some(v) => base64_decoding(text@) == Some(v@),
            None => base64_decoding(text@) is None,
        },
{
    let s: String = text.iter().collect();
    BASE64.decode(s).ok()
}

/// `Rng::gen_range(low..high)` on `rand::thread_rng()`. Claimed: the number
/// lies in the half-open range; which one comes out is left to chance. The
/// range must not be empty, where the call panics.
#[verifier::external_body]
pub(crate) fn random_in_range(low: u64, high: u64) -> (r: u64)
    requires
        low < high,
    ensures
        low <= r < high,
{
    rand::thread_rng().gen_range(low..high)
}

/// The bytes of `x25519_dalek::StaticSecret::random()`. Nothing is claimed of
/// them: they come from the operating system's random source.
#[verifier::external_body]
pub(crate) fn random_secret() -> (r: [u8; 32]) {
    *x25519_dalek::StaticSecret::random().as_bytes()
}

/// The standard base64 text of a 32-byte key.
pub fn encode_key(key: &[u8; 32]) -> (r: String)
    ensures
        r@ == base64_encoding(key@),
        base64_decoding(r@) == Some(key@),
        is_key_text(r@),
{
    proof {
        lemma_encoding_shape(key@);
        lemma_decoding_of_encoding(key@);
    }
    encode_base64(key)
}

/// Standard base64 decoding gives back the bytes of any standard encoding.
pub proof fn lemma_decoding_of_encoding(bytes: Seq<u8>)
    ensures
        base64_decoding(base64_encoding(bytes)) == Some(bytes),
{
    let t = base64_encoding(bytes);
    assert(exists|b: Seq<u8>| #[trigger] base64_encoding(b) == t);
    let c = choose|b: Seq<u8>| #[trigger] base64_encoding(b) == t;
    lemma_encoding_injective(c, bytes);
}

proof fn lemma_symbol_injective(v: int, w: int)
    requires
        0 <= v < 64,
        0 <= w < 64,
        base64_symbol(v) == base64_symbol(w),
    ensures
        v == w,
{
}

proof fn lemma_symbol_not_pad(v: int)
    requires
        0 <= v < 64,
    ensures
        base64_symbol(v) != '=',
{
}

/// The same six-bit groups come only from the same bytes.
proof fn lemma_groups_determine_bytes(a1: u8, b1: u8, c1: u8, a2: u8, b2: u8, c2: u8)
    ensures
        a1 / 4 == a2 / 4 && (a1 % 4) * 16 + b1 / 16 == (a2 % 4) * 16 + b2 / 16 ==> a1 == a2
            && b1 / 16 == b2 / 16,
        a1 == a2 && b1 / 16 == b2 / 16 && (b1 % 16) * 4 + c1 / 64 == (b2 % 16) * 4 + c2 / 64
            ==> b1 == b2 && c1 / 64 == c2 / 64,
        a1 == a2 && b1 / 16 == b2 / 16 && (b1 % 16) * 4 == (b2 % 16) * 4 ==> b1 == b2,
        a1 / 4 == a2 / 4 && (a1 % 4) * 16 == (a2 % 4) * 16 ==> a1 == a2,
        c1 / 64 == c2 / 64 && c1 % 64 == c2 % 64 ==> c1 == c2,
{
    assert(a1 / 4 == a2 / 4 && (a1 % 4) * 16 + b1 / 16 == (a2 % 4) * 16 + b2 / 16 ==> a1 == a2
        && b1 / 16 == b2 / 16) by (bit_vector);
    assert(a1 == a2 && b1 / 16 == b2 / 16 && (b1 % 16) * 4 + c1 / 64 == (b2 % 16) * 4 + c2 / 64
        ==> b1 == b2 && c1 / 64 == c2 / 64) by (bit_vector);
    assert(a1 == a2 && b1 / 16 == b2 / 16 && (b1 % 16) * 4 == (b2 % 16) * 4 ==> b1 == b2)
        by (bit_vector);
    assert(a1 / 4 == a2 / 4 && (a1 % 4) * 16 == (a2 % 4) * 16 ==> a1 == a2) by (bit_vector);
    assert(c1 / 64 == c2 / 64 && c1 % 64 == c2 % 64 ==> c1 == c2) by (bit_vector);
}

/// The first four symbols of a standard encoding, the missing bytes of a
/// short last group taken as zero.
proof fn lemma_encoding_head(x: Seq<u8>)
    requires
        x.len() > 0,
    ensures
        ({
            let e = base64_encoding(x);
            let a = x[0] as int;
            let b = if x.len() >= 2 { x[1] as int } else { 0 };
            let c = if x.len() >= 3 { x[2] as int } else { 0 };
            &&& e.len() >= 4
            &&& e[0] == base64_symbol(a / 4)
            &&& e[1] == base64_symbol((a % 4) * 16 + b / 16)
            &&& e[2] == if x.len() == 1 {
                '='
            } else {
                base64_symbol((b % 16) * 4 + c / 64)
            }
            &&& e[3] == if x.len() <= 2 {
                '='
            } else {
                base64_symbol(c % 64)
            }
        }),
{
}

/// Standard base64 encoding takes different byte sequences to different
/// texts.
pub proof fn lemma_encoding_injective(x: Seq<u8>, y: Seq<u8>)
    requires
        base64_encoding(x) == base64_encoding(y),
    ensures
        x == y,
    decreases x.len(),
{
    let e = base64_encoding(x);
    if x.len() == 0 || y.len() == 0 {
        if x.len() != 0 || y.len() != 0 {
            assert(e.len() != 0 || base64_encoding(y).len() != 0);
        }
        assert(x =~= y);
        return;
    }
    let a1 = x[0];
    let a2 = y[0];
    let b1 = if x.len() >= 2 { x[1] } else { 0u8 };
    let b2 = if y.len() >= 2 { y[1] } else { 0u8 };
    let c1 = if x.len() >= 3 { x[2] } else { 0u8 };
    let c2 = if y.len() >= 3 { y[2] } else { 0u8 };
    lemma_groups_determine_bytes(a1, b1, c1, a2, b2, c2);
    let f = base64_encoding(y);
    lemma_encoding_head(x);
    lemma_encoding_head(y);
    // the padding tells the length of the last group
    lemma_symbol_not_pad((a1 as int) / 4);
    lemma_symbol_not_pad((a2 as int) / 4);
    lemma_symbol_not_pad(((a1 as int) % 4) * 16 + (b1 as int) / 16);
    lemma_symbol_not_pad(((a2 as int) % 4) * 16 + (b2 as int) / 16);
    lemma_symbol_not_pad(((b1 as int) % 16) * 4 + (c1 as int) / 64);
    lemma_symbol_not_pad(((b2 as int) % 16) * 4 + (c2 as int) / 64);
    lemma_symbol_not_pad(((b1 as int) % 16) * 4);
    lemma_symbol_not_pad(((b2 as int) % 16) * 4);
    lemma_symbol_not_pad((c1 as int) % 64);
    lemma_symbol_not_pad((c2 as int) % 64);
    assert(e[2] == f[2] && e[3] == f[3]);
    assert((x.len() == 1) == (y.len() == 1));
    assert((x.len() == 2) == (y.len() == 2));
    lemma_symbol_injective((a1 as int) / 4, (a2 as int) / 4);
    if x.len() == 1 {
        lemma_symbol_injective(((a1 as int) % 4) * 16, ((a2 as int) % 4) * 16);
        assert(x =~= y);
    } else {
        lemma_symbol_injective(((a1 as int) % 4) * 16 + (b1 as int) / 16, ((a2 as int) % 4) * 16 + (b2 as int) / 16);
        if x.len() == 2 {
            lemma_symbol_injective(((b1 as int) % 16) * 4, ((b2 as int) % 16) * 4);
            assert(x =~= y);
        } else {
            lemma_symbol_injective(((b1 as int) % 16) * 4 + (c1 as int) / 64, ((b2 as int) % 16) * 4 + (c2 as int) / 64);
            lemma_symbol_injective((c1 as int) % 64, (c2 as int) % 64);
            let xr = x.subrange(3, x.len() as int);
            let yr = y.subrange(3, y.len() as int);
            assert(base64_encoding(xr) =~= e.subrange(4, e.len() as int));
            assert(base64_encoding(yr) =~= f.subrange(4, f.len() as int));
            lemma_encoding_injective(xr, yr);
            assert(x =~= y) by {
                assert forall|i: int| 0 <= i < x.len() implies x[i] == y[i] by {
                    if i >= 3 {
                        assert(x[i] == xr[i - 3]);
                        assert(y[i] == yr[i - 3]);
                    }
                }
            }
        }
    }
}

proof fn lemma_symbol(v: int)
    requires
        0 <= v < 64,
    ensures
        is_base64_symbol(base64_symbol(v)),
{
}

/// The standard base64 text of 3k + 2 bytes is 4k + 3 alphabet symbols and
/// one `=`.
proof fn lemma_encoding_shape(bytes: Seq<u8>)
    requires
        bytes.len() % 3 == 2,
    ensures
        base64_encoding(bytes).len() == 4 * (bytes.len() / 3) + 4,
        base64_encoding(bytes)[base64_encoding(bytes).len() - 1] == '=',
        forall|i: int|
            0 <= i < base64_encoding(bytes).len() - 1 ==> is_base64_symbol(
                #[trigger] base64_encoding(bytes)[i],
            ),
    decreases bytes.len(),
{
    let a = bytes[0] as int;
    let b = bytes[1] as int;
    lemma_symbol(a / 4);
    lemma_symbol((a % 4) * 16 + b / 16);
    if bytes.len() == 2 {
        lemma_symbol((b % 16) * 4);
    } else {
        let c = bytes[2] as int;
        lemma_symbol((b % 16) * 4 + c / 64);
        lemma_symbol(c % 64);
        let rest = bytes.subrange(3, bytes.len() as int);
        lemma_encoding_shape(rest);
        let head = seq![
            base64_symbol(a / 4),
            base64_symbol((a % 4) * 16 + b / 16),
            base64_symbol((b % 16) * 4 + c / 64),
            base64_symbol(c % 64),
        ];
        let e = base64_encoding(bytes);
        assert(e == head + base64_encoding(rest));
        assert forall|i: int| 0 <= i < e.len() - 1 implies is_base64_symbol(#[trigger] e[i]) by {
            if i >= 4 {
                assert(e[i] == base64_encoding(rest)[i - 4]);
            }
        }
    }
}

/// The 32 bytes of `v` as an array.
pub fn key_array(v: &Vec<u8>) -> (r: [u8; 32])
    requires
        v@.len() == 32,
    ensures
        r@ == v@,
{
    let mut a = [0u8; 32];
    let mut i: usize = 0;
    while i < 32
        invariant
            i <= 32,
            v@.len() == 32,
            forall|k: int| 0 <= k < i ==> a@[k] == v@[k],
        decreases 32 - i,
    {
        a[i] = v[i];
        i = i + 1;
    }
    assert(a@ =~= v@);
    a
}

} // verus!
