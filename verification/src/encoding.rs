use vstd::prelude::*;
use base64::Engine;
use base64::engine::general_purpose::URL_SAFE_NO_PAD;

verus! {

/// What the `base64` crate's URL-safe, unpadded engine decodes a text to; `None` where it refuses the text.
pub uninterp spec fn base64url_decode(text: Seq<char>) -> Option<Seq<u8>>;

/// What the `base64` crate's URL-safe, unpadded engine encodes bytes to.
pub uninterp spec fn base64url_encode(bytes: Seq<u8>) -> Seq<char>;

/// The length of the unpadded base64 text of `n` bytes, as `base64::encoded_len` gives
/// it without padding: four characters for each whole three bytes, then two for one
/// byte left over and three for two.
pub open spec fn base64url_len(n: nat) -> nat {
    (4 * n + 2) / 3
}

/// Whether a character is in the URL-safe base64 alphabet: `A`-`Z`, `a`-`z`, `0`-`9`,
/// `-` and `_`.
pub open spec fn is_base64url_char(c: char) -> bool {
    ('A' <= c && c <= 'Z') || ('a' <= c && c <= 'z') || ('0' <= c && c <= '9') || c == '-' || c == '_'
}

/// Whether every character of a text is in the URL-safe base64 alphabet.
pub open spec fn is_base64url_text(t: Seq<char>) -> bool {
    forall|i: int| 0 <= i < t.len() ==> #[trigger] is_base64url_char(t[i])
}

/// Calls `URL_SAFE_NO_PAD.decode` of the `base64` crate. Claimed: the result is
/// `base64url_decode` of the text, `None` exactly where the crate returns an error.
#[verifier::external_body]
pub(crate) fn decode_base64url(text: &str) -> (r: Option<Vec<u8>>)
    ensures
        match r {
            Some(b) => base64url_decode(text@) == Some(b@),
            None => base64url_decode(text@) is None,
        },
{
    URL_SAFE_NO_PAD.decode(text).ok()
}

/// Calls `URL_SAFE_NO_PAD.encode` of the `base64` crate. Claimed: the text is
/// `base64url_encode` of the bytes, of the length that `encoded_len` computes without
/// padding, made of characters of the URL-safe alphabet only, and the same engine decodes
/// it back to the bytes (it writes no padding and zero trailing bits, which is what its
/// decoder asks for).
/// The crate panics only where the encoded length overflows `usize`, which the bound on
/// the input rules out.
#[verifier::external_body]
pub(crate) fn encode_base64url(bytes: &[u8]) -> (r: String)
    requires
        bytes@.len() <= usize::MAX / 4,
    ensures
        r@ == base64url_encode(bytes@),
        r@.len() == base64url_len(bytes@.len()),
        is_base64url_text(r@),
        base64url_decode(r@) == Some(bytes@),
{
    URL_SAFE_NO_PAD.encode(bytes)
}

/// Calls `rand::random` of the `rand` crate, which draws a value from the thread-local
/// generator. Nothing is claimed of the value.
#[verifier::external_body]
pub(crate) fn random_value<T>() -> T
    where rand::distr::StandardUniform: rand::distr::Distribution<T>,
{
    rand::random::<T>()
}

} // verus!
