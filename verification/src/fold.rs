//! Case folding: the one transformation applied to the query and to every
//! line before they are compared.
use vstd::prelude::*;
use vstd::string::*;
use vstd::utf8::*;

verus! {

/// The lower-case form of a string: what `str::to_lowercase` of the
/// standard library returns for it. It follows the Unicode case mappings
/// compiled into the standard library and depends on the characters alone.
pub uninterp spec fn lowercase(s: Seq<char>) -> Seq<char>;

/// Trusted: calls `str::to_lowercase` of the standard library. The contract
/// claims nothing but that the returned string is the one named by
/// [`lowercase`]; nothing is proved of the body.
#[verifier::external_body]
fn to_lower(s: &str) -> (low: String)
    ensures
        low@ == lowercase(s@),
{
    s.to_lowercase()
}

/// The bytes that stand for the string `s` in a comparison: its UTF-8
/// encoding, taken from the lower-case form of `s` when `lower` is set.
pub open spec fn folded(s: Seq<char>, lower: bool) -> Seq<u8> {
    if lower {
        encode_utf8(lowercase(s))
    } else {
        encode_utf8(s)
    }
}

/// The same as [`folded`], for a string given by its UTF-8 bytes.
pub open spec fn fold_bytes(bytes: Seq<u8>, lower: bool) -> Seq<u8> {
    if lower {
        encode_utf8(lowercase(decode_utf8(bytes)))
    } else {
        bytes
    }
}

/// On the encoding of a string, [`fold_bytes`] is [`folded`] of the string.
pub proof fn lemma_fold_bytes_of_encoding(s: Seq<char>, lower: bool)
    ensures
        fold_bytes(encode_utf8(s), lower) == folded(s, lower),
{
    encode_utf8_decode_utf8(s);
}

/// Prepares a string for the search: the string is turned into bytes, in
/// lower case if `lower` is set.
pub fn prep_string(s: &str, lower: bool) -> (bytes: Vec<u8>)
    ensures
        bytes@ == folded(s@, lower),
        bytes@ == fold_bytes(s.spec_bytes(), lower),
{
    proof {
        lemma_fold_bytes_of_encoding(s@, lower);
    }
    if lower {
        let low = to_lower(s);
        low.as_str().as_bytes_vec()
    } else {
        s.as_bytes_vec()
    }
}

} // verus!
