//! Trusted declarations: calls into std and outside crates whose behaviour
//! Verus takes from the contracts below without proof.
use vstd::prelude::*;

verus! {

/// `String::push` from std: appends the character `c` to the end of `s`.
#[verifier::external_body]
pub(crate) fn push_char(s: &mut String, c: char)
    ensures
        final(s)@ == old(s)@.push(c),
{
    s.push(c);
}

/// What `regex::Regex::new(pattern)` followed by `Regex::is_match(haystack)`
/// gives: `None` when the pattern does not compile, otherwise whether the
/// regular expression matches somewhere in `haystack`.
pub uninterp spec fn regex_match(pattern: Seq<char>, haystack: Seq<char>) -> Option<bool>;

/// `regex::Regex::new` and `regex::Regex::is_match`. The contract claims only
/// that the answer is a function of the pattern and the haystack; what the
/// regular expression accepts is not stated.
#[verifier::external_body]
pub(crate) fn regex_is_match(pattern: &str, haystack: &str) -> (r: Option<bool>)
    ensures
        r == regex_match(pattern@, haystack@),
{
    match regex::Regex::new(pattern) {
        Ok(re) => Some(re.is_match(haystack)),
        Err(_) => None,
    }
}

/// What `str::to_lowercase` returns for a string (Unicode lowercase mapping).
pub uninterp spec fn lowercase(s: Seq<char>) -> Seq<char>;

/// `str::to_lowercase` from std. The contract claims only that the result is
/// a function of the input; the Unicode case mapping itself is not stated.
#[verifier::external_body]
pub(crate) fn to_lowercase(s: &str) -> (r: String)
    ensures
        r@ == lowercase(s@),
{
    s.to_lowercase()
}

/// `std::str::from_utf8` on `b[lo..hi]`: the text those bytes encode, or
/// `None` when they are not valid UTF-8. Validity and decoding are vstd's
/// `valid_utf8` and `decode_utf8`.
#[verifier::external_body]
pub(crate) fn utf8_text(b: &Vec<u8>, lo: usize, hi: usize) -> (r: Option<String>)
    requires
        lo <= hi <= b@.len(),
    ensures
        match r {
            Some(s) => vstd::utf8::valid_utf8(b@.subrange(lo as int, hi as int)) && s@
                == vstd::utf8::decode_utf8(b@.subrange(lo as int, hi as int)),
            None => !vstd::utf8::valid_utf8(b@.subrange(lo as int, hi as int)),
        },
{
    match std::str::from_utf8(&b[lo..hi]) {
        Ok(s) => Some(s.to_string()),
        Err(_) => None,
    }
}

/// The SHA-256 digest of a byte string.
pub uninterp spec fn sha256(data: Seq<u8>) -> Seq<u8>;

/// `sha2::Sha256::digest` (the `Digest` trait of the `digest` crate): a new
/// hasher, one `update` with `data`, then `finalize`. The contract claims
/// that the digest is a function of the data and has 32 bytes (the output
/// size `U32` of `Sha256`); the hash function itself is not stated.
#[verifier::external_body]
pub(crate) fn sha256_digest(data: &[u8]) -> (d: Vec<u8>)
    ensures
        d@ == sha256(data@),
        d@.len() == 32,
{
    <sha2::Sha256 as sha2::Digest>::digest(data).to_vec()
}

/// The lowercase hexadecimal digit of a value below 16.
pub open spec fn hex_char(d: nat) -> char {
    if d < 10 {
        crate::text::digit_char(d)
    } else if d == 10 {
        'a'
    } else if d == 11 {
        'b'
    } else if d == 12 {
        'c'
    } else if d == 13 {
        'd'
    } else if d == 14 {
        'e'
    } else {
        'f'
    }
}

/// Two lowercase hexadecimal digits per byte, high nibble first.
pub open spec fn hex_lower(b: Seq<u8>) -> Seq<char>
    decreases b.len(),
{
    if b.len() == 0 {
        seq![]
    } else {
        hex_lower(b.drop_last()) + seq![hex_char((b.last() / 16) as nat), hex_char((b.last() % 16) as nat)]
    }
}

/// `hex::encode`: each byte as two lowercase hexadecimal digits, high
/// nibble first (the table `0123456789abcdef` of the `hex` crate).
#[verifier::external_body]
pub(crate) fn hex_encode(data: &[u8]) -> (s: String)
    ensures
        s@ == hex_lower(data@),
{
    hex::encode(data)
}

} // verus!
