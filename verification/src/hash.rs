//! File fingerprints: a digest of the file's bytes, written in Base64 and
//! quoted as Rust's `Debug` writes a string.

use vstd::prelude::*;

verus! {

/// The digest a fingerprint is made with.
#[derive(Clone, Copy, Debug, PartialEq, Eq, Structural)]
pub enum HashType {
    MD5,
    Sha1,
    Sha256,
    Sha512,
}

/// The MD5 digest of the bytes (what `md5::Md5::digest` returns).
pub uninterp spec fn md5_digest(data: Seq<u8>) -> Seq<u8>;

/// The SHA-1 digest of the bytes (what `sha1::Sha1::digest` returns).
pub uninterp spec fn sha1_digest(data: Seq<u8>) -> Seq<u8>;

/// The SHA-256 digest of the bytes (what `sha2::Sha256::digest` returns).
pub uninterp spec fn sha256_digest(data: Seq<u8>) -> Seq<u8>;

/// The SHA-512 digest of the bytes (what `sha2::Sha512::digest` returns).
pub uninterp spec fn sha512_digest(data: Seq<u8>) -> Seq<u8>;

/// The character of the standard Base64 alphabet for a six-bit value:
/// `A`-`Z` for 0-25, `a`-`z` for 26-51, `0`-`9` for 52-61, then `+`, `/`.
pub open spec fn base64_digit(v: int) -> char {
    if v < 26 {
        (65 + v) as char
    } else if v < 52 {
        (97 + v - 26) as char
    } else if v < 62 {
        (48 + v - 52) as char
    } else if v == 62 {
        '+'
    } else {
        '/'
    }
}

/// A character of the padded standard Base64 alphabet.
pub open spec fn is_base64_char(c: char) -> bool {
    ('A' <= c <= 'Z') || ('a' <= c <= 'z') || ('0' <= c <= '9') || c == '+' || c == '/' || c == '='
}

/// Padded standard Base64: each group of three bytes becomes four
/// characters of six bits each; a last group of one or two bytes becomes
/// two or three characters, filled up to four with `'='`.
pub open spec fn base64_encode(d: Seq<u8>) -> Seq<char>
    decreases d.len(),
{
    if d.len() == 0 {
        Seq::empty()
    } else if d.len() == 1 {
        seq![base64_digit(d[0] as int / 4), base64_digit((d[0] as int % 4) * 16), '=', '=']
    } else if d.len() == 2 {
        seq![
            base64_digit(d[0] as int / 4),
            base64_digit((d[0] as int % 4) * 16 + d[1] as int / 16),
            base64_digit((d[1] as int % 16) * 4),
            '=',
        ]
    } else {
        seq![
            base64_digit(d[0] as int / 4),
            base64_digit((d[0] as int % 4) * 16 + d[1] as int / 16),
            base64_digit((d[1] as int % 16) * 4 + d[2] as int / 64),
            base64_digit(d[2] as int % 64),
        ] + base64_encode(d.skip(3))
    }
}

/// `md5::Md5::digest` (through `digest::Digest`): the 16-byte MD5 digest;
/// the result is named `md5_digest` of the input.
#[verifier::external_body]
fn md5_of(data: &[u8]) -> (r: Vec<u8>)
    ensures
        r@ == md5_digest(data@),
        r@.len() == 16,
{
    <md5::Md5 as md5::Digest>::digest(data).to_vec()
}

/// `sha1::Sha1::digest` (through `digest::Digest`): the 20-byte SHA-1
/// digest; the result is named `sha1_digest` of the input.
#[verifier::external_body]
fn sha1_of(data: &[u8]) -> (r: Vec<u8>)
    ensures
        r@ == sha1_digest(data@),
        r@.len() == 20,
{
    <sha1::Sha1 as sha1::Digest>::digest(data).to_vec()
}

/// `sha2::Sha256::digest` (through `digest::Digest`): the 32-byte SHA-256
/// digest; the result is named `sha256_digest` of the input.
#[verifier::external_body]
fn sha256_of(data: &[u8]) -> (r: Vec<u8>)
    ensures
        r@ == sha256_digest(data@),
        r@.len() == 32,
{
    <sha2::Sha256 as sha2::Digest>::digest(data).to_vec()
}

/// `sha2::Sha512::digest` (through `digest::Digest`): the 64-byte SHA-512
/// digest; the result is named `sha512_digest` of the input.
#[verifier::external_body]
fn sha512_of(data: &[u8]) -> (r: Vec<u8>)
    ensures
        r@ == sha512_digest(data@),
        r@.len() == 64,
{
    <sha2::Sha512 as sha2::Digest>::digest(data).to_vec()
}

/// `base64ct::Base64::encode_string` (through `base64ct::Encoding`):
/// the padded standard Base64 text of the input, as `base64_encode`
/// spells it out.  It panics where four times the input length overflows
/// `usize`, which `requires` leaves out.
#[verifier::external_body]
fn base64_of(data: &[u8]) -> (r: String)
    requires
        data@.len() <= usize::MAX / 4,
    ensures
        r@ == base64_encode(data@),
{
    <base64ct::Base64 as base64ct::Encoding>::encode_string(data)
}

/// Every six-bit value has a character of the alphabet, and none is the
/// padding `'='`.
pub proof fn lemma_base64_digit(v: int)
    requires
        0 <= v < 64,
    ensures
        is_base64_char(base64_digit(v)),
        base64_digit(v) != '=',
{
}

/// Base64 text has four characters for every three bytes or part of
/// them, all from the alphabet.
pub proof fn lemma_base64_encode(d: Seq<u8>)
    ensures
        base64_encode(d).len() == 4 * ((d.len() + 2) / 3),
        forall|i: int| 0 <= i < base64_encode(d).len() ==> is_base64_char(#[trigger] base64_encode(d)[i]),
    decreases d.len(),
{
    if d.len() == 0 {
    } else if d.len() == 1 {
        lemma_base64_digit(d[0] as int / 4);
        lemma_base64_digit((d[0] as int % 4) * 16);
    } else if d.len() == 2 {
        lemma_base64_digit(d[0] as int / 4);
        lemma_base64_digit((d[0] as int % 4) * 16 + d[1] as int / 16);
        lemma_base64_digit((d[1] as int % 16) * 4);
    } else {
        let q = seq![
            base64_digit(d[0] as int / 4),
            base64_digit((d[0] as int % 4) * 16 + d[1] as int / 16),
            base64_digit((d[1] as int % 16) * 4 + d[2] as int / 64),
            base64_digit(d[2] as int % 64),
        ];
        lemma_base64_digit(d[0] as int / 4);
        lemma_base64_digit((d[0] as int % 4) * 16 + d[1] as int / 16);
        lemma_base64_digit((d[1] as int % 16) * 4 + d[2] as int / 64);
        lemma_base64_digit(d[2] as int % 64);
        let rest = d.skip(3);
        lemma_base64_encode(rest);
        assert(base64_encode(d) == q + base64_encode(rest));
        assert forall|i: int| 0 <= i < base64_encode(d).len() implies is_base64_char(
            #[trigger] base64_encode(d)[i],
        ) by {
            if i >= 4 {
                assert(base64_encode(d)[i] == base64_encode(rest)[i - 4]);
            }
        }
    }
}

/// The digest that `mode` names.
pub open spec fn digest_of(mode: HashType, data: Seq<u8>) -> Seq<u8> {
    match mode {
        HashType::MD5 => md5_digest(data),
        HashType::Sha1 => sha1_digest(data),
        HashType::Sha256 => sha256_digest(data),
        HashType::Sha512 => sha512_digest(data),
    }
}

/// The number of bytes in a digest of kind `mode`.
pub open spec fn digest_len(mode: HashType) -> nat {
    match mode {
        HashType::MD5 => 16,
        HashType::Sha1 => 20,
        HashType::Sha256 => 32,
        HashType::Sha512 => 64,
    }
}

/// The fingerprint text: the Base64 of the digest between double quotes.
pub open spec fn fingerprint(mode: HashType, data: Seq<u8>) -> Seq<char> {
    seq!['"'] + base64_encode(digest_of(mode, data)) + seq!['"']
}

/// A string as `{:?}` writes it, for text that needs no escapes
/// (Base64 text): between double quotes.
pub fn debug_quoted(s: &String) -> (r: String)
    requires
        forall|i: int| 0 <= i < s@.len() ==> is_base64_char(#[trigger] s@[i]),
    ensures
        r@ == seq!['"'] + s@ + seq!['"'],
{
    let mut r = String::from_str("\"");
    r.append(s.as_str());
    r.append("\"");
    proof {
        reveal_strlit("\"");
        assert("\""@ =~= seq!['"']);
        assert(r@ =~= seq!['"'] + s@ + seq!['"']);
    }
    r
}

/// The fingerprint of a file's bytes: digest as `mode` says, Base64,
/// quoted.
pub fn hash_bytes(data: &[u8], mode: HashType) -> (r: String)
    ensures
        r@ == fingerprint(mode, data@),
        r@.len() == 2 + 4 * ((digest_len(mode) + 2) / 3),
        r@[0] == '"',
        r@[r@.len() - 1] == '"',
        forall|i: int| 1 <= i < r@.len() - 1 ==> is_base64_char(#[trigger] r@[i]),
{
    let digest = match mode {
        HashType::MD5 => md5_of(data),
        HashType::Sha1 => sha1_of(data),
        HashType::Sha256 => sha256_of(data),
        HashType::Sha512 => sha512_of(data),
    };
    let text = base64_of(digest.as_slice());
    proof {
        lemma_base64_encode(digest@);
    }
    let r = debug_quoted(&text);
    assert forall|i: int| 1 <= i < r@.len() - 1 implies is_base64_char(#[trigger] r@[i]) by {
        assert(r@[i] == text@[i - 1]);
    }
    r
}

} // verus!
