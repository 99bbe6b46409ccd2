//! UUID texts and base64.

use base64::Engine;
use uuid::Uuid;
use vstd::prelude::*;

use crate::text;

verus! {

// ---------------------------------------------------------------------------
// UUIDs
// ---------------------------------------------------------------------------

/// The lower-case hexadecimal digit for `n`, which is below sixteen.
pub open spec fn hex_char(n: int) -> char {
    if n < 10 {
        (('0' as u32) + n) as char
    } else {
        (('a' as u32) + (n - 10)) as char
    }
}

/// The digits of the bytes, two for each.
pub open spec fn hex(b: Seq<u8>) -> Seq<char>
    decreases b.len(),
{
    if b.len() == 0 {
        seq![]
    } else {
        hex(b.drop_last()).push(hex_char(b.last() as int / 16)).push(hex_char(b.last() as int % 16))
    }
}

/// The hyphenated form of sixteen bytes.
pub open spec fn hyphenated(b: Seq<u8>) -> Seq<char> {
    hex(b.subrange(0, 4)) + seq!['-'] + hex(b.subrange(4, 6)) + seq!['-'] + hex(b.subrange(6, 8))
        + seq!['-'] + hex(b.subrange(8, 10)) + seq!['-'] + hex(b.subrange(10, 16))
}

pub open spec fn is_hex(c: char) -> bool {
    text::is_digit(c) || ('a' <= c && c <= 'f') || ('A' <= c && c <= 'F')
}

/// Whether `s` has the hyphenated form of a UUID: 36 characters, hyphens at four
/// places and hexadecimal digits at the others.
pub open spec fn is_hyphenated(s: Seq<char>) -> bool {
    s.len() == 36 && forall|i: int|
        0 <= i < 36 ==> if i == 8 || i == 13 || i == 18 || i == 23 {
            #[trigger] s[i] == '-'
        } else {
            is_hex(s[i])
        }
}

/// Whether `s` has the hyphenated form of a UUID in lower case.
pub open spec fn is_canonical(s: Seq<char>) -> bool {
    is_hyphenated(s) && forall|i: int| 0 <= i < s.len() ==> !('A' <= #[trigger] s[i] && s[i] <= 'F')
}

/// Whether `s` is the text of a random UUID: of version 4, and of the usual variant.
pub open spec fn is_random_uuid(s: Seq<char>) -> bool {
    &&& is_canonical(s)
    &&& s[14] == '4'
    &&& s[19] == '8' || s[19] == '9' || s[19] == 'a' || s[19] == 'b'
}

pub fn has_uuid_form(s: &str) -> (r: bool)
    ensures
        r == is_hyphenated(s@),
{
    let chars = text::to_chars(s);
    if chars.len() != 36 {
        return false;
    }
    let mut i: usize = 0;
    while i < 36
        invariant
            i <= 36,
            chars@ == s@,
            chars@.len() == 36,
            forall|k: int|
                0 <= k < i ==> if k == 8 || k == 13 || k == 18 || k == 23 {
                    #[trigger] s@[k] == '-'
                } else {
                    is_hex(s@[k])
                },
        decreases 36 - i,
    {
        let c = chars[i];
        assert(c == s@[i as int]);
        let ok = if i == 8 || i == 13 || i == 18 || i == 23 {
            c == '-'
        } else {
            ('0' <= c && c <= '9') || ('a' <= c && c <= 'f') || ('A' <= c && c <= 'F')
        };
        if !ok {
            return false;
        }
        i = i + 1;
    }
    true
}

/// A UUID text takes as many bytes as it has characters.
pub proof fn lemma_uuid_len(s: Seq<char>)
    requires
        is_hyphenated(s),
    ensures
        vstd::utf8::encode_utf8(s).len() == 36,
{
    assert forall|i: int| 0 <= i < s.len() implies text::char_width(#[trigger] s[i]) == 1 by {
        if i == 8 || i == 13 || i == 18 || i == 23 {
            assert(s[i] == '-');
        } else {
            assert(is_hex(s[i]));
        }
    }
    text::lemma_narrow_len(s);
    text::lemma_utf8_len(s);
}

/// The bytes of the UUID that `s` writes in one of the forms that
/// `Uuid::parse_str` takes.
pub uninterp spec fn parsed_uuid(s: Seq<char>) -> Option<Seq<u8>>;

/// The view of optional bytes.
pub open spec fn opt_bytes(o: Option<Vec<u8>>) -> Option<Seq<u8>> {
    match o {
        Some(v) => Some(v@),
        None => None,
    }
}

/// `Uuid::parse_str`: the sixteen bytes, or nothing where `s` is no UUID. Which
/// texts it takes is left to its name, but for the hyphenated form, which it
/// takes, and other texts of that length, which it does not. Hyphenated in lower case,
/// the bytes are written as they were read.
#[verifier::external_body]
pub(crate) fn parse_uuid(s: &str) -> (r: Option<Vec<u8>>)
    ensures
        opt_bytes(r) == parsed_uuid(s@),
        r is Some ==> r->0@.len() == 16,
        text::utf8_len(s@) == 36 ==> (r is Some <==> is_hyphenated(s@)),
        is_canonical(s@) ==> r is Some && hyphenated(r->0@) == s@,
{
    Uuid::parse_str(s).ok().map(|u| u.as_bytes().to_vec())
}

/// Sixteen bytes as an array.
pub(crate) fn sixteen(b: &[u8]) -> (r: [u8; 16])
    requires
        b@.len() == 16,
    ensures
        r@ == b@,
{
    let r: [u8; 16] = [
        b[0],
        b[1],
        b[2],
        b[3],
        b[4],
        b[5],
        b[6],
        b[7],
        b[8],
        b[9],
        b[10],
        b[11],
        b[12],
        b[13],
        b[14],
        b[15],
    ];
    assert(r@ =~= b@);
    r
}

/// `Uuid::from_bytes` and its `Display`: the hyphenated form in lower case, which
/// `Uuid::parse_str` reads back.
#[verifier::external_body]
pub(crate) fn uuid_text(bytes: &[u8; 16]) -> (r: String)
    ensures
        r@ == hyphenated(bytes@),
        parsed_uuid(r@) == Some(bytes@),
{
    Uuid::from_bytes(*bytes).to_string()
}

/// The text of the version-5 UUID for a namespace and a name.
pub uninterp spec fn v5_uuid(namespace: u128, name: Seq<char>) -> Seq<char>;

/// `Uuid::new_v5` over the bytes of `name`, as text: a function of the namespace
/// and the name, in hyphenated form.
#[verifier::external_body]
pub(crate) fn uuid_v5(namespace: u128, name: &str) -> (r: String)
    ensures
        r@ == v5_uuid(namespace, name@),
        is_hyphenated(r@),
{
    Uuid::new_v5(&Uuid::from_u128(namespace), name.as_bytes()).to_string()
}

/// `Uuid::new_v4` as text: a random UUID, hyphenated in lower case, with its version and
/// variant. Which one it is, and that no other call gives it too, nothing says.
#[verifier::external_body]
pub(crate) fn fresh_uuid() -> (r: String)
    ensures
        is_random_uuid(r@),
{
    Uuid::new_v4().to_string()
}

/// The nil UUID.
pub open spec fn nil_uuid_text() -> Seq<char> {
    "00000000-0000-0000-0000-000000000000"@
}

/// The nil UUID: all digits are zero.
pub(crate) fn nil_uuid() -> (r: String)
    ensures
        r@ == nil_uuid_text(),
{
    "00000000-0000-0000-0000-000000000000".to_owned()
}

// ---------------------------------------------------------------------------
// Base64
// ---------------------------------------------------------------------------

/// The character of base64url for `n`, which is below 64.
pub open spec fn url_char(n: int) -> char {
    if n < 26 {
        (('A' as u32) + n) as char
    } else if n < 52 {
        (('a' as u32) + (n - 26)) as char
    } else if n < 62 {
        (('0' as u32) + (n - 52)) as char
    } else if n == 62 {
        '-'
    } else {
        '_'
    }
}

/// The base64url text, without padding, of the bytes: four characters for three bytes, and
/// two or three for what is left.
pub open spec fn base64url(b: Seq<u8>) -> Seq<char>
    decreases b.len(),
{
    if b.len() == 0 {
        seq![]
    } else if b.len() == 1 {
        let n = b[0] * 16;
        seq![url_char(n / 64), url_char(n % 64)]
    } else if b.len() == 2 {
        let n = (b[0] * 256 + b[1]) * 4;
        seq![url_char(n / 4096), url_char(n / 64 % 64), url_char(n % 64)]
    } else {
        let n = b[0] * 65536 + b[1] * 256 + b[2];
        seq![
            url_char(n / 262144),
            url_char(n / 4096 % 64),
            url_char(n / 64 % 64),
            url_char(n % 64),
        ] + base64url(b.skip(3))
    }
}

/// The bytes that a base64url text without padding stands for.
pub uninterp spec fn base64url_bytes(s: Seq<char>) -> Option<Seq<u8>>;

/// Whether `c` can stand in a base64url text.
pub open spec fn is_url_char(c: char) -> bool {
    ||| 'A' <= c && c <= 'Z'
    ||| 'a' <= c && c <= 'z'
    ||| '0' <= c && c <= '9'
    ||| c == '-'
    ||| c == '_'
}

/// Whether all characters of `s` can stand in a base64url text.
pub open spec fn is_url_safe(s: Seq<char>) -> bool {
    forall|i: int| 0 <= i < s.len() ==> is_url_char(#[trigger] s[i])
}

/// A base64url text has four characters for three bytes, all of its alphabet.
pub proof fn lemma_base64url(b: Seq<u8>)
    ensures
        base64url(b).len() == (4 * b.len() + 2) / 3,
        is_url_safe(base64url(b)),
    decreases b.len(),
{
    if b.len() > 2 {
        lemma_base64url(b.skip(3));
    }
}

/// `encode` of the `URL_SAFE_NO_PAD` engine. Decoding gives the bytes back.
#[verifier::external_body]
pub(crate) fn encode_base64url(b: &[u8]) -> (r: String)
    ensures
        r@ == base64url(b@),
        base64url_bytes(r@) == Some(b@),
{
    base64::engine::general_purpose::URL_SAFE_NO_PAD.encode(b)
}

/// `decode` of the `URL_SAFE_NO_PAD` engine. It takes no padding and no stray
/// bits in the last character, so a text that it takes is the encoding of what it
/// gives.
#[verifier::external_body]
pub(crate) fn decode_base64url(s: &str) -> (r: Option<Vec<u8>>)
    ensures
        opt_bytes(r) == base64url_bytes(s@),
        r is Some ==> base64url(r->0@) == s@,
{
    base64::engine::general_purpose::URL_SAFE_NO_PAD.decode(s).ok()
}

/// The bytes that a padded base64 text stands for.
pub uninterp spec fn base64_bytes(s: Seq<char>) -> Option<Seq<u8>>;

/// `decode` of the `STANDARD` engine: the bytes, or nothing where `s` is not
/// padded base64.
#[verifier::external_body]
pub(crate) fn decode_base64(s: &str) -> (r: Option<Vec<u8>>)
    ensures
        opt_bytes(r) == base64_bytes(s@),
{
    base64::engine::general_purpose::STANDARD.decode(s).ok()
}

/// `encode` of the `STANDARD` engine. Decoding gives the bytes back.
#[verifier::external_body]
pub(crate) fn encode_base64(b: &[u8]) -> (r: String)
    ensures
        base64_bytes(r@) == Some(b@),
{
    base64::engine::general_purpose::STANDARD.encode(b)
}

} // verus!
