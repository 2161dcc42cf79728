//! Request signing for the exchange's authenticated API, and the private
//! key's decoding.

use vstd::prelude::*;
use vstd::string::*;
use base64::Engine;
use hmac::Mac;
use crate::errors::{ClientError, ConfigError};
use crate::proxy::{starts_with, strip_prefix};

verus! {

/// Decimal text of an integer: its digits, with a leading '-' when negative.
pub open spec fn int_text(n: int) -> Seq<char> {
    if n < 0 { seq!['-'] + digits_text(-n) } else { digits_text(n) }
}

/// Decimal digits of a non-negative integer, without leading zeros.
pub open spec fn digits_text(n: int) -> Seq<char>
    decreases n,
{
    if n < 10 {
        seq![digit_char(n)]
    } else {
        digits_text(n / 10) + seq![digit_char(n % 10)]
    }
}

pub open spec fn digit_char(d: int) -> char {
    if d == 0 { '0' } else if d == 1 { '1' } else if d == 2 { '2' } else if d == 3 { '3' } else if d == 4 { '4' }
    else if d == 5 { '5' } else if d == 6 { '6' } else if d == 7 { '7' } else if d == 8 { '8' } else { '9' }
}

/// Bytes decoded from URL-safe, padded base64 text; none when malformed.
pub uninterp spec fn url_safe_decoded(s: Seq<char>) -> Option<Seq<u8>>;

/// URL-safe, padded base64 text of bytes.
pub uninterp spec fn url_safe_encoded(b: Seq<u8>) -> Seq<char>;

/// HMAC-SHA256 of a message's UTF-8 bytes under a key.
pub uninterp spec fn hmac_sha256_of(key: Seq<u8>, message: Seq<char>) -> Seq<u8>;

/// Value of a hexadecimal digit, either case.
pub open spec fn hex_digit(c: char) -> Option<int> {
    let v = c as u32;
    if 48 <= v <= 57 {
        Some(v - 48)
    } else if 97 <= v <= 102 {
        Some(v - 87)
    } else if 65 <= v <= 70 {
        Some(v - 55)
    } else {
        None
    }
}

/// Bytes decoded from hexadecimal text, two digits per byte, high digit
/// first; none for an odd length or a character that is not a hex digit.
pub open spec fn hex_decoded(s: Seq<char>) -> Option<Seq<u8>>
    decreases s.len(),
{
    if s.len() == 0 {
        Some(Seq::empty())
    } else if s.len() < 2 {
        None
    } else {
        match (hex_digit(s[0]), hex_digit(s[1]), hex_decoded(s.subrange(2, s.len() as int))) {
            (Some(h), Some(l), Some(rest)) => Some(seq![(h * 16 + l) as u8] + rest),
            _ => None,
        }
    }
}

/// The one-character text of a decimal digit.
fn digit_text(d: u64) -> (r: &'static str)
    requires
        d < 10,
    ensures
        r@ == seq![digit_char(d as int)],
{
    proof {
        reveal_strlit("0");
        reveal_strlit("1");
        reveal_strlit("2");
        reveal_strlit("3");
        reveal_strlit("4");
        reveal_strlit("5");
        reveal_strlit("6");
        reveal_strlit("7");
        reveal_strlit("8");
        reveal_strlit("9");
    }
    let r = match d {
        0 => "0",
        1 => "1",
        2 => "2",
        3 => "3",
        4 => "4",
        5 => "5",
        6 => "6",
        7 => "7",
        8 => "8",
        _ => "9",
    };
    assert(r@ =~= seq![digit_char(d as int)]);
    r
}

/// Appends the decimal digits of `n`.
fn append_digits(out: &mut String, n: u64)
    ensures
        final(out)@ == old(out)@ + digits_text(n as int),
    decreases n,
{
    if n >= 10 {
        append_digits(out, n / 10);
    }
    out.append(digit_text(n % 10));
    proof {
        if n >= 10 {
            assert(final(out)@ =~= old(out)@ + digits_text(n as int));
        } else {
            assert(n % 10 == n);
        }
    }
}

/// Decimal text of an integer.
pub fn integer_text(n: i64) -> (r: String)
    ensures
        r@ == int_text(n as int),
{
    let mut s = String::new();
    if n < 0 {
        s.append("-");
        proof { reveal_strlit("-"); }
        let m: u64 = (0i128 - n as i128) as u64;
        append_digits(&mut s, m);
        assert(s@ =~= int_text(n as int));
    } else {
        append_digits(&mut s, n as u64);
        assert(s@ =~= int_text(n as int));
    }
    s
}

/// Relies on `base64`'s `URL_SAFE` engine `decode`.
#[verifier::external_body]
fn decode_url_safe(s: &str) -> (r: Option<Vec<u8>>)
    ensures
        match url_safe_decoded(s@) {
            Some(b) => r.is_some() && r.unwrap()@ == b,
            None => r.is_none(),
        },
{
    base64::engine::general_purpose::URL_SAFE.decode(s).ok()
}

/// Relies on `base64`'s `URL_SAFE` engine `encode`.
#[verifier::external_body]
fn encode_url_safe(b: &Vec<u8>) -> (r: String)
    ensures
        r@ == url_safe_encoded(b@),
{
    base64::engine::general_purpose::URL_SAFE.encode(b)
}

/// Relies on `hmac::Hmac<sha2::Sha256>`: `new_from_slice` accepts a key
/// of any length, and the tag has SHA-256's 32 bytes.
#[verifier::external_body]
fn hmac_sha256(key: &Vec<u8>, message: &str) -> (r: Option<Vec<u8>>)
    ensures
        r.is_some(),
        r.unwrap()@ == hmac_sha256_of(key@, message@),
        r.unwrap()@.len() == 32,
{
    let mut mac = <hmac::Hmac<sha2::Sha256> as Mac>::new_from_slice(key).ok()?;
    mac.update(message.as_bytes());
    Some(mac.finalize().into_bytes().to_vec())
}

/// Relies on `hex::decode`: pairs of hex digits of either case, one byte each.
#[verifier::external_body]
fn decode_hex(s: &str) -> (r: Option<Vec<u8>>)
    ensures
        match hex_decoded(s@) {
            Some(b) => r.is_some() && r.unwrap()@ == b,
            None => r.is_none(),
        },
{
    hex::decode(s).ok()
}

/// The text signed for a request: timestamp, method, path and body, run together.
pub fn l2_message(timestamp: i64, method: &str, path: &str, body: &str) -> (r: String)
    ensures
        r@ == int_text(timestamp as int) + method@ + path@ + body@,
{
    let mut s = integer_text(timestamp);
    s.append(method);
    s.append(path);
    s.append(body);
    s
}

/// The request signature under a decoded secret: base64 of the message's HMAC.
pub fn sign_l2_message(secret: &Vec<u8>, message: &str) -> (r: Result<String, ClientError>)
    ensures
        r is Ok,
        r.unwrap()@ == url_safe_encoded(hmac_sha256_of(secret@, message@)),
{
    match hmac_sha256(secret, message) {
        Some(tag) => Ok(encode_url_safe(&tag)),
        None => Err(ClientError::OrderError(String::from_str("HMAC error"))),
    }
}

/// Signs a request with the base64 secret of the API credentials; fails
/// when the secret is not valid base64.
pub fn compute_l2_signature(secret: &str, timestamp: i64, method: &str, path: &str, body: &str) -> (r: Result<String, ClientError>)
    ensures
        match url_safe_decoded(secret@) {
            None => r is Err && r->Err_0 is OrderError,
            Some(key) => r is Ok && r.unwrap()@ == url_safe_encoded(
                hmac_sha256_of(key, int_text(timestamp as int) + method@ + path@ + body@),
            ),
        },
{
    let message = l2_message(timestamp, method, path, body);
    let key = match decode_url_safe(secret) {
        Some(k) => k,
        None => return Err(ClientError::OrderError(String::from_str("Invalid secret encoding"))),
    };
    sign_l2_message(&key, message.as_str())
}

/// The authentication headers of a signed request, in order.
pub fn l2_headers(address: &str, api_key: &str, passphrase: &str, signature: &str, timestamp: i64) -> (r: Vec<(String, String)>)
    ensures
        r@.len() == 5,
        r@[0].0@ == "POLY_ADDRESS"@ && r@[0].1@ == address@,
        r@[1].0@ == "POLY_API_KEY"@ && r@[1].1@ == api_key@,
        r@[2].0@ == "POLY_PASSPHRASE"@ && r@[2].1@ == passphrase@,
        r@[3].0@ == "POLY_SIGNATURE"@ && r@[3].1@ == signature@,
        r@[4].0@ == "POLY_TIMESTAMP"@ && r@[4].1@ == int_text(timestamp as int),
{
    let mut h: Vec<(String, String)> = Vec::new();
    h.push((String::from_str("POLY_ADDRESS"), address.to_owned()));
    h.push((String::from_str("POLY_API_KEY"), api_key.to_owned()));
    h.push((String::from_str("POLY_PASSPHRASE"), passphrase.to_owned()));
    h.push((String::from_str("POLY_SIGNATURE"), signature.to_owned()));
    h.push((String::from_str("POLY_TIMESTAMP"), integer_text(timestamp)));
    h
}

/// The hex digits of a private key, without a leading "0x".
pub open spec fn key_digits(k: Seq<char>) -> Seq<char> {
    if starts_with(k, "0x"@) { k.subrange(2, k.len() as int) } else { k }
}

/// Decodes a 32-byte private key written in hex, with or without "0x".
pub fn private_key_bytes(private_key: &str) -> (r: Result<Vec<u8>, ConfigError>)
    ensures
        match hex_decoded(key_digits(private_key@)) {
            None => r is Err && r->Err_0 is InvalidValue,
            Some(b) => if b.len() == 32 {
                r is Ok && r.unwrap()@ == b
            } else {
                r is Err && r->Err_0 is InvalidValue
            },
        },
{
    proof { reveal_strlit("0x"); }
    let key = match strip_prefix(private_key, "0x") {
        Some(rest) => {
            proof {
                assert(private_key@.subrange(0, 2) =~= "0x"@);
                assert(rest@ =~= private_key@.subrange(2, private_key@.len() as int));
            }
            rest
        },
        None => private_key,
    };
    let bytes = match decode_hex(key) {
        Some(b) => b,
        None => return Err(ConfigError::InvalidValue(String::from_str("PRIVATE_KEY format"))),
    };
    if bytes.len() != 32 {
        return Err(ConfigError::InvalidValue(String::from_str("PRIVATE_KEY length")));
    }
    Ok(bytes)
}

} // verus!
