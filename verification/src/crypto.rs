//! Request signing primitives: HMAC-SHA256 (crates `hmac` and `sha2`) and
//! lowercase hexadecimal encoding (crate `hex`).

use hmac::{Hmac, Mac};
use sha2::Sha256;
use vstd::prelude::*;

verus! {

/// The HMAC-SHA256 tag of `message` under `key`, as computed by the `hmac`
/// crate over `sha2::Sha256`.
pub uninterp spec fn hmac_sha256_of(key: Seq<u8>, message: Seq<u8>) -> Seq<u8>;

/// Lowercase hexadecimal digit of `n < 16`.
pub open spec fn hex_digit(n: int) -> char {
    if n == 0 { '0' } else if n == 1 { '1' } else if n == 2 { '2' } else if n == 3 { '3' }
    else if n == 4 { '4' } else if n == 5 { '5' } else if n == 6 { '6' } else if n == 7 { '7' }
    else if n == 8 { '8' } else if n == 9 { '9' } else if n == 10 { 'a' } else if n == 11 { 'b' }
    else if n == 12 { 'c' } else if n == 13 { 'd' } else if n == 14 { 'e' } else { 'f' }
}

/// Lowercase hexadecimal encoding: two digits per byte, high nibble first.
pub open spec fn hex_lower(bytes: Seq<u8>) -> Seq<char>
    decreases bytes.len(),
{
    if bytes.len() == 0 {
        Seq::<char>::empty()
    } else {
        seq![hex_digit(bytes[0] as int / 16), hex_digit(bytes[0] as int % 16)] + hex_lower(bytes.skip(1))
    }
}

/// A lowercase hexadecimal digit.
pub open spec fn is_hex_char(c: char) -> bool {
    ||| c == '0' ||| c == '1' ||| c == '2' ||| c == '3' ||| c == '4' ||| c == '5' ||| c == '6' ||| c == '7'
    ||| c == '8' ||| c == '9' ||| c == 'a' ||| c == 'b' ||| c == 'c' ||| c == 'd' ||| c == 'e' ||| c == 'f'
}

/// Every character of `s` is a lowercase hexadecimal digit.
pub open spec fn is_lower_hex(s: Seq<char>) -> bool {
    forall|i: int| 0 <= i < s.len() ==> #[trigger] is_hex_char(s[i])
}

/// HMAC-SHA256 through `Hmac::<Sha256>::new_from_slice`, `Mac::update` and
/// `Mac::finalize` (crates `hmac` 0.12 and `sha2` 0.10).
/// Trusted: the tag is `hmac_sha256_of(key, message)` and is 32 bytes long
/// (`Sha256`'s output size). `new_from_slice` accepts keys of every length
/// in `hmac`'s source, so the `unwrap` never fails.
#[verifier::external_body]
pub(crate) fn hmac_sha256(key: &[u8], message: &[u8]) -> (tag: Vec<u8>)
    ensures
        tag@ == hmac_sha256_of(key@, message@),
        tag@.len() == 32,
{
    let mut mac = <Hmac<Sha256> as Mac>::new_from_slice(key).unwrap();
    mac.update(message);
    mac.finalize().into_bytes().to_vec()
}

/// `hex::encode`. Trusted: the result is the lowercase hexadecimal encoding
/// of `data`, two digits per byte, high nibble first, as `hex`'s source
/// writes it from the table `0123456789abcdef`.
#[verifier::external_body]
pub(crate) fn hex_encode(data: &[u8]) -> (s: String)
    ensures
        s@ == hex_lower(data@),
{
    hex::encode(data)
}

/// The encoding is made of lowercase hexadecimal digits.
pub proof fn lemma_hex_lower_digits(bytes: Seq<u8>)
    ensures
        is_lower_hex(hex_lower(bytes)),
    decreases bytes.len(),
{
    if bytes.len() > 0 {
        lemma_hex_lower_digits(bytes.skip(1));
        let head = seq![hex_digit(bytes[0] as int / 16), hex_digit(bytes[0] as int % 16)];
        let rest = hex_lower(bytes.skip(1));
        assert forall|i: int| 0 <= i < hex_lower(bytes).len() implies #[trigger] is_hex_char(hex_lower(bytes)[i]) by {
            if i >= 2 {
                assert(hex_lower(bytes)[i] == rest[i - 2]);
            } else {
                assert(hex_lower(bytes)[i] == head[i]);
            }
        }
    }
}

/// The encoding has two characters per byte.
pub proof fn lemma_hex_lower_len(bytes: Seq<u8>)
    ensures
        hex_lower(bytes).len() == 2 * bytes.len(),
    decreases bytes.len(),
{
    if bytes.len() > 0 {
        lemma_hex_lower_len(bytes.skip(1));
    }
}

} // verus!
