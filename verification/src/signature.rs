//! The keyed digest with which requests are signed.

use hmac::Mac;
use vstd::prelude::*;

verus! {

/// The HMAC-MD5 tag of `data` under `key`, as the `hmac` and `md-5` crates
/// compute it.
pub uninterp spec fn hmac_md5_tag(key: Seq<u8>, data: Seq<u8>) -> Seq<u8>;

/// Runs `Hmac<Md5>` of the `hmac` crate over `data`: `new_from_slice`, which
/// accepts a key of any length, then `update` and `finalize`. The tag is
/// named, and it has the sixteen bytes that `Md5` fixes as its output size;
/// nothing more is claimed of its bytes.
#[verifier::external_body]
fn hmac_md5(key: &[u8], data: &[u8]) -> (tag: Vec<u8>)
    ensures
        tag@ == hmac_md5_tag(key@, data@),
        tag@.len() == 16,
{
    let mut mac = hmac::Hmac::<md5::Md5>::new_from_slice(key).unwrap();
    mac.update(data);
    mac.finalize().into_bytes().to_vec()
}

/// The upper-case hexadecimal digit for `n`.
pub open spec fn hex_digit(n: int) -> char {
    if n < 10 {
        ('0' as int + n) as char
    } else {
        ('A' as int + n - 10) as char
    }
}

/// Two upper-case hexadecimal digits for each byte, the high one first.
pub open spec fn hex_upper(bytes: Seq<u8>) -> Seq<char>
    decreases bytes.len(),
{
    if bytes.len() == 0 {
        Seq::empty()
    } else {
        hex_upper(bytes.drop_last()).push(hex_digit(bytes.last() as int / 16)).push(
            hex_digit(bytes.last() as int % 16),
        )
    }
}

/// Whether `c` is one of `0123456789ABCDEF`.
pub open spec fn is_upper_hex(c: char) -> bool {
    ('0' <= c && c <= '9') || ('A' <= c && c <= 'F')
}

/// The hexadecimal text of some bytes has two characters for each byte, and
/// every one of them is an upper-case hexadecimal digit.
pub proof fn lemma_hex_upper_shape(bytes: Seq<u8>)
    ensures
        hex_upper(bytes).len() == 2 * bytes.len(),
        forall|i: int| 0 <= i < hex_upper(bytes).len() ==> is_upper_hex(#[trigger] hex_upper(bytes)[i]),
    decreases bytes.len(),
{
    if bytes.len() > 0 {
        lemma_hex_upper_shape(bytes.drop_last());
        let high = bytes.last() as int / 16;
        let low = bytes.last() as int % 16;
        assert(is_upper_hex(hex_digit(high)));
        assert(is_upper_hex(hex_digit(low)));
    }
}

/// Calls `hex::encode_upper`, which writes each byte as two digits out of
/// `0123456789ABCDEF`, the high four bits first.
#[verifier::external_body]
fn encode_upper(bytes: &Vec<u8>) -> (text: String)
    ensures
        text@ == hex_upper(bytes@),
{
    hex::encode_upper(bytes)
}

/// The HMAC-MD5 tag of `data` under `key` in upper-case hexadecimal.
pub open spec fn hex_hmac_md5_of(key: Seq<u8>, data: Seq<u8>) -> Seq<char> {
    hex_upper(hmac_md5_tag(key, data))
}

/// The HMAC-MD5 tag of `data` under `key` in upper-case hexadecimal.
pub fn hex_hmac_md5(key: &[u8], data: &[u8]) -> (text: String)
    ensures
        text@ == hex_hmac_md5_of(key@, data@),
        text@.len() == 32,
        forall|i: int| 0 <= i < 32 ==> is_upper_hex(#[trigger] text@[i]),
{
    let tag = hmac_md5(key, data);
    proof {
        lemma_hex_upper_shape(tag@);
    }
    encode_upper(&tag)
}

/// The tag of the text `data` under the text `key`, both taken as UTF-8.
pub open spec fn sign_text(key: Seq<char>, data: Seq<char>) -> Seq<char> {
    hex_hmac_md5_of(vstd::utf8::encode_utf8(key), vstd::utf8::encode_utf8(data))
}

/// Signs the text `data` with the text `key`.
pub fn sign(key: &str, data: &str) -> (text: String)
    ensures
        text@ == sign_text(key@, data@),
        text@.len() == 32,
        forall|i: int| 0 <= i < 32 ==> is_upper_hex(#[trigger] text@[i]),
{
    hex_hmac_md5(key.as_bytes(), data.as_bytes())
}

} // verus!
