//! Authentication signature for the private channel.
//!
//! The exchange expects `Base64(HMAC-SHA256(secret, timestamp ++ "GET" ++
//! "/users/self/verify"))` over the empty body.  The canonical string is a
//! wire-compatibility contract: it must be byte-exact.

use vstd::prelude::*;
use vstd::string::StringExecFns;
use vstd::utf8::encode_utf8;

use base64::Engine;
use hmac::Hmac;
use hmac::Mac;
use sha2::Sha256;

verus! {

/// The 32 MAC bytes that HMAC-SHA256 assigns to a key and a message: a
/// function of its arguments alone.
pub uninterp spec fn hmac_sha256_of(key: Seq<u8>, msg: Seq<u8>) -> Seq<u8>;

/// The standard-alphabet, padded Base64 rendering of a byte sequence: a
/// function of its argument alone.
pub uninterp spec fn base64_std_of(bytes: Seq<u8>) -> Seq<char>;

/// The canonical string that is signed: timestamp, method, request path,
/// empty body.
pub open spec fn signing_payload(timestamp: Seq<char>) -> Seq<char> {
    timestamp + "GET"@ + "/users/self/verify"@
}

/// The signature owed for a secret and a timestamp.
pub open spec fn signature_spec(secret: Seq<char>, timestamp: Seq<char>) -> Seq<char> {
    base64_std_of(
        hmac_sha256_of(encode_utf8(secret), encode_utf8(signing_payload(timestamp))),
    )
}

/// Relies on hmac's `Hmac::<Sha256>` (`new_from_slice`, `update`,
/// `finalize`): the 32-byte MAC depends on key and message alone, and any
/// key length is accepted.
#[verifier::external_body]
fn hmac_sha256(key: &[u8], msg: &[u8]) -> (r: Vec<u8>)
    ensures
        r@ == hmac_sha256_of(key@, msg@),
        r@.len() == 32,
{
    let mut mac = <Hmac<Sha256> as Mac>::new_from_slice(key).unwrap();
    mac.update(msg);
    mac.finalize().into_bytes().to_vec()
}

/// Relies on base64's `STANDARD` engine `encode`: padded output, four
/// characters for every three input bytes, a function of the bytes alone.
#[verifier::external_body]
fn base64_encode(bytes: &[u8]) -> (r: String)
    requires
        bytes@.len() <= usize::MAX / 4,
    ensures
        r@ == base64_std_of(bytes@),
        r@.len() == 4 * ((bytes@.len() + 2) / 3),
{
    base64::engine::general_purpose::STANDARD.encode(bytes)
}

/// Signs the login challenge: Base64 of the HMAC-SHA256 of the canonical
/// string, keyed by the account secret.
pub fn generate_sign(secret: &str, timestamp: &str) -> (r: String)
    ensures
        r@ == signature_spec(secret@, timestamp@),
{
    let mut message = timestamp.to_owned();
    message.append("GET");
    message.append("/users/self/verify");
    proof {
        assert(message@ == signing_payload(timestamp@));
    }
    let digest = hmac_sha256(secret.as_bytes(), message.as_str().as_bytes());
    base64_encode(digest.as_slice())
}

/// Law: the signature is a function of secret and timestamp alone; two
/// signings of equal inputs agree.
pub proof fn lemma_sign_deterministic(
    secret1: Seq<char>,
    ts1: Seq<char>,
    secret2: Seq<char>,
    ts2: Seq<char>,
)
    requires
        secret1 == secret2,
        ts1 == ts2,
    ensures
        signature_spec(secret1, ts1) == signature_spec(secret2, ts2),
{
}

} // verus!
