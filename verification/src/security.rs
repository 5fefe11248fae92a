//! Licensing stubs and the data-obfuscation codec.
//!
//! Encryption here is a base64 obfuscation: encoding goes through the
//! outside engine, and decoding is proved to invert it exactly.

use vstd::prelude::*;
use vstd::utf8::{valid_utf8, encode_utf8, decode_utf8};
use vstd::string::StringSliceAdditionalSpecFns;
use crate::types::{AppError, AppResult};

verus! {

/// Outcome of the build-expiration check, as shown to the user.
#[derive(Debug, Clone, PartialEq, Eq)]
pub struct TimeBombStatus {
    pub is_expired: bool,
    pub expiration_date: String,
    pub current_date: String,
    pub days_remaining: i64,
    /// `"Network"` or `"System"`, naming the clock that was trusted.
    pub verification_source: String,
}

/// What the standard base64 engine encodes a byte sequence to.  The
/// result depends on the bytes alone.
pub uninterp spec fn b64_of(b: Seq<u8>) -> Seq<char>;

/// Relies on base64's `STANDARD` engine `encode`: the result is a
/// function of the input bytes alone, four characters per three-byte
/// block, padded.  The engine panics only when that output length
/// overflows `usize`, which the precondition rules out.
#[verifier::external_body]
fn b64_encode(b: &[u8]) -> (r: String)
    requires
        4 * ((b@.len() + 2) / 3) <= usize::MAX,
    ensures
        r@ == b64_of(b@),
        r@.len() == 4 * ((b@.len() + 2) / 3),
{
    base64::Engine::encode(&base64::engine::general_purpose::STANDARD, b)
}

/// Relies on base64's `STANDARD` engine `decode`: the engine requires
/// canonical padding and rejects trailing bits, so it accepts exactly
/// the canonical encodings.  An input that is the encoding of some
/// bytes decodes to those bytes; an accepted input is the encoding of
/// what came back; any error is carried as its message.
#[verifier::external_body]
fn b64_decode(s: &str) -> (r: Result<Vec<u8>, String>)
    ensures
        r matches Ok(v) ==> (forall|b: Seq<u8>| s@ == #[trigger] b64_of(b) ==> v@ == b),
        r matches Ok(v) ==> s@ == b64_of(v@),
        r matches Err(e) ==> (forall|b: Seq<u8>| s@ != #[trigger] b64_of(b)),
{
    match base64::Engine::decode(&base64::engine::general_purpose::STANDARD, s) {
        Ok(v) => Ok(v),
        Err(e) => Err(e.to_string()),
    }
}

/// Relies on `String::from_utf8`: it succeeds exactly on valid UTF-8
/// and the returned string's bytes are the input bytes; any error is
/// carried as its message.
#[verifier::external_body]
fn string_from_utf8(v: Vec<u8>) -> (r: Result<String, String>)
    ensures
        r is Ok <==> valid_utf8(v@),
        r matches Ok(s) ==> encode_utf8(s@) == v@,
{
    match String::from_utf8(v) {
        Ok(s) => Ok(s),
        Err(e) => Err(e.to_string()),
    }
}

/// Obfuscates a string as the base64 encoding of its UTF-8 bytes.
///
/// The precondition only rules out inputs whose encoded length would
/// overflow `usize`.
pub fn encrypt_data(data: &str) -> (r: AppResult<String>)
    requires
        4 * ((data.spec_bytes().len() + 2) / 3) <= usize::MAX,
    ensures
        r matches Ok(s) && s@ == b64_of(data.spec_bytes()),
{
    Ok(b64_encode(data.as_bytes()))
}

/// Recovers a string obfuscated by [`encrypt_data`]: for any text, the
/// encoding of that text decodes back to exactly that text.  It
/// succeeds exactly on the canonical encodings of UTF-8 bytes, and any
/// other input fails with a system error.
pub fn decrypt_data(data: &str) -> (r: AppResult<String>)
    ensures
        forall|plain: Seq<char>|
            data@ == b64_of(#[trigger] encode_utf8(plain)) ==> (r matches Ok(s) && s@ == plain),
        r matches Ok(s) ==> data@ == b64_of(encode_utf8(s@)),
        r is Ok <==> (exists|b: Seq<u8>| data@ == #[trigger] b64_of(b) && valid_utf8(b)),
        r matches Err(e) ==> (e matches AppError::SystemError(m)),
{
    broadcast use vstd::utf8::encode_utf8_valid_utf8;
    broadcast use vstd::utf8::encode_utf8_decode_utf8;

    match b64_decode(data) {
        Ok(bytes) => {
            let ghost bv = bytes@;
            match string_from_utf8(bytes) {
                Ok(s) => {
                    proof {
                        assert forall|plain: Seq<char>|
                            data@ == b64_of(#[trigger] encode_utf8(plain)) implies s@ == plain by {
                            assert(bv == encode_utf8(plain));
                            assert(encode_utf8(s@) == encode_utf8(plain));
                            assert(decode_utf8(encode_utf8(s@)) == s@) by {
                                broadcast use vstd::utf8::encode_utf8_decode_utf8;
                            }
                        }
                        assert(data@ == b64_of(bv) && valid_utf8(bv));
                    }
                    Ok(s)
                },
                Err(e) => {
                    proof {
                        assert forall|plain: Seq<char>|
                            data@ != b64_of(#[trigger] encode_utf8(plain)) by {
                            if data@ == b64_of(encode_utf8(plain)) {
                                assert(bv == encode_utf8(plain));
                                assert(valid_utf8(bv));
                            }
                        }
                        // the accepted bytes are not valid UTF-8, and they are
                        // the only bytes this input encodes
                        assert forall|b: Seq<u8>|
                            !(data@ == #[trigger] b64_of(b) && valid_utf8(b)) by {
                            if data@ == b64_of(b) {
                                assert(bv == b);
                            }
                        }
                    }
                    Err(AppError::SystemError(e))
                },
            }
        },
        Err(e) => {
            proof {
                assert forall|plain: Seq<char>|
                    data@ != b64_of(#[trigger] encode_utf8(plain)) by {}
            }
            Err(AppError::SystemError(e))
        },
    }
}

/// The development machine code.
pub fn get_machine_code() -> (r: String)
    ensures
        r@ == "TASK-NEXUS-DEV-MACHINE"@,
{
    String::from_str("TASK-NEXUS-DEV-MACHINE")
}

/// License verification of the development build: every key passes.
pub fn verify_license(key: &str) -> (r: bool)
    ensures
        r,
{
    let _ = key;
    true
}

} // verus!
