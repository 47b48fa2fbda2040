//! Minisign verification of downloaded release archives.
//!
//! The public key and the `.sig` files are base64 of a minisign text file:
//! the outer base64 wrapper is decoded first, and the inner text handed to
//! `minisign-verify`. An archive is accepted only when its signature verifies
//! against the embedded release key.
use vstd::prelude::*;
use base64::Engine;
use crate::restricted::concat;
use crate::text::{chars_of, lines, lines_of, starts_with, starts_with_chars, string_of, trim, trim_chars, trim_str, views};

verus! {

/// The release-signing public key: base64 of the two-line `minisign.pub`
/// file (`untrusted comment:` and the `RW…` key line).
pub const TAURI_PUBKEY_B64: &'static str = "dW50cnVzdGVkIGNvbW1lbnQ6IG1pbmlzaWduIHB1YmxpYyBrZXk6IDhFOEE3N0QxRUE2MTVFQ0MKUldUTVhtSHEwWGVLam5CN3hOeW1kTC9QMVNTb3ZRR2pPeEttS2R2YzIzelUrd3VpQUJVS1FUSmsK";

#[verifier::external_type_specification]
#[verifier::external_body]
pub struct ExPublicKey(minisign_verify::PublicKey);

#[verifier::external_type_specification]
#[verifier::external_body]
pub struct ExSignature(minisign_verify::Signature);

/// What the standard base64 engine (`base64::engine::general_purpose::
/// STANDARD`) decodes a text to; `None` when it is not valid padded base64.
pub uninterp spec fn base64_decoded(text: Seq<char>) -> Option<Seq<u8>>;

/// The text `String::from_utf8` reads from bytes; `None` when they are not
/// UTF-8.
pub uninterp spec fn utf8_text(bytes: Seq<u8>) -> Option<Seq<char>>;

/// Whether `minisign_verify::PublicKey::from_base64` accepts a key line.
pub uninterp spec fn minisign_key_decodes(key_line: Seq<char>) -> bool;

/// Whether `minisign_verify::Signature::decode` accepts a signature text.
pub uninterp spec fn minisign_signature_decodes(signature_text: Seq<char>) -> bool;

/// Whether `PublicKey::verify` (legacy signatures allowed) accepts `data`
/// under the key decoded from `key_line` and the signature decoded from
/// `signature_text`.
pub uninterp spec fn minisign_verifies(key_line: Seq<char>, data: Seq<u8>, signature_text: Seq<char>) -> bool;

/// `base64::engine::general_purpose::STANDARD.decode`. On an error, the
/// error's text.
#[verifier::external_body]
fn decode_base64(text: &str) -> (r: Result<Vec<u8>, String>)
    ensures
        match r {
            Ok(bytes) => base64_decoded(text@) == Some(bytes@),
            Err(_) => base64_decoded(text@) is None,
        },
{
    base64::engine::general_purpose::STANDARD.decode(text).map_err(|e| e.to_string())
}

/// `String::from_utf8`. On an error, the error's text.
#[verifier::external_body]
fn text_from_utf8(bytes: Vec<u8>) -> (r: Result<String, String>)
    ensures
        match r {
            Ok(t) => utf8_text(bytes@) == Some(t@),
            Err(_) => utf8_text(bytes@) is None,
        },
{
    String::from_utf8(bytes).map_err(|e| e.to_string())
}

/// A minisign public key and the base64 key line it was decoded from.
pub struct ReleaseKey {
    line: String,
    key: minisign_verify::PublicKey,
}

impl ReleaseKey {
    pub closed spec fn key_line(&self) -> Seq<char> {
        self.line@
    }
}

/// A decoded minisign signature and the text it was decoded from.
pub struct ReleaseSignature {
    text: String,
    signature: minisign_verify::Signature,
}

impl ReleaseSignature {
    pub closed spec fn source(&self) -> Seq<char> {
        self.text@
    }
}

/// `minisign_verify::PublicKey::from_base64`. On an error, the error's text.
#[verifier::external_body]
fn decode_public_key(key_line: &str) -> (r: Result<ReleaseKey, String>)
    ensures
        (r is Ok) == minisign_key_decodes(key_line@),
        r matches Ok(k) ==> k.key_line() == key_line@,
{
    match minisign_verify::PublicKey::from_base64(key_line) {
        Ok(key) => Ok(ReleaseKey { line: key_line.to_string(), key }),
        Err(e) => Err(e.to_string()),
    }
}

/// `minisign_verify::Signature::decode`. On an error, the error's text.
#[verifier::external_body]
fn decode_signature(text: &str) -> (r: Result<ReleaseSignature, String>)
    ensures
        (r is Ok) == minisign_signature_decodes(text@),
        r matches Ok(s) ==> s.source() == text@,
{
    match minisign_verify::Signature::decode(text) {
        Ok(signature) => Ok(ReleaseSignature { text: text.to_string(), signature }),
        Err(e) => Err(e.to_string()),
    }
}

/// `minisign_verify::PublicKey::verify` with legacy signatures allowed, as
/// the desktop updater verifies them. On an error, the error's text.
#[verifier::external_body]
fn check_signature(key: &ReleaseKey, data: &[u8], signature: &ReleaseSignature) -> (r: Result<(), String>)
    ensures
        (r is Ok) == minisign_verifies(key.key_line(), data@, signature.source()),
{
    key.key.verify(data, &signature.signature, true).map_err(|e| e.to_string())
}

/// The inner text of a base64 wrapper (the wrapper trimmed first).
pub open spec fn unwrapped_text(b64: Seq<char>) -> Option<Seq<char>> {
    match base64_decoded(trim(b64)) {
        Some(bytes) => utf8_text(bytes),
        None => None,
    }
}

/// Decodes an outer base64 wrapper into the inner minisign text.
pub fn unwrap_base64(b64: &str) -> (r: Result<String, String>)
    ensures
        match r {
            Ok(t) => unwrapped_text(b64@) == Some(t@),
            Err(m) => unwrapped_text(b64@) is None && (starts_with(m@, "base64 decode failed: "@)
                || starts_with(m@, "invalid utf-8 in minisign text: "@)),
        },
{
    let trimmed = trim_str(b64);
    let bytes = match decode_base64(trimmed.as_str()) {
        Ok(bytes) => bytes,
        Err(e) => {
            let m = concat("base64 decode failed: ", e.as_str());
            proof {
                assert(m@.subrange(0, "base64 decode failed: "@.len() as int) =~= "base64 decode failed: "@);
            }
            return Err(m);
        },
    };
    match text_from_utf8(bytes) {
        Ok(t) => Ok(t),
        Err(e) => {
            let m = concat("invalid utf-8 in minisign text: ", e.as_str());
            proof {
                assert(m@.subrange(0, "invalid utf-8 in minisign text: "@.len() as int)
                    =~= "invalid utf-8 in minisign text: "@);
            }
            Err(m)
        },
    }
}

/// A line that carries the key: not empty once trimmed, and not the
/// `untrusted comment:` line.
pub open spec fn is_key_line(line: Seq<char>) -> bool {
    trim(line).len() > 0 && !starts_with(trim(line), "untrusted comment:"@)
}

/// The first key line of a minisign public key text, trimmed.
pub open spec fn first_key_line(ls: Seq<Seq<char>>, i: int) -> Option<Seq<char>>
    decreases ls.len() - i,
{
    if i < 0 || i >= ls.len() {
        None
    } else if is_key_line(ls[i]) {
        Some(trim(ls[i]))
    } else {
        first_key_line(ls, i + 1)
    }
}

pub open spec fn key_line_of(text: Seq<char>) -> Option<Seq<char>> {
    first_key_line(lines(text), 0)
}

/// Builds the public key from a two-line minisign `.pub` text, or from the
/// bare `RW…` key line: the first line that is neither blank nor the
/// untrusted comment is the key.
pub fn parse_public_key(minisign_pub_text: &str) -> (r: Result<ReleaseKey, String>)
    ensures
        match key_line_of(minisign_pub_text@) {
            None => r matches Err(m) && m@ == "minisign public key text has no key line"@,
            Some(line) => match r {
                Ok(k) => minisign_key_decodes(line) && k.key_line() == line,
                Err(m) => !minisign_key_decodes(line) && starts_with(
                    m@,
                    "failed to parse minisign public key: "@,
                ),
            },
        },
{
    let text = chars_of(minisign_pub_text);
    let ls = lines_of(text.as_slice());
    let comment = chars_of("untrusted comment:");
    let mut i: usize = 0;
    while i < ls.len()
        invariant
            i <= ls@.len(),
            views(ls@) == lines(minisign_pub_text@),
            comment@ == "untrusted comment:"@,
            key_line_of(minisign_pub_text@) == first_key_line(views(ls@), i as int),
        decreases ls.len() - i,
    {
        let t = trim_chars(ls[i].as_slice());
        assert(views(ls@)[i as int] == ls@[i as int]@);
        if t.len() > 0 && !starts_with_chars(t.as_slice(), comment.as_slice()) {
            let line = string_of(t.as_slice());
            return match decode_public_key(line.as_str()) {
                Ok(k) => Ok(k),
                Err(e) => {
                    let m = concat("failed to parse minisign public key: ", e.as_str());
                    proof {
                        assert(m@.subrange(0, "failed to parse minisign public key: "@.len() as int)
                            =~= "failed to parse minisign public key: "@);
                    }
                    Err(m)
                },
            };
        }
        i += 1;
    }
    Err("minisign public key text has no key line".to_owned())
}

/// The key line of the embedded release key, when its wrapper decodes.
pub open spec fn embedded_key_line() -> Option<Seq<char>> {
    match unwrapped_text(TAURI_PUBKEY_B64@) {
        Some(t) => key_line_of(t),
        None => None,
    }
}

/// The embedded release-signing public key.
pub fn embedded_public_key() -> (r: Result<ReleaseKey, String>)
    ensures
        r matches Ok(k) ==> embedded_key_line() == Some(k.key_line()) && minisign_key_decodes(k.key_line()),
        embedded_key_line() matches Some(line) && minisign_key_decodes(line) ==> r is Ok,
{
    let text = match unwrap_base64(TAURI_PUBKEY_B64) {
        Ok(t) => t,
        Err(e) => return Err(e),
    };
    parse_public_key(text.as_str())
}

/// Verifies `data` against a minisign signature text (the `.minisig` file)
/// with an explicit public key.
pub fn verify_minisign(public_key: &ReleaseKey, data: &[u8], minisig_text: &str) -> (r: Result<(), String>)
    ensures
        (r is Ok) == (minisign_signature_decodes(minisig_text@) && minisign_verifies(
            public_key.key_line(),
            data@,
            minisig_text@,
        )),
        r matches Err(m) ==> (!minisign_signature_decodes(minisig_text@) && starts_with(
            m@,
            "failed to parse signature: "@,
        )) || (minisign_signature_decodes(minisig_text@) && starts_with(
            m@,
            "signature verification failed: "@,
        )),
{
    let signature = match decode_signature(minisig_text) {
        Ok(s) => s,
        Err(e) => {
            let m = concat("failed to parse signature: ", e.as_str());
            proof {
                assert(m@.subrange(0, "failed to parse signature: "@.len() as int) =~= "failed to parse signature: "@);
            }
            return Err(m);
        },
    };
    match check_signature(public_key, data, &signature) {
        Ok(()) => Ok(()),
        Err(e) => {
            let m = concat("signature verification failed: ", e.as_str());
            proof {
                assert(m@.subrange(0, "signature verification failed: "@.len() as int)
                    =~= "signature verification failed: "@);
            }
            Err(m)
        },
    }
}

/// Verifies `data` against a Tauri-format `.sig` (base64 of a `.minisig`)
/// with the embedded release-signing key. `Ok(())` exactly when the
/// embedded key decodes, the wrapper decodes to a signature text, and the
/// signature verifies the data under the key.
pub fn verify_release_signature(data: &[u8], tauri_sig_b64: &str) -> (r: Result<(), String>)
    ensures
        (r is Ok) == ({
            &&& embedded_key_line() matches Some(line)
            &&& minisign_key_decodes(line)
            &&& unwrapped_text(tauri_sig_b64@) matches Some(sig)
            &&& minisign_signature_decodes(sig)
            &&& minisign_verifies(line, data@, sig)
        }),
{
    let public_key = match embedded_public_key() {
        Ok(k) => k,
        Err(e) => return Err(e),
    };
    let minisig_text = match unwrap_base64(tauri_sig_b64) {
        Ok(t) => t,
        Err(e) => return Err(e),
    };
    verify_minisign(&public_key, data, minisig_text.as_str())
}

} // verus!
