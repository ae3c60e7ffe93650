//! Key and nonce derivation by alignment, and authenticated encryption of
//! entry values.

use aes_gcm::aead::{Aead, NewAead};
use aes_gcm::{Aes256Gcm, Key, Nonce};
use std::string::FromUtf8Error;
use crate::text::{decimal, decimal_digits};
use vstd::prelude::*;
use vstd::string::{StringExecFns, StringSliceAdditionalSpecFns};
use vstd::utf8::{decode_utf8, encode_utf8, valid_utf8};

verus! {

/// Why a cryptographic operation was refused.
#[derive(Debug, Clone, Copy, PartialEq, Eq)]
pub enum Cause {
    /// The password is longer than the key; the payload is the key width in bytes.
    KeyTooLong(usize),
    /// The value could not be encrypted.
    Encryption,
    /// The payload could not be decrypted. Nothing tells a wrong password from a
    /// damaged or malformed payload.
    Decryption,
}

/// The error of the alignment codec and of the cipher.
#[derive(Debug, Clone, Copy, PartialEq, Eq)]
pub struct Error(pub Cause);

impl Error {
    /// The message that a user reads.
    pub open spec fn message(self) -> Seq<char> {
        match self.0 {
            Cause::KeyTooLong(width) => "length must be less than "@ + decimal_digits(width as nat)
                + " characters"@,
            Cause::Encryption => "encryption failed"@,
            Cause::Decryption => "decryption failed"@,
        }
    }

    /// The message that a user reads.
    pub fn to_string(&self) -> (s: String)
        ensures
            s@ == self.message(),
    {
        match self.0 {
            Cause::KeyTooLong(width) => {
                let number = decimal(width as u64);
                String::from_str("length must be less than ").concat(number.as_str()).concat(
                    " characters",
                )
            },
            Cause::Encryption => String::from_str("encryption failed"),
            Cause::Decryption => String::from_str("decryption failed"),
        }
    }
}

/// The bytes that `val` becomes when it is fitted to the width of `mask`:
/// a shorter value is padded on the right with the part of the mask that lies
/// behind it, a longer one is cut down to its first bytes.
pub open spec fn aligned(val: Seq<u8>, mask: Seq<u8>) -> Seq<u8> {
    if val.len() <= mask.len() {
        val + mask.subrange(val.len() as int, mask.len() as int)
    } else {
        val.subrange(0, mask.len() as int)
    }
}

/// What `align` answers: an over-long value is an error unless it may be cut.
pub open spec fn align_result(val: Seq<u8>, mask: Seq<u8>, truncate: bool) -> Result<
    Seq<u8>,
    Error,
> {
    if val.len() > mask.len() && !truncate {
        Err(Error(Cause::KeyTooLong(mask.len() as usize)))
    } else {
        Ok(aligned(val, mask))
    }
}

/// Fits the bytes of `val` to the byte width of `mask`.
pub fn align(val: &str, mask: &str, truncate: bool) -> (r: Result<Vec<u8>, Error>)
    ensures
        match r {
            Ok(out) => align_result(val.spec_bytes(), mask.spec_bytes(), truncate) == Ok::<
                Seq<u8>,
                Error,
            >(out@),
            Err(e) => align_result(val.spec_bytes(), mask.spec_bytes(), truncate) == Err::<
                Seq<u8>,
                Error,
            >(e),
        },
{
    let v = val.as_bytes();
    let m = mask.as_bytes();
    if v.len() > m.len() && !truncate {
        return Err(Error(Cause::KeyTooLong(m.len())));
    }
    let mut out: Vec<u8> = Vec::new();
    let mut i: usize = 0;
    while i < m.len()
        invariant
            i <= m.len(),
            out@.len() == i,
            forall|j: int| 0 <= j < i ==> out@[j] == aligned(v@, m@)[j],
        decreases m.len() - i,
    {
        let b = if i < v.len() {
            v[i]
        } else {
            m[i]
        };
        out.push(b);
        i += 1;
    }
    assert(out@ =~= aligned(v@, m@));
    Ok(out)
}

/// An aligned value is as wide as the mask.
pub proof fn lemma_aligned_width(val: Seq<u8>, mask: Seq<u8>)
    ensures
        aligned(val, mask).len() == mask.len(),
{
}

/// A value of the mask's width is left as it is.
pub proof fn lemma_aligned_exact(val: Seq<u8>, mask: Seq<u8>)
    requires
        val.len() == mask.len(),
    ensures
        aligned(val, mask) == val,
{
}

/// Truncation keeps a prefix: a value wider than the mask is cut down to its
/// first bytes, as many as the mask has.
pub proof fn lemma_truncation_keeps_prefix(val: Seq<u8>, mask: Seq<u8>)
    requires
        val.len() > mask.len(),
    ensures
        aligned(val, mask) == val.take(mask.len() as int),
        aligned(val, mask).is_prefix_of(val),
{
}

/// Padding appends only from the mask: a value no wider than the mask stays
/// in front, and behind it stands the mask from that position on.
pub proof fn lemma_padding_appends_mask_suffix(val: Seq<u8>, mask: Seq<u8>)
    requires
        val.len() <= mask.len(),
    ensures
        aligned(val, mask).take(val.len() as int) == val,
        aligned(val, mask).skip(val.len() as int) == mask.skip(val.len() as int),
        forall|i: int| val.len() <= i < mask.len() ==> aligned(val, mask)[i] == mask[i],
{
}

/// The width of a key, in bytes.
pub const KEY_WIDTH: usize = 32;

/// The width of a nonce, in bytes.
pub const NONCE_WIDTH: usize = 12;

/// The public filler that pads a password to the key width.
pub const KEY_MASK: &'static str = "11111111111111111111111111111111";

/// The public filler that pads a salt to the nonce width.
pub const NONCE_MASK: &'static str = "111111111111";

/// The cipher takes plaintexts shorter than this many bytes. It counts blocks
/// of 16 bytes in 32 bits and spends the first block on the tag: one block
/// short of 2^36 bytes is the most that it encrypts.
pub const PLAINTEXT_LIMIT: u64 = 0xF_FFFF_FFF0;

/// The cipher takes payloads shorter than this many bytes: a plaintext below
/// `PLAINTEXT_LIMIT` and the 16 bytes of its tag.
pub const PAYLOAD_LIMIT: u64 = 0x10_0000_0000;

/// The bytes of `KEY_MASK`.
pub open spec fn key_mask() -> Seq<u8> {
    Seq::new(KEY_WIDTH as nat, |i: int| 0x31u8)
}

/// The bytes of `NONCE_MASK`.
pub open spec fn nonce_mask() -> Seq<u8> {
    Seq::new(NONCE_WIDTH as nat, |i: int| 0x31u8)
}

/// The key that a password stands for.
pub open spec fn key_of(secret: Seq<char>) -> Seq<u8> {
    aligned(encode_utf8(secret), key_mask())
}

/// The nonce that a salt stands for.
pub open spec fn nonce_of(salt: Seq<char>) -> Seq<u8> {
    aligned(encode_utf8(salt), nonce_mask())
}

/// The error of `base64::decode`. It is carried through and never looked
/// into.
#[verifier::external_type_specification]
#[verifier::external_body]
pub struct ExDecodeError(base64::DecodeError);

/// The error of `String::from_utf8`. It is carried through and never looked
/// into.
#[verifier::external_type_specification]
#[verifier::external_body]
pub struct ExFromUtf8Error(FromUtf8Error);

/// What `Aead::encrypt` of `aes_gcm::Aes256Gcm` makes of a plaintext under a
/// 32-byte key and a 12-byte nonce, with no associated data: the ciphertext
/// followed by its tag.
pub uninterp spec fn aes256_gcm_sealed(key: Seq<u8>, nonce: Seq<u8>, plaintext: Seq<u8>) -> Seq<u8>;

/// What `Aead::decrypt` of `aes_gcm::Aes256Gcm` recovers from a payload under
/// a 32-byte key and a 12-byte nonce, with no associated data: the plaintext
/// where the tag at the end of the payload authenticates the rest, nothing
/// where it does not.
pub uninterp spec fn aes256_gcm_opened(key: Seq<u8>, nonce: Seq<u8>, payload: Seq<u8>) -> Option<
    Seq<u8>,
>;

/// What `base64::encode` makes of a byte string: its text in the standard
/// alphabet, padded.
pub uninterp spec fn base64_text(bytes: Seq<u8>) -> Seq<char>;

/// What `base64::decode` reads from a text: the bytes it stands for in the
/// standard alphabet, nothing where it stands for none.
pub uninterp spec fn base64_decoded(text: Seq<char>) -> Option<Seq<u8>>;

/// `Aead::encrypt` of `aes_gcm::Aes256Gcm`, keyed with `key`. Not proved: that
/// the call succeeds on a plaintext below the limit and returns what
/// `aes256_gcm_sealed` names, that this is 16 bytes longer than the plaintext
/// (the tag), and that opening it under the same key and nonce gives the
/// plaintext back. The widths are those that the cipher's key and nonce types
/// insist on; from the limit on, the cipher's block counter would run out.
#[verifier::external_body]
#[allow(deprecated)]
fn seal(key: &[u8], nonce: &[u8], plaintext: &[u8]) -> (r: Option<Vec<u8>>)
    requires
        key@.len() == KEY_WIDTH,
        nonce@.len() == NONCE_WIDTH,
        plaintext@.len() < PLAINTEXT_LIMIT,
    ensures
        r is Some,
        r matches Some(payload) ==> payload@ == aes256_gcm_sealed(key@, nonce@, plaintext@),
        r matches Some(payload) ==> payload@.len() == plaintext@.len() + 16,
        r matches Some(payload) ==> aes256_gcm_opened(key@, nonce@, payload@) == Some(
            plaintext@,
        ),
{
    Aes256Gcm::new(Key::from_slice(key)).encrypt(Nonce::from_slice(nonce), plaintext).ok()
}

/// `Aead::decrypt` of `aes_gcm::Aes256Gcm`, keyed with `key`. Not proved: that
/// the call returns the plaintext that `aes256_gcm_opened` names, and an error
/// where that names none. The widths and the limit are there for the same
/// reasons as in `seal`.
#[verifier::external_body]
#[allow(deprecated)]
fn open(key: &[u8], nonce: &[u8], payload: &[u8]) -> (r: Option<Vec<u8>>)
    requires
        key@.len() == KEY_WIDTH,
        nonce@.len() == NONCE_WIDTH,
        payload@.len() < PAYLOAD_LIMIT,
    ensures
        match r {
            Some(plain) => aes256_gcm_opened(key@, nonce@, payload@) == Some(plain@),
            None => aes256_gcm_opened(key@, nonce@, payload@) is None,
        },
{
    Aes256Gcm::new(Key::from_slice(key)).decrypt(Nonce::from_slice(nonce), payload).ok()
}

/// `base64::encode`. Not proved: that it returns the text that `base64_text`
/// names, and that this text decodes to the bytes it was made from.
#[verifier::external_body]
fn to_base64(bytes: &[u8]) -> (text: String)
    ensures
        text@ == base64_text(bytes@),
        base64_decoded(text@) == Some(bytes@),
{
    base64::encode(bytes)
}

/// `base64::decode`. Not proved: that it returns the bytes that
/// `base64_decoded` names, and an error where that names none.
#[verifier::external_body]
fn from_base64(text: &str) -> (r: Result<Vec<u8>, base64::DecodeError>)
    ensures
        match r {
            Ok(bytes) => base64_decoded(text@) == Some(bytes@),
            Err(_) => base64_decoded(text@) is None,
        },
{
    base64::decode(text)
}

/// `String::from_utf8` succeeds on well-formed UTF-8 and on nothing else, and
/// the string it returns holds the characters that the bytes encode.
pub assume_specification[ String::from_utf8 ](bytes: Vec<u8>) -> (r: Result<String, FromUtf8Error>)
    ensures
        match r {
            Ok(text) => valid_utf8(bytes@) && text@ == decode_utf8(bytes@),
            Err(_) => !valid_utf8(bytes@),
        },
;

/// `KEY_MASK` and `NONCE_MASK` hold the bytes of `key_mask()` and `nonce_mask()`.
pub proof fn lemma_mask_bytes()
    ensures
        KEY_MASK.spec_bytes() == key_mask(),
        NONCE_MASK.spec_bytes() == nonce_mask(),
{
    reveal_strlit("11111111111111111111111111111111");
    reveal_strlit("111111111111");
    vstd::utf8::is_ascii_chars_encode_utf8(KEY_MASK@);
    vstd::utf8::is_ascii_chars_encode_utf8(NONCE_MASK@);
    assert(KEY_MASK.spec_bytes() =~= key_mask());
    assert(NONCE_MASK.spec_bytes() =~= nonce_mask());
}

/// What `encrypt` answers: the base64 text of the sealed value, unless the
/// password is longer than a key or the value too long for the cipher.
pub open spec fn encrypted(secret: Seq<char>, salt: Seq<char>, plaintext: Seq<char>) -> Result<
    Seq<char>,
    Error,
> {
    if encode_utf8(secret).len() > KEY_WIDTH {
        Err(Error(Cause::KeyTooLong(KEY_WIDTH)))
    } else if encode_utf8(plaintext).len() >= PLAINTEXT_LIMIT {
        Err(Error(Cause::Encryption))
    } else {
        text_of_sealed(
            Some(aes256_gcm_sealed(key_of(secret), nonce_of(salt), encode_utf8(plaintext))),
        )
    }
}

/// What `opened_text` answers: the characters of an authenticated plaintext
/// that is well-formed UTF-8.
pub open spec fn text_of_opened(opened: Option<Seq<u8>>) -> Result<Seq<char>, Error> {
    match opened {
        Some(plain) => if valid_utf8(plain) {
            Ok(decode_utf8(plain))
        } else {
            Err(Error(Cause::Decryption))
        },
        None => Err(Error(Cause::Decryption)),
    }
}

/// What `decrypt` answers: the plaintext where the text is base64, the cipher
/// authenticates the payload under the key and nonce, and the plaintext is
/// UTF-8; one and the same error wherever any of these fails.
pub open spec fn decrypted(secret: Seq<char>, salt: Seq<char>, ciphertext: Seq<char>) -> Result<
    Seq<char>,
    Error,
> {
    if encode_utf8(secret).len() > KEY_WIDTH {
        Err(Error(Cause::KeyTooLong(KEY_WIDTH)))
    } else {
        match payload_of_decoded(base64_decoded(ciphertext)) {
            Ok(payload) => text_of_opened(
                aes256_gcm_opened(key_of(secret), nonce_of(salt), payload),
            ),
            Err(e) => Err(e),
        }
    }
}

/// Decryption reads a password and a salt only through the key and the nonce
/// that they stand for: two passwords that fit a key and align to the same
/// one, with two salts that align to the same nonce, decrypt every payload
/// alike.
pub proof fn lemma_decrypted_by_key_and_nonce(
    first: Seq<char>,
    second: Seq<char>,
    first_salt: Seq<char>,
    second_salt: Seq<char>,
    ciphertext: Seq<char>,
)
    requires
        encode_utf8(first).len() <= KEY_WIDTH,
        encode_utf8(second).len() <= KEY_WIDTH,
        key_of(first) == key_of(second),
        nonce_of(first_salt) == nonce_of(second_salt),
    ensures
        decrypted(first, first_salt, ciphertext) == decrypted(second, second_salt, ciphertext),
{
}

/// Decryption answers with a plaintext only where the text is base64 for a
/// payload that the cipher authenticates under the key and the nonce, and
/// then with the text of what the cipher recovered, nothing else.
pub proof fn lemma_decrypted_is_authenticated(
    secret: Seq<char>,
    salt: Seq<char>,
    ciphertext: Seq<char>,
)
    requires
        decrypted(secret, salt, ciphertext) is Ok,
    ensures
        base64_decoded(ciphertext) matches Some(payload) && aes256_gcm_opened(
            key_of(secret),
            nonce_of(salt),
            payload,
        ) matches Some(plain) && valid_utf8(plain) && decrypted(secret, salt, ciphertext) == Ok::<
            Seq<char>,
            Error,
        >(decode_utf8(plain)),
{
}

/// Whether an exec result holds the views that a spec result names.
pub open spec fn text_result_is(r: Result<String, Error>, model: Result<Seq<char>, Error>) -> bool {
    match r {
        Ok(text) => model == Ok::<Seq<char>, Error>(text@),
        Err(e) => model == Err::<Seq<char>, Error>(e),
    }
}

/// What `sealed_text` answers: the base64 text of a sealed payload.
pub open spec fn text_of_sealed(sealed: Option<Seq<u8>>) -> Result<Seq<char>, Error> {
    match sealed {
        Some(payload) => Ok(base64_text(payload)),
        None => Err(Error(Cause::Encryption)),
    }
}

/// What `payload_of` answers: the bytes of a text that is base64 and short
/// enough for the cipher.
pub open spec fn payload_of_decoded(decoded: Option<Seq<u8>>) -> Result<Seq<u8>, Error> {
    match decoded {
        Some(payload) => if payload.len() < PAYLOAD_LIMIT {
            Ok(payload)
        } else {
            Err(Error(Cause::Decryption))
        },
        None => Err(Error(Cause::Decryption)),
    }
}

/// Turns what the cipher sealed into the text that is kept: base64, or the
/// encryption error where the cipher sealed nothing. The text decodes to the
/// payload it was made from.
pub fn sealed_text(sealed: Option<Vec<u8>>) -> (r: Result<String, Error>)
    ensures
        text_result_is(
            r,
            text_of_sealed(
                match sealed {
                    Some(payload) => Some(payload@),
                    None => None,
                },
            ),
        ),
        match (sealed, r) {
            (Some(payload), Ok(text)) => base64_decoded(text@) == Some(payload@),
            _ => true,
        },
{
    match sealed {
        Some(payload) => Ok(to_base64(payload.as_slice())),
        None => Err(Error(Cause::Encryption)),
    }
}

/// Turns what the decoder read into the payload for the cipher, or the
/// decryption error where the text was not base64 or stands for more than
/// the cipher takes.
pub fn payload_of(decoded: Result<Vec<u8>, base64::DecodeError>) -> (r: Result<Vec<u8>, Error>)
    ensures
        match decoded {
            Ok(bytes) => if bytes@.len() < PAYLOAD_LIMIT {
                r matches Ok(payload) && payload@ == bytes@
            } else {
                r == Err::<Vec<u8>, Error>(Error(Cause::Decryption))
            },
            Err(_) => r == Err::<Vec<u8>, Error>(Error(Cause::Decryption)),
        },
{
    match decoded {
        Ok(payload) => {
            if payload.len() as u64 >= PAYLOAD_LIMIT {
                Err(Error(Cause::Decryption))
            } else {
                Ok(payload)
            }
        },
        Err(_) => Err(Error(Cause::Decryption)),
    }
}

/// Turns what the cipher recovered into the plaintext: the text of the bytes,
/// or the decryption error where there are none or they are not UTF-8.
pub fn opened_text(opened: Option<Vec<u8>>) -> (r: Result<String, Error>)
    ensures
        text_result_is(
            r,
            text_of_opened(
                match opened {
                    Some(plain) => Some(plain@),
                    None => None,
                },
            ),
        ),
{
    match opened {
        Some(plain) => match String::from_utf8(plain) {
            Ok(text) => Ok(text),
            Err(_) => Err(Error(Cause::Decryption)),
        },
        None => Err(Error(Cause::Decryption)),
    }
}

/// Encrypts `plaintext` under the key that `secret` stands for and the nonce
/// that `salt` stands for. Whatever it returns, `decrypt` turns back into
/// `plaintext` under the same password and salt.
pub fn encrypt(secret: &str, salt: &str, plaintext: &str) -> (r: Result<String, Error>)
    ensures
        text_result_is(r, encrypted(secret@, salt@, plaintext@)),
        r matches Ok(ciphertext) ==> decrypted(secret@, salt@, ciphertext@) == Ok::<
            Seq<char>,
            Error,
        >(plaintext@),
{
    proof {
        lemma_mask_bytes();
    }
    let key = match align(secret, KEY_MASK, false) {
        Ok(key) => key,
        Err(e) => {
            return Err(e);
        },
    };
    let nonce = match align(salt, NONCE_MASK, true) {
        Ok(nonce) => nonce,
        Err(e) => {
            return Err(e);
        },
    };
    let plain = plaintext.as_bytes();
    if plain.len() as u64 >= PLAINTEXT_LIMIT {
        return Err(Error(Cause::Encryption));
    }
    proof {
        vstd::utf8::encode_utf8_valid_utf8(plaintext@);
        vstd::utf8::encode_utf8_decode_utf8(plaintext@);
    }
    sealed_text(seal(key.as_slice(), nonce.as_slice(), plain))
}

/// Decrypts a base64 payload under the key that `secret` stands for and the
/// nonce that `salt` stands for.
pub fn decrypt(secret: &str, salt: &str, ciphertext: &str) -> (r: Result<String, Error>)
    ensures
        text_result_is(r, decrypted(secret@, salt@, ciphertext@)),
{
    proof {
        lemma_mask_bytes();
    }
    let key = match align(secret, KEY_MASK, false) {
        Ok(key) => key,
        Err(e) => {
            return Err(e);
        },
    };
    let nonce = match align(salt, NONCE_MASK, true) {
        Ok(nonce) => nonce,
        Err(e) => {
            return Err(e);
        },
    };
    let payload = match payload_of(from_base64(ciphertext)) {
        Ok(payload) => payload,
        Err(e) => {
            return Err(e);
        },
    };
    opened_text(open(key.as_slice(), nonce.as_slice(), payload.as_slice()))
}

} // verus!
