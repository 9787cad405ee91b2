//! Users and their passwords.
//!
//! A stored password hash is the text `ITERATIONS:SALT:KEY`, where
//! `ITERATIONS` is the PBKDF2 iteration count in decimal and `SALT` and `KEY`
//! are the salt and the derived PBKDF2-HMAC-SHA1 key in lowercase hexadecimal.

use vstd::prelude::*;
use vstd::string::*;
use vstd::utf8::*;

use crate::encoding::{
    ascii_bytes, decimal_text, hex_decoding, hex_encode, hex_lower, lemma_decimal_parse,
    lemma_hex_roundtrip, lemma_split_concat, lemma_split_no_sep, lemma_trim_no_white_space,
    u32_to_decimal, parse_nonzero_u32, parse_nonzero_u32_text, scan_hex,
    split_colon, split_on, trim_chars, trim_text, HexDecoding, HexScan, COLON,
};
use rand_core::RngCore;

verus! {

broadcast use vstd::utf8::group_utf8_lib;

/// An account of the voting service.
pub struct User {
    pub uuid: String,
    pub email: String,
    pub password_hash: String,
}

/// The iteration count with which new password hashes are derived.
pub const PBKDF2_ITERATIONS: u32 = 1000;

/// The number of random salt bytes in a new password hash.
pub const SALT_LEN: usize = 24;

/// The number of bytes of a derived key in a new password hash.
pub const KEY_LEN: usize = 20;

/// The longest salt or password that PBKDF2 is asked to process. Longer
/// inputs overflow the bit length that SHA-1 counts and make `ring` panic.
pub const MAX_PBKDF2_INPUT: u64 = 0x1000_0000_0000_0000;

/// The longest PBKDF2-HMAC-SHA1 output: `u32::MAX` blocks of 20 bytes.
pub const MAX_PBKDF2_OUTPUT: u64 = 85_899_345_900;

/// The first `len` bytes of the PBKDF2-HMAC-SHA1 output for the given
/// iteration count, salt and secret, as `ring` derives them.
pub uninterp spec fn pbkdf2_hmac_sha1(iterations: u32, salt: Seq<u8>, secret: Seq<u8>, len: nat) -> Seq<u8>;

/// Calls `ring::pbkdf2::derive` with `PBKDF2_HMAC_SHA1`, which overwrites `out`
/// with the first `out.len()` bytes of the derived key.
#[verifier::external_body]
fn pbkdf2_derive(iterations: u32, salt: &[u8], secret: &[u8], out: &mut Vec<u8>)
    requires
        iterations > 0,
        salt@.len() <= MAX_PBKDF2_INPUT,
        secret@.len() <= MAX_PBKDF2_INPUT,
        old(out)@.len() <= MAX_PBKDF2_OUTPUT,
    ensures
        final(out)@.len() == old(out)@.len(),
        final(out)@ == pbkdf2_hmac_sha1(iterations, salt@, secret@, old(out)@.len()),
{
    ring::pbkdf2::derive(
        ring::pbkdf2::PBKDF2_HMAC_SHA1,
        core::num::NonZeroU32::new(iterations).unwrap(),
        salt,
        secret,
        out.as_mut_slice(),
    )
}

/// Calls `ring::pbkdf2::verify` with `PBKDF2_HMAC_SHA1`. It succeeds when
/// `previously_derived` is not empty, needs no more than `u32::MAX` blocks of
/// 20 bytes (`ring` answers a mismatch past that), and equals the derived key
/// of the same length.
#[verifier::external_body]
fn pbkdf2_verify(iterations: u32, salt: &[u8], secret: &[u8], previously_derived: &[u8]) -> (r: bool)
    requires
        iterations > 0,
        salt@.len() <= MAX_PBKDF2_INPUT,
        secret@.len() <= MAX_PBKDF2_INPUT,
    ensures
        r <==> (0 < previously_derived@.len() <= MAX_PBKDF2_OUTPUT
            && pbkdf2_hmac_sha1(iterations, salt@, secret@, previously_derived@.len())
            == previously_derived@),
{
    ring::pbkdf2::verify(
        ring::pbkdf2::PBKDF2_HMAC_SHA1,
        core::num::NonZeroU32::new(iterations).unwrap(),
        salt,
        secret,
        previously_derived,
    ).is_ok()
}

/// Calls `OsRng.try_fill_bytes` from `rand_core`, which fills `dest` with
/// bytes from the operating system's random source. The bytes are random and
/// the call fails only when the source does, so only the length is stated.
#[verifier::external_body]
fn os_random_fill(dest: &mut Vec<u8>) -> (ok: bool)
    ensures
        final(dest)@.len() == old(dest)@.len(),
{
    rand_core::OsRng.try_fill_bytes(dest.as_mut_slice()).is_ok()
}

/// Decodes a text of two-digit hexadecimal numbers into bytes.
///
/// Each pair is read as `u8::from_str_radix` reads it, and the first pair that
/// is not a number is the error. The text must not have a pair that ends past
/// its end or inside a multi-byte character: there the slicing would panic.
pub fn decode_hex(s: &str) -> (r: Result<Vec<u8>, core::num::ParseIntError>)
    requires
        !(hex_decoding(s.spec_bytes()) is OutOfBounds),
    ensures
        match hex_decoding(s.spec_bytes()) {
            HexDecoding::Bytes(b) => r matches Ok(v) && v@ == b,
            _ => r is Err,
        },
{
    match scan_hex(s) {
        HexScan::Decoded(v) => Ok(v),
        HexScan::BadDigit(e) => Err(e),
        HexScan::OutOfBounds => {
            proof {
                assert(false);
            }
            Ok(Vec::new())
        },
    }
}

/// The stored text of a password hash with the given fields.
pub open spec fn hash_text(iterations: u32, salt: Seq<u8>, key: Seq<u8>) -> Seq<char> {
    decimal_text(iterations as nat) + seq![':'] + hex_lower(salt) + seq![':'] + hex_lower(key)
}

/// The bytes of a text after `str::trim`.
pub open spec fn trimmed_bytes(bytes: Seq<u8>) -> Seq<u8> {
    encode_utf8(trim_chars(decode_utf8(bytes)))
}

/// The iteration count, salt and derived key that a stored hash holds, or
/// `None` when reading it would fail: fewer than three `:`-separated fields,
/// an iteration count that is not a positive `u32`, or a salt or (trimmed) key
/// that is not hexadecimal.
pub open spec fn hash_fields(hash: Seq<u8>) -> Option<(u32, Seq<u8>, Seq<u8>)> {
    let parts = split_on(hash, COLON);
    if parts.len() < 3 {
        None
    } else {
        match (
            parse_nonzero_u32(parts[0]),
            hex_decoding(parts[1]),
            hex_decoding(trimmed_bytes(parts[2])),
        ) {
            (Some(iterations), HexDecoding::Bytes(salt), HexDecoding::Bytes(key)) => Some(
                (iterations, salt, key),
            ),
            _ => None,
        }
    }
}

/// Whether PBKDF2-HMAC-SHA1 with these parameters reproduces `key`.
pub open spec fn pbkdf2_accepts(iterations: u32, salt: Seq<u8>, secret: Seq<u8>, key: Seq<u8>) -> bool {
    0 < key.len() <= MAX_PBKDF2_OUTPUT && pbkdf2_hmac_sha1(iterations, salt, secret, key.len()) == key
}

/// Whether `password` is the one the stored hash was made from.
pub open spec fn password_matches(password: Seq<u8>, hash: Seq<u8>) -> bool {
    match hash_fields(hash) {
        Some((iterations, salt, key)) => pbkdf2_accepts(iterations, salt, password, key),
        None => false,
    }
}

/// Whether a stored hash can be checked without a panic: its fields can be
/// read and its salt is short enough for PBKDF2.
pub open spec fn hash_is_checkable(hash: Seq<u8>) -> bool {
    hash_fields(hash) matches Some((_, salt, _)) && salt.len() <= MAX_PBKDF2_INPUT
}

/// The fields of a stored password hash.
pub struct HashFields {
    pub iterations: u32,
    pub salt: Vec<u8>,
    pub key: Vec<u8>,
}

/// Why a password hash could not be made.
#[derive(Debug, PartialEq, Eq, Structural)]
pub enum PasswordHashError {
    /// The operating system's random source failed.
    RandomSourceFailed,
}

/// Why a login was refused.
#[derive(Debug, PartialEq, Eq, Structural)]
pub enum LoginError {
    /// No user has the given email address.
    NoUserFound,
    /// The password does not match the user's stored hash.
    WrongPassword,
}

impl LoginError {
    /// The text with which the login service answers a refused login.
    pub fn message(&self) -> (r: &'static str)
        ensures
            r@ == (match self {
                LoginError::NoUserFound => "no user found"@,
                LoginError::WrongPassword => "wrong password"@,
            }),
    {
        match self {
            LoginError::NoUserFound => "no user found",
            LoginError::WrongPassword => "wrong password",
        }
    }
}

/// Operations on users and their passwords.
pub struct UserData;

impl UserData {
    /// Reads the iteration count, salt and key of a stored hash, or returns
    /// `None` when the text is not a readable hash.
    pub fn parse_password_hash(password_hash: &str) -> (r: Option<HashFields>)
        ensures
            match hash_fields(password_hash.spec_bytes()) {
                Some((iterations, salt, key)) => r matches Some(f) && f.iterations == iterations
                    && f.salt@ == salt && f.key@ == key,
                None => r is None,
            },
    {
        let parts = split_colon(password_hash);
        if parts.len() < 3 {
            return None;
        }
        let iterations = match parse_nonzero_u32_text(parts[0]) {
            Some(n) => n,
            None => return None,
        };
        let salt = match scan_hex(parts[1]) {
            HexScan::Decoded(v) => v,
            _ => return None,
        };
        let trimmed = trim_text(parts[2]);
        proof {
            assert(parts@[2]@ == decode_utf8(parts@[2].spec_bytes()));
        }
        let key = match scan_hex(trimmed) {
            HexScan::Decoded(v) => v,
            _ => return None,
        };
        Some(HashFields { iterations, salt, key })
    }

    /// Checks `password` against a stored hash `ITERATIONS:SALT:KEY`.
    ///
    /// The hash must be readable (see `parse_password_hash`); on any other
    /// text the check panics.
    pub fn validate_password(password: &str, password_hash: &str) -> (r: bool)
        requires
            hash_is_checkable(password_hash.spec_bytes()),
            password.spec_bytes().len() <= MAX_PBKDF2_INPUT,
        ensures
            r == password_matches(password.spec_bytes(), password_hash.spec_bytes()),
    {
        match Self::parse_password_hash(password_hash) {
            Some(fields) => pbkdf2_verify(
                fields.iterations,
                fields.salt.as_slice(),
                password.as_bytes(),
                fields.key.as_slice(),
            ),
            None => {
                proof {
                    assert(false);
                }
                false
            },
        }
    }

    /// Decides a login attempt: `found` is the user that the email address
    /// names, if any, and `password` the password given. Refuses with
    /// `NoUserFound` or `WrongPassword`, or accepts with the user.
    ///
    /// The user's stored hash must be readable, as for `validate_password`.
    pub fn check_credentials(found: Option<User>, password: &str) -> (r: Result<User, LoginError>)
        requires
            password.spec_bytes().len() <= MAX_PBKDF2_INPUT,
            found matches Some(u) ==> hash_is_checkable(encode_utf8(u.password_hash@)),
        ensures
            match found {
                None => r == Err::<User, LoginError>(LoginError::NoUserFound),
                Some(u) => if password_matches(password.spec_bytes(), encode_utf8(u.password_hash@)) {
                    r == Ok::<User, LoginError>(u)
                } else {
                    r == Err::<User, LoginError>(LoginError::WrongPassword)
                },
            },
    {
        match found {
            None => Err(LoginError::NoUserFound),
            Some(user) => {
                let valid = Self::validate_password(password, user.password_hash.as_str());
                if valid {
                    Ok(user)
                } else {
                    Err(LoginError::WrongPassword)
                }
            },
        }
    }

    /// Derives the stored hash of `password` for a given salt: PBKDF2-HMAC-SHA1
    /// with 1000 iterations and a 20-byte key, written `1000:SALT:KEY` with
    /// salt and key in lowercase hexadecimal.
    pub fn hash_password_with_salt(password: &str, salt: &[u8]) -> (r: String)
        requires
            password.spec_bytes().len() <= MAX_PBKDF2_INPUT,
            salt@.len() <= MAX_PBKDF2_INPUT,
        ensures
            pbkdf2_hmac_sha1(PBKDF2_ITERATIONS, salt@, password.spec_bytes(), KEY_LEN as nat).len() == KEY_LEN,
            r@ == hash_text(
                PBKDF2_ITERATIONS,
                salt@,
                pbkdf2_hmac_sha1(PBKDF2_ITERATIONS, salt@, password.spec_bytes(), KEY_LEN as nat),
            ),
    {
        let mut key: Vec<u8> = Vec::new();
        while key.len() < KEY_LEN
            invariant
                key@.len() <= KEY_LEN,
            decreases KEY_LEN - key@.len(),
        {
            key.push(0u8);
        }
        pbkdf2_derive(PBKDF2_ITERATIONS, salt, password.as_bytes(), &mut key);
        let mut text = u32_to_decimal(PBKDF2_ITERATIONS);
        let separator = ":";
        proof {
            reveal_strlit(":");
        }
        text.append(separator);
        let salt_hex = hex_encode(salt);
        text.append(salt_hex.as_str());
        text.append(separator);
        let key_hex = hex_encode(key.as_slice());
        text.append(key_hex.as_str());
        text
    }

    /// Makes the stored hash of `password` with a fresh random 24-byte salt.
    ///
    /// Fails only when the operating system's random source does.
    pub fn generate_password_hash(password: &str) -> (r: Result<String, PasswordHashError>)
        requires
            password.spec_bytes().len() <= MAX_PBKDF2_INPUT,
        ensures
            r matches Ok(h) ==> exists|salt: Seq<u8>|
                #![trigger hash_text(PBKDF2_ITERATIONS, salt, pbkdf2_hmac_sha1(PBKDF2_ITERATIONS, salt, password.spec_bytes(), KEY_LEN as nat))]
                salt.len() == SALT_LEN
                && pbkdf2_hmac_sha1(PBKDF2_ITERATIONS, salt, password.spec_bytes(), KEY_LEN as nat).len() == KEY_LEN
                && h@ == hash_text(
                    PBKDF2_ITERATIONS,
                    salt,
                    pbkdf2_hmac_sha1(PBKDF2_ITERATIONS, salt, password.spec_bytes(), KEY_LEN as nat),
                ),
            r matches Err(e) ==> e == PasswordHashError::RandomSourceFailed,
    {
        let mut salt: Vec<u8> = Vec::new();
        while salt.len() < SALT_LEN
            invariant
                salt@.len() <= SALT_LEN,
            decreases SALT_LEN - salt@.len(),
        {
            salt.push(0u8);
        }
        let filled = os_random_fill(&mut salt);
        Self::hash_with_drawn_salt(password, salt.as_slice(), filled)
    }

    /// Finishes a new password hash once the salt has been drawn: when the
    /// random source gave the salt (`filled`), the stored hash of `password`
    /// with that salt, for every password within `MAX_PBKDF2_INPUT` bytes;
    /// otherwise `RandomSourceFailed`.
    pub fn hash_with_drawn_salt(password: &str, salt: &[u8], filled: bool) -> (r: Result<String, PasswordHashError>)
        requires
            password.spec_bytes().len() <= MAX_PBKDF2_INPUT,
            salt@.len() <= MAX_PBKDF2_INPUT,
        ensures
            filled ==> pbkdf2_hmac_sha1(PBKDF2_ITERATIONS, salt@, password.spec_bytes(), KEY_LEN as nat).len() == KEY_LEN,
            filled ==> (r matches Ok(h) && h@ == hash_text(
                PBKDF2_ITERATIONS,
                salt@,
                pbkdf2_hmac_sha1(PBKDF2_ITERATIONS, salt@, password.spec_bytes(), KEY_LEN as nat),
            )),
            !filled ==> r == Err::<String, PasswordHashError>(PasswordHashError::RandomSourceFailed),
    {
        if filled {
            Ok(Self::hash_password_with_salt(password, salt))
        } else {
            Err(PasswordHashError::RandomSourceFailed)
        }
    }
}

/// Law: a stored hash text reads back as the iteration count, salt and key
/// it was written from, whenever the iteration count is positive.
pub proof fn lemma_hash_text_fields(iterations: u32, salt: Seq<u8>, key: Seq<u8>)
    requires
        iterations > 0,
    ensures
        hash_fields(encode_utf8(hash_text(iterations, salt, key))) == Some((iterations, salt, key)),
        salt.len() <= MAX_PBKDF2_INPUT ==> hash_is_checkable(encode_utf8(hash_text(iterations, salt, key))),
{
    let d = decimal_text(iterations as nat);
    let hs = hex_lower(salt);
    let hk = hex_lower(key);
    let t = hash_text(iterations, salt, key);
    lemma_decimal_parse(iterations);
    crate::encoding::lemma_decimal_digits(iterations as nat);
    lemma_hex_roundtrip(salt);
    lemma_hex_roundtrip(key);
    assert(is_ascii_chars(seq![':']));
    assert(is_ascii_chars(d + seq![':']));
    assert(is_ascii_chars(d + seq![':'] + hs));
    assert(is_ascii_chars(d + seq![':'] + hs + seq![':']));
    assert(is_ascii_chars(t));
    let b = encode_utf8(t);
    assert(b =~= ascii_bytes(t));
    let (ad, ahs, ahk) = (ascii_bytes(d), ascii_bytes(hs), ascii_bytes(hk));
    assert(ascii_bytes(t) =~= (ad + seq![COLON] + ahs) + seq![COLON] + ahk);
    lemma_split_concat(ad + seq![COLON] + ahs, ahk, COLON);
    lemma_split_concat(ad, ahs, COLON);
    lemma_split_no_sep(ad, COLON);
    lemma_split_no_sep(ahs, COLON);
    lemma_split_no_sep(ahk, COLON);
    let parts = split_on(b, COLON);
    assert(parts =~= seq![ad, ahs, ahk]);
    assert(ahk =~= encode_utf8(hk));
    lemma_trim_no_white_space(hk);
    assert(trimmed_bytes(ahk) == ahk);
}

/// Law: a password is accepted by a stored hash whose key was derived from
/// that password, with any salt and positive iteration count and key length.
/// In particular every hash that `generate_password_hash` or
/// `hash_password_with_salt` makes of a password accepts that password.
pub proof fn lemma_derived_hash_accepts_password(password: Seq<u8>, iterations: u32, salt: Seq<u8>, key: Seq<u8>)
    requires
        iterations > 0,
        0 < key.len() <= MAX_PBKDF2_OUTPUT,
        key == pbkdf2_hmac_sha1(iterations, salt, password, key.len()),
    ensures
        password_matches(password, encode_utf8(hash_text(iterations, salt, key))),
{
    lemma_hash_text_fields(iterations, salt, key);
}

} // verus!
