//! The boundary of the proofs: every call that leaves this crate is made
//! here, behind a contract that is believed rather than proved.

use vstd::prelude::*;
use argon2::{PasswordHasher, PasswordVerifier};

verus! {

/// The lower-case hexadecimal digit that stands for `value`, for `value` in `0..16`.
pub open spec fn hex_digit(value: int) -> char {
    if value < 10 {
        (value + 48) as char
    } else {
        (value + 87) as char
    }
}

/// `16` to the power `exponent`.
pub open spec fn pow16(exponent: nat) -> int
    decreases exponent,
{
    if exponent == 0 {
        1
    } else {
        16 * pow16((exponent - 1) as nat)
    }
}

/// The `index`-th of the 32 hexadecimal digits of `value`, most significant first.
pub open spec fn uuid_digit(value: u128, index: int) -> char {
    hex_digit((value as int / pow16((31 - index) as nat)) % 16)
}

/// The canonical text of a UUID: 32 lower-case hexadecimal digits in groups
/// of 8, 4, 4, 4 and 12, separated by hyphens.
pub open spec fn uuid_text(value: u128) -> Seq<char> {
    Seq::new(
        36,
        |i: int|
            if i == 8 || i == 13 || i == 18 || i == 23 {
                '-'
            } else if i < 8 {
                uuid_digit(value, i)
            } else if i < 13 {
                uuid_digit(value, i - 1)
            } else if i < 18 {
                uuid_digit(value, i - 2)
            } else if i < 23 {
                uuid_digit(value, i - 3)
            } else {
                uuid_digit(value, i - 4)
            },
    )
}

/// What `uuid::Uuid::parse_str` makes of a text: the 128-bit value of the
/// UUID it reads, or `None` where it reports an error.
pub uninterp spec fn uuid_parse(text: Seq<char>) -> Option<u128>;

/// `uuid::Uuid::parse_str`, with the parsed UUID handed out as its 128-bit value.
///
/// Believed: the outcome is a function of the text alone.
#[verifier::external_body]
pub(crate) fn parse_uuid(text: &str) -> (key: Option<u128>)
    ensures
        key == uuid_parse(text@),
{
    match uuid::Uuid::parse_str(text) {
        Ok(id) => Some(id.as_u128()),
        Err(_) => None,
    }
}

/// `Display` of `uuid::Uuid`, on the UUID with the 128-bit value `value`.
///
/// Believed: the text is the hyphenated lower-case form, and
/// `uuid::Uuid::parse_str` reads that form back to the same value.
#[verifier::external_body]
pub(crate) fn uuid_to_string(value: u128) -> (text: String)
    ensures
        text@ == uuid_text(value),
        uuid_parse(text@) == Some(value),
{
    uuid::Uuid::from_u128(value).to_string()
}

/// `uuid::Uuid::new_v4`, handed out as its 128-bit value. It asks the
/// operating system for random bytes, and panics where there are none to
/// be had.
///
/// Believed: the version and variant fields mark the value as a random UUID;
/// nothing else is known of it.
#[verifier::external_body]
pub(crate) fn random_uuid() -> (value: u128)
    ensures
        value & 0x0000_0000_0000_f000_c000_0000_0000_0000
            == 0x0000_0000_0000_4000_8000_0000_0000_0000,
{
    uuid::Uuid::new_v4().as_u128()
}

/// `chrono::Utc::now`, as whole seconds since the Unix epoch. It reads the
/// system clock, and panics where that is set to a time before the epoch.
///
/// Believed: nothing; two calls may give any two values.
#[verifier::external_body]
pub(crate) fn unix_now() -> (seconds: i64) {
    chrono::Utc::now().timestamp()
}

/// The error of the password hashing crates, carried through unread.
#[verifier::external_type_specification]
#[verifier::external_body]
pub struct ExPasswordHashError(argon2::password_hash::Error);

/// What `argon2::PasswordVerifier::verify_password` of
/// `argon2::Argon2::default()` makes of a password and a stored hash in the
/// PHC string format: `Some(true)` where it accepts the password,
/// `Some(false)` where it reports that the password does not match, and
/// `None` where the hash cannot be read or checked.
pub uninterp spec fn password_verdict(password: Seq<char>, stored_hash: Seq<char>) -> Option<bool>;

/// `argon2::PasswordVerifier::verify_password` of `argon2::Argon2::default()`,
/// on the bytes of `password` and on `stored_hash` as
/// `argon2::PasswordHash::try_from` reads it. The error `Password`, which
/// stands for a password that does not match, is handed out as `Ok(false)`;
/// every other error, of reading or of checking, is handed out as it is.
/// The check takes the memory that the stored hash asks for.
///
/// Believed: the outcome is a function of the password and the stored hash
/// alone.
#[verifier::external_body]
pub(crate) fn verify_stored_password(
    password: &str,
    stored_hash: &str,
) -> (outcome: Result<bool, argon2::password_hash::Error>)
    ensures
        match outcome {
            Ok(accepted) => password_verdict(password@, stored_hash@) == Some(accepted),
            Err(_) => password_verdict(password@, stored_hash@) is None,
        },
{
    let parsed = match argon2::PasswordHash::try_from(stored_hash) {
        Ok(parsed) => parsed,
        Err(error) => return Err(error),
    };
    match argon2::Argon2::default().verify_password(password.as_bytes(), &parsed) {
        Ok(()) => Ok(true),
        Err(argon2::password_hash::Error::Password) => Ok(false),
        Err(error) => Err(error),
    }
}

/// `argon2::PasswordHasher::hash_password` of `argon2::Argon2::default()`,
/// with a salt from `argon2::password_hash::SaltString::generate` on the
/// operating system's random source, written out as a PHC string. It panics
/// where the random source fails.
///
/// Believed: nothing of the outcome; two calls on one password may differ.
#[verifier::external_body]
pub(crate) fn hash_password(
    password: &str,
) -> (outcome: Result<String, argon2::password_hash::Error>) {
    let salt = argon2::password_hash::SaltString::generate(&mut rand_core::OsRng);
    match argon2::Argon2::default().hash_password(password.as_bytes(), &salt) {
        Ok(hash) => Ok(hash.to_string()),
        Err(error) => Err(error),
    }
}

} // verus!
