//! Password hashing (argon2id, PHC strings) and the CSRF rule.
//!
//! Provisioning: a PHC string is produced offline, placed in the service's
//! configuration and checked for well-formedness at start-up.
use vstd::prelude::*;

use crate::api_error::{ApiError, ErrorKind, Lang};
use crate::session::{random_bytes, random_error_text};
use crate::text::{chars_of, eq_lit, has_prefix, push_str, str_view, string_from_chars};
use vstd::utf8::encode_utf8;

verus! {

/// The minimum password length (only the length is ruled on).
pub const MIN_PASSWORD_LEN: usize = 12;

/// The name of the header that every state-changing request must carry.
pub const CSRF_HEADER: &'static str = "x-cytrace-request";

/// The error type of the `password-hash` crate.
#[verifier::external_type_specification]
#[verifier::external_body]
pub struct ExPasswordHashError(argon2::password_hash::Error);

/// The standard Base64 digit of a 6-bit value: `A`–`Z`, `a`–`z`, `0`–`9`,
/// `+`, `/`.
pub open spec fn b64_digit(v: int) -> char {
    if v < 26 {
        (('A' as int) + v) as char
    } else if v < 52 {
        (('a' as int) + v - 26) as char
    } else if v < 62 {
        (('0' as int) + v - 52) as char
    } else if v == 62 {
        '+'
    } else {
        '/'
    }
}

/// The B64 text of `bytes`: standard Base64 without padding, each group of
/// three bytes giving four digits and a last group of one or two bytes giving
/// two or three.
pub open spec fn salt_b64(bytes: Seq<u8>) -> Seq<char>
    decreases bytes.len(),
{
    if bytes.len() == 0 {
        Seq::empty()
    } else {
        let b0 = bytes[0] as int;
        let b1 = if bytes.len() > 1 { bytes[1] as int } else { 0 };
        let b2 = if bytes.len() > 2 { bytes[2] as int } else { 0 };
        let d0 = b64_digit(b0 / 4);
        let d1 = b64_digit((b0 % 4) * 16 + b1 / 16);
        let d2 = b64_digit((b1 % 16) * 4 + b2 / 64);
        let d3 = b64_digit(b2 % 64);
        if bytes.len() == 1 {
            seq![d0, d1]
        } else if bytes.len() == 2 {
            seq![d0, d1, d2]
        } else {
            seq![d0, d1, d2, d3] + salt_b64(bytes.skip(3))
        }
    }
}

/// The PHC string of `password` hashed by `Argon2::default()` (argon2id,
/// version 19, default parameters) with the B64 salt `salt`.
pub uninterp spec fn argon2id_phc(password: Seq<char>, salt: Seq<char>) -> Seq<char>;

/// Whether `phc` parses as a PHC string (`PasswordHash::new`).
pub uninterp spec fn phc_parses(phc: Seq<char>) -> bool;

/// Whether `Argon2::default().verify_password` accepts `password` for the
/// (parsable) PHC string `phc`.
pub uninterp spec fn argon2_accepts(password: Seq<char>, phc: Seq<char>) -> bool;

/// B64-encodes salt bytes (`SaltString::encode_b64`).
///
/// Trusted: on success the text is `salt_b64(bytes)`, the unpadded standard
/// Base64 of the bytes (the salt string's `B64` encoding); it succeeds for at most
/// 48 bytes, whose unpadded B64 fits the 64 characters a salt string holds
/// (the encoder fails only when the output buffer is too short).
#[verifier::external_body]
fn encode_salt(bytes: &[u8]) -> (r: Result<String, argon2::password_hash::Error>)
    ensures
        r matches Ok(s) ==> s@ == salt_b64(bytes@),
        bytes@.len() <= 48 ==> r is Ok,
{
    match argon2::password_hash::SaltString::encode_b64(bytes) {
        Ok(s) => Ok(s.as_str().to_string()),
        Err(e) => Err(e),
    }
}

/// Hashes `password` with `Argon2::default()` and the B64 salt `salt`
/// (`PasswordHasher::hash_password`), returning the PHC string.
///
/// Trusted: on success the string is `argon2id_phc(password, salt)`; it starts
/// with `$argon2id$` (the `Display` of a hash writes `$`, the algorithm's
/// identifier and `$`), it parses back (`PasswordHash::new`), and verifying the
/// same password against it succeeds (verification recomputes the hash with
/// the parameters and salt the string holds). It succeeds for the B64 text of
/// a 16-byte salt and a password of at most `u32::MAX` bytes: such a salt
/// parses (4 to 64 B64 characters) and decodes to 16 bytes (at least the 8
/// Argon2 asks for), and the default parameters give a 32-byte output (within
/// 10 to 64) whose hashing fails only for a longer password. A password longer
/// than `u32::MAX` bytes always fails (`Argon2`'s input check refuses it).
#[verifier::external_body]
fn argon2_hash(password: &str, salt: &str) -> (r: Result<String, argon2::password_hash::Error>)
    ensures
        encode_utf8(password@).len() > 0xFFFFFFFF ==> r is Err,
        (exists|b: Seq<u8>| b.len() == 16 && salt@ == #[trigger] salt_b64(b)) && encode_utf8(
            password@,
        ).len() <= 0xFFFFFFFF ==> r is Ok,
        r matches Ok(h) ==> h@ == argon2id_phc(password@, salt@),
        r matches Ok(h) ==> h@.len() >= 10 && h@.take(10) == "$argon2id$"@,
        r matches Ok(h) ==> phc_parses(h@),
        r matches Ok(h) ==> argon2_accepts(password@, h@),
{
    let salt = argon2::password_hash::Salt::from_b64(salt)?;
    match argon2::PasswordHasher::hash_password(&argon2::Argon2::default(), password.as_bytes(), salt) {
        Ok(h) => Ok(h.to_string()),
        Err(e) => Err(e),
    }
}

/// Parses `phc` as a PHC string (`PasswordHash::new`), keeping only whether it parsed.
///
/// Trusted: it succeeds exactly when `phc_parses(phc)`.
#[verifier::external_body]
fn parse_phc(phc: &str) -> (r: Result<(), argon2::password_hash::Error>)
    ensures
        r is Ok <==> phc_parses(phc@),
{
    match argon2::password_hash::PasswordHash::new(phc) {
        Ok(_) => Ok(()),
        Err(e) => Err(e),
    }
}

/// Verifies `password` against the PHC string `phc`: parses it
/// (`PasswordHash::new`) and runs `Argon2::default().verify_password`.
///
/// Trusted: it fails exactly when `phc` does not parse; otherwise the answer is
/// `argon2_accepts(password, phc)`.
#[verifier::external_body]
fn argon2_verify(password: &str, phc: &str) -> (r: Result<bool, argon2::password_hash::Error>)
    ensures
        r is Ok <==> phc_parses(phc@),
        r matches Ok(b) ==> b == argon2_accepts(password@, phc@),
{
    let parsed = argon2::password_hash::PasswordHash::new(phc)?;
    Ok(argon2::PasswordVerifier::verify_password(&argon2::Argon2::default(), password.as_bytes(), &parsed).is_ok())
}

/// The message of a password-hash error (its `Display` text).
///
/// Trusted: nothing is stated of the text.
#[verifier::external_body]
fn hash_error_text(e: &argon2::password_hash::Error) -> String {
    e.to_string()
}

/// `prefix` followed by `detail`.
fn prefixed(prefix: &str, detail: &str) -> (r: String)
    ensures
        r@ == prefix@ + detail@,
{
    let mut out: Vec<char> = Vec::new();
    push_str(&mut out, prefix);
    push_str(&mut out, detail);
    string_from_chars(&out)
}

/// The argon2id PHC string of `password` with the 16-byte salt `salt`, hashed
/// by `Argon2::default()`. It fails (`argon2: …`) exactly when the password is
/// longer than `u32::MAX` bytes.
pub fn hash_password_with_salt(password: &str, salt: &[u8]) -> (r: Result<String, String>)
    requires
        salt@.len() == 16,
    ensures
        r is Ok <==> encode_utf8(password@).len() <= 0xFFFFFFFF,
        r matches Ok(h) ==> h@ == argon2id_phc(password@, salt_b64(salt@)),
        r matches Ok(h) ==> h@.len() >= 10 && h@.take(10) == "$argon2id$"@,
        r matches Ok(h) ==> phc_parses(h@) && argon2_accepts(password@, h@),
        r matches Err(m) ==> has_prefix(m@, "argon2: "@),
{
    let text = match encode_salt(salt) {
        Ok(s) => s,
        Err(e) => {
            let t = hash_error_text(&e);
            return Err(prefixed("salt: ", t.as_str()));
        },
    };
    assert(text@ == salt_b64(salt@));
    match argon2_hash(password, text.as_str()) {
        Ok(h) => Ok(h),
        Err(e) => {
            let t = hash_error_text(&e);
            let m = prefixed("argon2: ", t.as_str());
            proof {
                reveal_strlit("argon2: ");
                assert(m@.take("argon2: "@.len() as int) =~= "argon2: "@);
            }
            Err(m)
        },
    }
}

/// Produces an argon2id PHC string (such as `$argon2id$v=19$m=19456,t=2,p=1$…`)
/// for `password`, with a 16-byte salt from the operating system's random source
/// (see [`hash_password_with_salt`]). Fails when the random source fails
/// (`getrandom: …`), or when the password is longer than `u32::MAX` bytes
/// (`argon2: …`).
pub fn hash_password(password: &str) -> (r: Result<String, String>)
    ensures
        r matches Err(m) ==> has_prefix(m@, "getrandom: "@) || (has_prefix(m@, "argon2: "@)
            && encode_utf8(password@).len() > 0xFFFFFFFF),
        r matches Ok(h) ==> exists|salt: Seq<u8>| salt.len() == 16 && h@ == #[trigger] argon2id_phc(password@, salt_b64(salt)),
        r matches Ok(h) ==> h@.len() >= 10 && h@.take(10) == "$argon2id$"@,
        r matches Ok(h) ==> phc_parses(h@) && argon2_accepts(password@, h@),
{
    let salt_bytes = match random_bytes(16) {
        Ok(v) => v,
        Err(e) => {
            let t = random_error_text(&e);
            let m = prefixed("getrandom: ", t.as_str());
            proof {
                reveal_strlit("getrandom: ");
                assert(m@.take("getrandom: "@.len() as int) =~= "getrandom: "@);
            }
            return Err(m);
        },
    };
    hash_password_with_salt(password, &salt_bytes)
}

/// Whether `password` matches the PHC string `phc`; an error when `phc` is not
/// a well-formed PHC string.
pub fn verify_password(password: &str, phc: &str) -> (r: Result<bool, String>)
    ensures
        r is Ok <==> phc_parses(phc@),
        r matches Ok(b) ==> b == argon2_accepts(password@, phc@),
        r matches Err(m) ==> has_prefix(m@, "PHC 格式錯誤: "@),
{
    proof {
        reveal_strlit("PHC 格式錯誤: ");
    }
    match argon2_verify(password, phc) {
        Ok(b) => Ok(b),
        Err(e) => {
            let t = hash_error_text(&e);
            let m = prefixed("PHC 格式錯誤: ", t.as_str());
            assert(m@.take("PHC 格式錯誤: "@.len() as int) =~= "PHC 格式錯誤: "@);
            Err(m)
        },
    }
}

/// Whether `phc` is a well-formed PHC string (checked at start-up; the
/// password itself is not checked).
pub fn is_valid_phc(phc: &str) -> (r: bool)
    ensures
        r == phc_parses(phc@),
{
    parse_phc(phc).is_ok()
}

/// Whether a request method changes state (POST, PUT, PATCH, DELETE).
pub open spec fn mutating(method: Seq<char>) -> bool {
    method == "POST"@ || method == "PUT"@ || method == "PATCH"@ || method == "DELETE"@
}

/// Whether a request method changes state.
pub fn is_mutating_method(method: &str) -> (r: bool)
    ensures
        r == mutating(method@),
{
    let m = chars_of(method);
    eq_lit(&m, "POST") || eq_lit(&m, "PUT") || eq_lit(&m, "PATCH") || eq_lit(&m, "DELETE")
}

/// Whether the CSRF header's value is the one the rule asks for: `1`.
pub open spec fn csrf_value_ok(value: Option<Seq<char>>) -> bool {
    value == Some(seq!['1'])
}

/// The CSRF rule: a state-changing request must carry the header
/// `x-cytrace-request: 1`. `csrf_value` is the header's value, if the request
/// has it. A cross-site form cannot add a custom header, and adding one forces
/// a preflight, which fails since the service enables no CORS.
pub fn csrf_check(method: &str, csrf_value: Option<&str>, lang: Lang) -> (r: Result<(), ApiError>)
    ensures
        r is Err <==> mutating(method@) && !csrf_value_ok(str_view(csrf_value)),
        r matches Err(e) ==> e.kind == ErrorKind::Csrf && e.lang == lang && e.detail is None && e.retry_after is None,
{
    let ok = match csrf_value {
        Some(v) => {
            let cs = chars_of(v);
            cs.len() == 1 && cs[0] == '1'
        },
        None => false,
    };
    proof {
        if let Some(v) = csrf_value {
            if v@.len() == 1 && v@[0] == '1' {
                assert(v@ =~= seq!['1']);
            }
        }
    }
    if is_mutating_method(method) && !ok {
        Err(ApiError::new(lang, ErrorKind::Csrf))
    } else {
        Ok(())
    }
}

} // verus!
