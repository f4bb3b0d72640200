//! Passphrase encryption of payloads and hashing of passphrases.

use vstd::prelude::*;
use vstd::string::StringExecFns;
use std::io::Read;
use std::io::Write;
use crate::error::fails_with;
use crate::error::LocalLedgerError;
use crate::error::LocalLedgerErrorType;

verus! {

/// How an attempt to decrypt ended.
pub enum Unsealed {
    /// The plaintext.
    Plain(Vec<u8>),
    /// The data was encrypted to something other than a passphrase.
    NotPassphrase,
    /// The data is no encrypted envelope, or the passphrase does not open it.
    Failed(String),
}

pub open spec fn encrypt_failed_message(why: Seq<char>) -> Seq<char> {
    "Failed to encrypt doc: "@ + why
}

pub open spec fn decrypt_failed_message(why: Seq<char>) -> Seq<char> {
    "Failed to decrypt data: "@ + why
}

pub open spec fn not_passphrase_message() -> Seq<char> {
    "Failed to decrypt. Received encrypted data that was secured by some means other than a passphrase."@
}

/// The result of encrypting, as a ledger result.
pub open spec fn sealing_outcome(
    outcome: Result<Vec<u8>, String>,
    r: Result<Vec<u8>, LocalLedgerError>,
) -> bool {
    match outcome {
        Ok(sealed) => r == Ok::<Vec<u8>, LocalLedgerError>(sealed),
        Err(why) => fails_with(r, LocalLedgerErrorType::Default, encrypt_failed_message(why@)),
    }
}

/// The result of decrypting, as a ledger result.
pub open spec fn unsealing_outcome(outcome: Unsealed, r: Result<Vec<u8>, LocalLedgerError>) -> bool {
    match outcome {
        Unsealed::Plain(plain) => r == Ok::<Vec<u8>, LocalLedgerError>(plain),
        Unsealed::NotPassphrase => fails_with(
            r,
            LocalLedgerErrorType::Default,
            not_passphrase_message(),
        ),
        Unsealed::Failed(why) => fails_with(
            r,
            LocalLedgerErrorType::Default,
            decrypt_failed_message(why@),
        ),
    }
}

/// Whether `bcrypt::verify` accepts passphrase `pass` for hash `hash`.
pub uninterp spec fn bcrypt_accepts(pass: Seq<char>, hash: Seq<char>) -> bool;

/// Encrypts `plain` to `passphrase` with age: `Encryptor::with_user_passphrase`,
/// `wrap_output`, `write_all`, `finish`. The envelope is salted at random, so
/// nothing is claimed about what comes back; a failure is given as its text.
#[verifier::external_body]
fn age_seal(passphrase: &str, plain: &Vec<u8>) -> (r: Result<Vec<u8>, String>) {
    let secret = age::secrecy::Secret::new(passphrase.to_owned());
    let mut sealed = Vec::new();
    let mut writer = age::Encryptor::with_user_passphrase(secret)
        .wrap_output(&mut sealed)
        .map_err(|e| e.to_string())?;
    writer.write_all(plain).map_err(|e| e.to_string())?;
    writer.finish().map_err(|e| e.to_string())?;
    Ok(sealed)
}

/// Decrypts `sealed` with `passphrase` with age: `Decryptor::new`, then
/// `decrypt` on a passphrase envelope and `read_to_end`. The work that age
/// accepts to do depends on the machine, so nothing is claimed about what
/// comes back; a failure is given as its text.
#[verifier::external_body]
fn age_unseal(passphrase: &str, sealed: &Vec<u8>) -> (r: Unsealed) {
    let secret = age::secrecy::Secret::new(passphrase.to_owned());
    let envelope = match age::Decryptor::new(&sealed[..]) {
        Ok(age::Decryptor::Passphrase(envelope)) => envelope,
        Ok(_) => return Unsealed::NotPassphrase,
        Err(e) => return Unsealed::Failed(e.to_string()),
    };
    let mut plain = Vec::new();
    match envelope.decrypt(&secret, None).map(|mut reader| reader.read_to_end(&mut plain)) {
        Ok(Ok(_)) => Unsealed::Plain(plain),
        Ok(Err(e)) => Unsealed::Failed(e.to_string()),
        Err(e) => Unsealed::Failed(e.to_string()),
    }
}

/// `bcrypt::hash`: a hash of `pass` under a random salt. Nothing is claimed
/// about what comes back; a failure is given as its text.
#[verifier::external_body]
pub(crate) fn bcrypt_hash(pass: &str) -> (r: Result<String, String>) {
    pwhash::bcrypt::hash(pass).map_err(|e| e.to_string())
}

/// `bcrypt::verify`: whether `hash` is a bcrypt hash of `pass`. It hashes
/// `pass` again with the parameters read out of `hash` and compares, so the
/// answer depends on the two texts alone. Reading the salt out of `hash`
/// takes 32 off each character's code and looks the rest up in a table of
/// 96 entries, which goes wrong for a code below 32 and for the code 128:
/// a hash with a character that is not printable ASCII is not handed over.
#[verifier::external_body]
fn bcrypt_verify(pass: &str, hash: &str) -> (b: bool)
    requires
        printable(hash@),
    ensures
        b == bcrypt_accepts(pass@, hash@),
{
    pwhash::bcrypt::verify(pass, hash)
}

/// Turns the result of encrypting into a ledger result.
pub fn sealing_result(outcome: Result<Vec<u8>, String>) -> (r: Result<Vec<u8>, LocalLedgerError>)
    ensures
        sealing_outcome(outcome, r),
{
    match outcome {
        Ok(sealed) => Ok(sealed),
        Err(why) => Err(LocalLedgerError::with_detail("Failed to encrypt doc: ", why.as_str())),
    }
}

/// Turns the result of decrypting into a ledger result.
pub fn unsealing_result(outcome: Unsealed) -> (r: Result<Vec<u8>, LocalLedgerError>)
    ensures
        unsealing_outcome(outcome, r),
{
    match outcome {
        Unsealed::Plain(plain) => Ok(plain),
        Unsealed::NotPassphrase => Err(
            LocalLedgerError::new(
                "Failed to decrypt. Received encrypted data that was secured by some means other than a passphrase.",
            ),
        ),
        Unsealed::Failed(why) => Err(
            LocalLedgerError::with_detail("Failed to decrypt data: ", why.as_str()),
        ),
    }
}

/// The failure is one of encrypting: a `Default` error whose message says
/// so, and why.
pub open spec fn is_encrypt_failure(e: LocalLedgerError) -> bool {
    e.err_type == LocalLedgerErrorType::Default && exists|why: Seq<char>|
        e.message@ == #[trigger] encrypt_failed_message(why)
}

/// The failure is one of decrypting: a `Default` error whose message says
/// so, and why, or says that the data was not encrypted to a passphrase.
pub open spec fn is_decrypt_failure(e: LocalLedgerError) -> bool {
    e.err_type == LocalLedgerErrorType::Default && (e.message@ == not_passphrase_message()
        || exists|why: Seq<char>| e.message@ == #[trigger] decrypt_failed_message(why))
}

/// Encrypts `plain` to `passphrase`.
pub fn encrypt_with(passphrase: &str, plain: &Vec<u8>) -> (r: Result<Vec<u8>, LocalLedgerError>)
    ensures
        r matches Err(e) ==> is_encrypt_failure(e),
{
    let outcome = age_seal(passphrase, plain);
    let ghost witness = outcome;
    let r = sealing_result(outcome);
    proof {
        if witness is Err {
            assert(r->Err_0.message@ == encrypt_failed_message(witness->Err_0@));
        }
    }
    r
}

/// Decrypts `sealed` with `passphrase`.
pub fn decrypt_with(passphrase: &str, sealed: &Vec<u8>) -> (r: Result<Vec<u8>, LocalLedgerError>)
    ensures
        r matches Err(e) ==> is_decrypt_failure(e),
{
    let outcome = age_unseal(passphrase, sealed);
    let ghost witness = outcome;
    let r = unsealing_result(outcome);
    proof {
        if witness is Failed {
            assert(r->Err_0.message@ == decrypt_failed_message(witness->Failed_0@));
        }
    }
    r
}

/// Whether every character of `text` is printable ASCII: from the space
/// to the tilde.
pub open spec fn printable(text: Seq<char>) -> bool {
    forall|i: int| 0 <= i < text.len() ==> ' ' <= #[trigger] text[i] <= '~'
}

/// Whether the passphrase `pass` is accepted for the stored hash `hash`: a
/// text with a character that is not printable ASCII is no hash and
/// accepts nothing, and any other accepts what bcrypt accepts for it.
pub open spec fn password_accepted(pass: Seq<char>, hash: Seq<char>) -> bool {
    printable(hash) && bcrypt_accepts(pass, hash)
}

/// Whether every character of `text` is printable ASCII.
pub fn is_printable(text: &str) -> (b: bool)
    ensures
        b == printable(text@),
{
    let n: usize = text.unicode_len();
    let mut i: usize = 0;
    while i < n
        invariant
            n == text@.len(),
            i <= n,
            forall|j: int| 0 <= j < i ==> ' ' <= #[trigger] text@[j] <= '~',
        decreases n - i,
    {
        let c: char = text.get_char(i);
        let plain: bool = ' ' <= c && c <= '~';
        if !plain {
            return false;
        }
        i = i + 1;
    }
    true
}

/// Whether `hash` is a bcrypt hash of `pass`.
pub fn password_matches(pass: &str, hash: &str) -> (b: bool)
    ensures
        b == password_accepted(pass@, hash@),
{
    is_printable(hash) && bcrypt_verify(pass, hash)
}

} // verus!
