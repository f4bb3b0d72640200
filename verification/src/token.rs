//! Push tokens: the signed claim that a PIN was reserved, good for a day.

use vstd::prelude::*;
use crate::relay::token_expiry;
use crate::relay::ApplicationSettings;
use crate::relay::TOKEN_LIFETIME;

verus! {

/// What a push token claims: the PIN it was issued for, and when it
/// expires, in seconds since the epoch.
#[derive(Debug)]
pub struct JWTClaims {
    pub pin: String,
    pub exp: u64,
}

/// What was read out of a token that was accepted: the text of its claim
/// `pin` and the number of its claim `exp`, each where the token has one.
pub struct OpenedToken {
    pub pin: Option<String>,
    pub exp: Option<u64>,
}

pub open spec fn missing_pin_message() -> Seq<char> {
    "missing field `pin`"@
}

pub open spec fn missing_exp_message() -> Seq<char> {
    "missing field `exp`"@
}

/// When a token issued at `now` expires.
pub open spec fn expiry(now: u64) -> u64 {
    if now + TOKEN_LIFETIME <= u64::MAX {
        (now + TOKEN_LIFETIME) as u64
    } else {
        u64::MAX
    }
}

/// The token that signing the claims `pin` and `exp` with `secret` gives,
/// or the reason why it gives none.
pub uninterp spec fn signed_claims(pin: Seq<char>, exp: u64, secret: Seq<char>) -> Result<
    Seq<char>,
    Seq<char>,
>;

/// `jsonwebtoken::encode` with the default header, on the claims `pin` and
/// `exp`, with `secret` as the key of the signature. The token is the
/// encoded header, the encoded claims and the signature over both, so it
/// depends on the three arguments alone.
#[verifier::external_body]
fn sign_claims(pin: &str, exp: u64, secret: &str) -> (r: Result<String, String>)
    ensures
        signed_as(r, signed_claims(pin@, exp, secret@)),
{
    let mut claims = serde_json::Map::new();
    claims.insert("pin".to_owned(), serde_json::Value::from(pin));
    claims.insert("exp".to_owned(), serde_json::Value::from(exp));
    let key = jsonwebtoken::EncodingKey::from_secret(secret.as_bytes());
    jsonwebtoken::encode(&jsonwebtoken::Header::default(), &claims, &key).map_err(
        |e| e.to_string(),
    )
}

/// The result `r` is the text result `named`.
pub open spec fn signed_as(r: Result<String, String>, named: Result<Seq<char>, Seq<char>>) -> bool {
    match named {
        Ok(token) => r matches Ok(t) && t@ == token,
        Err(why) => r matches Err(e) && e@ == why,
    }
}

/// `jsonwebtoken::decode` with the default validation and `secret` as the
/// key of the signature, then the claims `pin` and `exp` picked out of
/// what it accepted. Whether a token is accepted depends on the clock, so
/// nothing is claimed about what comes back; a refusal is given as its
/// text.
#[verifier::external_body]
fn open_token(token: &str, secret: &str) -> (r: Result<OpenedToken, String>) {
    let key = jsonwebtoken::DecodingKey::from_secret(secret.as_bytes());
    let validation = jsonwebtoken::Validation::default();
    let data = jsonwebtoken::decode::<serde_json::Value>(token, &key, &validation).map_err(
        |e| e.to_string(),
    )?;
    let pin = data.claims.get("pin").and_then(|pin| pin.as_str()).map(|pin| pin.to_owned());
    let exp = data.claims.get("exp").and_then(|exp| exp.as_u64());
    Ok(OpenedToken { pin, exp })
}

/// The push token for the PIN `pin`, issued at `now` seconds since the
/// epoch and good for a day, signed with the relay's secret.
pub fn gen_jwt(settings: &ApplicationSettings, pin: String, now: u64) -> (r: Result<String, String>)
    ensures
        signed_as(r, signed_claims(pin@, expiry(now), settings.secret())),
{
    let exp = token_expiry(now);
    let secret = settings.jwt_pin_secret();
    sign_claims(pin.as_str(), exp, secret.as_str())
}

/// What a token gives whose opening gave `opened`: the claims, where the
/// token was accepted and holds both; else the refusal, or the message
/// that names the claim that is missing.
pub open spec fn claims_outcome(
    opened: Result<OpenedToken, String>,
    r: Result<JWTClaims, String>,
) -> bool {
    match opened {
        Err(why) => r matches Err(e) && e@ == why@,
        Ok(found) => match (found.pin, found.exp) {
            (None, _) => r matches Err(e) && e@ == missing_pin_message(),
            (Some(_), None) => r matches Err(e) && e@ == missing_exp_message(),
            (Some(pin), Some(exp)) => r matches Ok(claims) && claims.pin@ == pin@ && claims.exp
                == exp,
        },
    }
}

/// The claims of a token whose opening gave `opened`.
pub fn claims_of(opened: Result<OpenedToken, String>) -> (r: Result<JWTClaims, String>)
    ensures
        claims_outcome(opened, r),
{
    match opened {
        Err(why) => Err(why),
        Ok(found) => match found.pin {
            None => Err("missing field `pin`".to_owned()),
            Some(pin) => match found.exp {
                None => Err("missing field `exp`".to_owned()),
                Some(exp) => Ok(JWTClaims { pin, exp }),
            },
        },
    }
}

/// The claims of the push token `token`, where it was signed with the
/// relay's secret and has not expired.
pub fn validate_jwt(settings: &ApplicationSettings, token: &str) -> (r: Result<JWTClaims, String>)
    ensures
        exists|opened: Result<OpenedToken, String>| #[trigger] claims_outcome(opened, r),
{
    let secret = settings.jwt_pin_secret();
    let opened = open_token(token, secret.as_str());
    claims_of(opened)
}

} // verus!
