//! Verification of JSON web tokens signed with EdDSA.
use vstd::prelude::*;

use jsonwebtoken::errors::ErrorKind;
use jsonwebtoken::{Algorithm, DecodingKey, Validation};

verus! {

#[verifier::external_type_specification]
#[verifier::external_body]
pub struct ExJwtError(jsonwebtoken::errors::Error);

#[verifier::external_type_specification]
#[verifier::external_body]
pub struct ExJsonError(serde_json::Error);

/// The signature algorithms that tokens are checked with.
pub enum SignatureAlgorithm {
    EdDSA,
}

/// Whether `DecodingKey::from_ed_pem` accepts the bytes `pem` as an EdDSA
/// public key in PEM form.
pub uninterp spec fn ed_pem_accepted(pem: Seq<u8>) -> bool;

/// The key bytes that `DecodingKey::from_ed_pem` takes out of the PEM `pem`.
pub uninterp spec fn ed_pem_key(pem: Seq<u8>) -> Seq<u8>;

/// Whether the token `jwt` is well formed, names EdDSA in its header and
/// carries a signature that verifies under the EdDSA public key held in the
/// first 32 bytes of `key`.
pub uninterp spec fn eddsa_signature_valid(jwt: Seq<u8>, key: Seq<u8>) -> bool;

/// Calls `jsonwebtoken::DecodingKey::from_ed_pem` and hands out the bytes
/// of the key it builds (`DecodingKey::as_bytes`). Whether it succeeds, and
/// which bytes it takes out, are taken to depend on the PEM text alone.
#[verifier::external_body]
fn ed_pem_public_key(pem: &[u8]) -> (res: Option<Vec<u8>>)
    ensures
        res is Some <==> ed_pem_accepted(pem@),
        res matches Some(k) ==> k@ == ed_pem_key(pem@),
{
    match DecodingKey::from_ed_pem(pem) {
        Ok(k) => Some(k.as_bytes().to_vec()),
        Err(_) => None,
    }
}

/// The value of the member `claim` of the JSON payload of the token `jwt`,
/// when that member is there and is a string.
pub uninterp spec fn token_string_claim(jwt: Seq<u8>, claim: Seq<char>) -> Option<Seq<char>>;

/// The views of an optional string.
pub open spec fn opt_string_view(s: Option<String>) -> Option<Seq<char>> {
    match s {
        Some(t) => Some(t@),
        None => None,
    }
}

/// The `role` member of the payload of the token `jwt`, when it is a string.
pub open spec fn token_role(jwt: Seq<u8>) -> Option<Seq<char>> {
    token_string_claim(jwt, seq!['r', 'o', 'l', 'e'])
}

/// Calls `jsonwebtoken::decode` with the key `DecodingKey::from_ed_der(key)`
/// and the validation `Validation::new` of the algorithm `alg`, and reads
/// the member `claim` of the decoded claims as a string
/// (`serde_json::Value::get`, then `as_str`). That validation asks for a
/// signature of that algorithm and for an `exp` claim that is present and
/// not in the past (with 60 s of leeway). Whether a token has expired
/// depends on the current time, so whether the call succeeds is not
/// stated; a success means that the signature verified, and the string
/// read is the one the token's payload holds, which depends on the token
/// alone. The key must hold at least 32 bytes: the EdDSA verifier slices
/// off its first 32 bytes, which panics on a shorter key.
#[verifier::external_body]
fn decode_string_claim(jwt: &[u8], key: &[u8], alg: SignatureAlgorithm, claim: &str) -> (res: Result<
    Option<String>,
    jsonwebtoken::errors::Error,
>)
    requires
        key@.len() >= 32,
    ensures
        res is Ok ==> eddsa_signature_valid(jwt@, key@),
        res matches Ok(r) ==> opt_string_view(r) == token_string_claim(jwt@, claim@),
{
    let algorithm = match alg {
        SignatureAlgorithm::EdDSA => Algorithm::EdDSA,
    };
    let validation = Validation::new(algorithm);
    jsonwebtoken::decode::<serde_json::Value>(jwt, &DecodingKey::from_ed_der(key), &validation)
        .map(|data| data.claims.get(claim).and_then(|v| v.as_str()).map(|t| t.to_owned()))
}

/// The kinds of decoding failure that verification tells apart.
pub enum DecodeFailure {
    /// The token's `exp` claim lies in the past.
    Expired,
    /// The claims could not be read as JSON of the expected shape.
    Json(std::sync::Arc<serde_json::Error>),
    /// Any other failure.
    Other,
}

/// Calls `jsonwebtoken::errors::Error::kind` and tells its variants apart,
/// keeping the JSON error of a JSON failure. No contract: the error is an
/// outside type whose contents are not modelled, so which kind it has is
/// left open.
#[verifier::external_body]
fn decode_failure(e: &jsonwebtoken::errors::Error) -> DecodeFailure {
    match e.kind() {
        ErrorKind::ExpiredSignature => DecodeFailure::Expired,
        ErrorKind::Json(s) => DecodeFailure::Json(std::sync::Arc::clone(s)),
        _ => DecodeFailure::Other,
    }
}

/// Calls `serde_json::Error::is_data`: whether the JSON was well formed but
/// its content did not fit the expected type. No contract: the error is
/// not modelled, so the answer is left open.
#[verifier::external_body]
fn json_error_is_data(e: &serde_json::Error) -> bool {
    e.is_data()
}

/// The claims of a verified token that the gateway uses.
pub struct Claims {
    pub role: String,
}

/// Why a token was not accepted.
pub enum JwtError {
    /// The public key is not an EdDSA public key in PEM form.
    KeyCreation,
    /// The token has expired.
    Expired,
    /// The claims do not have the expected content.
    ClaimsData,
    /// The claims could not be read.
    Claims,
    /// The token could not be decoded or its signature is wrong.
    Decode,
}

impl JwtError {
    /// A description of the error.
    pub fn message(&self) -> (m: &'static str)
        ensures
            m@ == match self {
                JwtError::KeyCreation => "failed to create DecodingKey"@,
                JwtError::Expired => "token expired"@,
                JwtError::ClaimsData => "jwt deserialization failed. exp claim may be missing"@,
                JwtError::Claims => "jwt deserialization failed"@,
                JwtError::Decode => "failed to decode jwt"@,
            },
    {
        match self {
            JwtError::KeyCreation => "failed to create DecodingKey",
            JwtError::Expired => "token expired",
            JwtError::ClaimsData => "jwt deserialization failed. exp claim may be missing",
            JwtError::Claims => "jwt deserialization failed",
            JwtError::Decode => "failed to decode jwt",
        }
    }
}

/// What decoding a token came to, as far as verification tells the
/// outcomes apart.
pub enum DecodeOutcome {
    /// The token verified; its `role` claim, when that is a string.
    Claims(Option<String>),
    /// The token's `exp` claim lies in the past.
    Expired,
    /// The claims could not be read as JSON; `is_data` when the JSON was
    /// well formed but its content had the wrong shape.
    Json { is_data: bool },
    /// Any other failure: a malformed token, another algorithm, a wrong
    /// signature, a missing `exp` claim.
    Other,
}

/// The result that verification gives for the decoding outcome `o`.
pub open spec fn spec_jwt_result(o: DecodeOutcome) -> Result<Claims, JwtError> {
    match o {
        DecodeOutcome::Claims(Some(role)) => Ok(Claims { role }),
        DecodeOutcome::Claims(None) => Err(JwtError::ClaimsData),
        DecodeOutcome::Expired => Err(JwtError::Expired),
        DecodeOutcome::Json { is_data } => if is_data {
            Err(JwtError::ClaimsData)
        } else {
            Err(JwtError::Claims)
        },
        DecodeOutcome::Other => Err(JwtError::Decode),
    }
}

/// The result of verification for the decoding outcome `o`: the claims
/// when the token verified with a string `role`, and otherwise the error
/// that names what went wrong.
pub fn jwt_result(o: DecodeOutcome) -> (res: Result<Claims, JwtError>)
    ensures
        res == spec_jwt_result(o),
{
    match o {
        DecodeOutcome::Claims(Some(role)) => Ok(Claims { role }),
        DecodeOutcome::Claims(None) => Err(JwtError::ClaimsData),
        DecodeOutcome::Expired => Err(JwtError::Expired),
        DecodeOutcome::Json { is_data } => if is_data {
            Err(JwtError::ClaimsData)
        } else {
            Err(JwtError::Claims)
        },
        DecodeOutcome::Other => Err(JwtError::Decode),
    }
}

/// Decodes `jwt` with the EdDSA public key `key` and reads its `role`
/// claim.
fn decode_token(jwt: &[u8], key: &[u8]) -> (o: DecodeOutcome)
    requires
        key@.len() >= 32,
    ensures
        o is Claims ==> eddsa_signature_valid(jwt@, key@),
        o matches DecodeOutcome::Claims(r) ==> opt_string_view(r) == token_role(jwt@),
{
    proof {
        reveal_strlit("role");
        assert("role"@ =~= seq!['r', 'o', 'l', 'e']);
    }
    match decode_string_claim(jwt, key, SignatureAlgorithm::EdDSA, "role") {
        Ok(role) => DecodeOutcome::Claims(role),
        Err(e) => match decode_failure(&e) {
            DecodeFailure::Expired => DecodeOutcome::Expired,
            DecodeFailure::Json(s) => DecodeOutcome::Json { is_data: json_error_is_data(&s) },
            DecodeFailure::Other => DecodeOutcome::Other,
        },
    }
}

/// The results that verifying the token `jwt` with the PEM `pem` can have:
/// a PEM that is not an EdDSA public key gives `KeyCreation`, a key of
/// fewer than 32 bytes gives `Decode`; otherwise the result is what
/// [`jwt_result`] makes of some decoding outcome, and claims are only
/// handed out for a token whose signature verifies under the key, with the
/// role that the token's payload holds.
pub open spec fn jwt_outcome_possible(jwt: Seq<u8>, pem: Seq<u8>, res: Result<Claims, JwtError>) -> bool {
    if !ed_pem_accepted(pem) {
        res == Err::<Claims, JwtError>(JwtError::KeyCreation)
    } else if ed_pem_key(pem).len() < 32 {
        res == Err::<Claims, JwtError>(JwtError::Decode)
    } else {
        &&& exists|o: DecodeOutcome| res == #[trigger] spec_jwt_result(o)
        &&& res is Ok ==> eddsa_signature_valid(jwt, ed_pem_key(pem))
        &&& res matches Ok(c) ==> token_role(jwt) == Some(c.role@)
    }
}

/// Validates token signature and expiration.
///
/// A key that is not an EdDSA public key in PEM form is refused before the
/// token is looked at, and so is a key too short to be one; claims without
/// a string `role` are refused as claims of the wrong content.
pub fn verify_jwt(jwt: &[u8], public_key_pem: &[u8]) -> (res: Result<Claims, JwtError>)
    ensures
        jwt_outcome_possible(jwt@, public_key_pem@, res),
{
    let key = match ed_pem_public_key(public_key_pem) {
        Some(k) => k,
        None => return Err(JwtError::KeyCreation),
    };
    if key.len() < 32 {
        return Err(JwtError::Decode);
    }
    let outcome = decode_token(jwt, key.as_slice());
    let ghost o = outcome;
    let res = jwt_result(outcome);
    assert(res == spec_jwt_result(o));
    res
}

} // verus!
