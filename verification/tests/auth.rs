use jsonwebtoken::{encode, Algorithm, EncodingKey, Header};
use warden_core::auth::{bearer_token, AuthError, AuthService, Authorization, RoleError};
use warden_core::config::{
    CacheDesc, ConfigurationDesc, FilterDesc, GlobalDesc, IdentityDesc, LocationDesc,
    PermissionDesc, ProtocolDesc, RoleDesc,
};
use warden_core::jwt::{jwt_result, verify_jwt, DecodeOutcome, JwtError};

/// Seed of the Ed25519 signing key used by these tests.
const SEED: [u8; 32] = [7u8; 32];

/// The Ed25519 public key that belongs to `SEED`.
const PUBLIC_KEY: [u8; 32] = [
    234, 74, 108, 99, 226, 156, 82, 10, 190, 245, 80, 123, 19, 46, 197, 249, 149, 71, 118, 174,
    190, 190, 123, 146, 66, 30, 234, 105, 20, 70, 210, 44,
];

/// The PKCS#8 DER form of the signing key.
fn signing_key_der() -> Vec<u8> {
    let mut der = vec![
        0x30, 0x2e, 0x02, 0x01, 0x00, 0x30, 0x05, 0x06, 0x03, 0x2b, 0x65, 0x70, 0x04, 0x22, 0x04,
        0x20,
    ];
    der.extend_from_slice(&SEED);
    der
}

fn base64(data: &[u8]) -> String {
    const ALPHABET: &[u8] = b"ABCDEFGHIJKLMNOPQRSTUVWXYZabcdefghijklmnopqrstuvwxyz0123456789+/";
    let mut out = String::new();
    for chunk in data.chunks(3) {
        let b = [chunk[0], *chunk.get(1).unwrap_or(&0), *chunk.get(2).unwrap_or(&0)];
        let n = ((b[0] as u32) << 16) | ((b[1] as u32) << 8) | (b[2] as u32);
        for i in 0..4 {
            if i <= chunk.len() {
                out.push(ALPHABET[((n >> (18 - 6 * i)) & 63) as usize] as char);
            } else {
                out.push('=');
            }
        }
    }
    out
}

/// The PEM form of the public key.
fn public_key_pem() -> String {
    let mut der = vec![0x30, 0x2a, 0x30, 0x05, 0x06, 0x03, 0x2b, 0x65, 0x70, 0x03, 0x21, 0x00];
    der.extend_from_slice(&PUBLIC_KEY);
    format!("-----BEGIN {0} KEY-----\n{1}\n-----END {0} KEY-----\n", "PUBLIC", base64(&der))
}

/// A PEM whose EdDSA public key holds only 31 bytes.
fn short_key_pem() -> String {
    let mut der = vec![0x30, 0x29, 0x30, 0x05, 0x06, 0x03, 0x2b, 0x65, 0x70, 0x03, 0x20, 0x00];
    der.extend_from_slice(&PUBLIC_KEY[..31]);
    format!("-----BEGIN {0} KEY-----\n{1}\n-----END {0} KEY-----\n", "PUBLIC", base64(&der))
}

fn token(role: Option<&str>, exp_offset: i64) -> String {
    let mut claims = serde_json::Map::new();
    if let Some(r) = role {
        claims.insert(String::from("role"), serde_json::Value::from(r));
    }
    let exp = jsonwebtoken::get_current_timestamp() as i64 + exp_offset;
    claims.insert(String::from("exp"), serde_json::Value::from(exp));
    let key = EncodingKey::from_ed_der(&signing_key_der());
    encode(&Header::new(Algorithm::EdDSA), &serde_json::Value::Object(claims), &key).unwrap()
}

fn bearer(t: &str) -> Vec<u8> {
    format!("Bearer {t}").into_bytes()
}

fn permission(filter: FilterDesc, roles: &[&str]) -> PermissionDesc {
    PermissionDesc { filter, roles: roles.iter().map(|r| r.to_string()).collect() }
}

fn auth_config(filter: FilterDesc, roles: &[&str], secret: Option<&str>) -> ConfigurationDesc {
    let mut role_descs = vec![];
    if let Some(s) = secret {
        role_descs.push((
            String::from("default"),
            RoleDesc { identity: vec![IdentityDesc::Jwt { secret: String::from(s) }] },
        ));
    }
    ConfigurationDesc {
        host: String::from("127.0.0.1"),
        port: 443,
        tls: None,
        global: GlobalDesc { throttle: None, header_size_max: None, connection_concurrent_requests_max: None },
        handlers: vec![(
            String::from("/dyn"),
            LocationDesc {
                protocol: ProtocolDesc::Html,
                path: String::from("./dynamic.html"),
                cache: CacheDesc::NoCache,
                permission: permission(filter, roles),
            },
        )],
        roles: role_descs,
    }
}

#[test]
fn decide_allow_and_block_filters() {
    let allow = permission(FilterDesc::Allow, &["admin"]);
    let block = permission(FilterDesc::Block, &["banned"]);
    let admin = String::from("admin");
    let banned = String::from("banned");
    assert!(matches!(AuthService::decide(&allow, Some(&admin)), Authorization::Allowed));
    assert!(matches!(AuthService::decide(&allow, Some(&banned)), Authorization::Blocked));
    assert!(matches!(AuthService::decide(&allow, None), Authorization::Blocked));
    assert!(matches!(AuthService::decide(&block, Some(&admin)), Authorization::Allowed));
    assert!(matches!(AuthService::decide(&block, Some(&banned)), Authorization::Blocked));
    assert!(matches!(AuthService::decide(&block, None), Authorization::Blocked));
}

#[test]
fn verify_jwt_accepts_valid_token() {
    let t = token(Some("admin"), 3600);
    let claims = verify_jwt(t.as_bytes(), public_key_pem().as_bytes()).ok().unwrap();
    assert_eq!(claims.role, "admin");
}

#[test]
fn verify_jwt_errors() {
    let t = token(Some("admin"), 3600);
    assert!(matches!(verify_jwt(t.as_bytes(), b"not a key"), Err(JwtError::KeyCreation)));
    assert!(matches!(verify_jwt(b"garbage", public_key_pem().as_bytes()), Err(JwtError::Decode)));
    let expired = token(Some("admin"), -3600);
    assert!(matches!(verify_jwt(expired.as_bytes(), public_key_pem().as_bytes()), Err(JwtError::Expired)));
    let no_role = token(None, 3600);
    assert!(matches!(verify_jwt(no_role.as_bytes(), public_key_pem().as_bytes()), Err(JwtError::ClaimsData)));
    assert_eq!(JwtError::Expired.message(), "token expired");
}

#[test]
fn parse_role_reads_bearer_token() {
    let c = auth_config(FilterDesc::Allow, &["admin"], Some(public_key_pem().as_str()));
    let h = bearer(&token(Some("admin"), 3600));
    assert_eq!(AuthService::parse_role(&c, Some(&h)).ok(), Some(String::from("admin")));
    assert!(matches!(AuthService::parse_role(&c, None), Err(RoleError::NoAuthHeader)));
    let c = auth_config(FilterDesc::Allow, &["admin"], None);
    assert!(matches!(AuthService::parse_role(&c, Some(&h)), Err(RoleError::NoSecret)));
    let c = auth_config(FilterDesc::Allow, &["admin"], Some("bad key"));
    assert!(matches!(AuthService::parse_role(&c, Some(&h)), Err(RoleError::Jwt(JwtError::KeyCreation))));
}

#[test]
fn verify_request_by_permission() {
    let admin = bearer(&token(Some("admin"), 3600));
    let guest = bearer(&token(Some("guest"), 3600));
    let c = auth_config(FilterDesc::Allow, &["admin"], Some(public_key_pem().as_str()));
    assert!(matches!(AuthService::verify_request(&c, "/dyn", Some(&admin)), Ok(Authorization::Allowed)));
    assert!(matches!(AuthService::verify_request(&c, "/dyn/", Some(&admin)), Ok(Authorization::Allowed)));
    assert!(matches!(AuthService::verify_request(&c, "/dyn", Some(&guest)), Ok(Authorization::Blocked)));
    assert!(matches!(AuthService::verify_request(&c, "/dyn", None), Ok(Authorization::Blocked)));
    assert!(matches!(AuthService::verify_request(&c, "/open", None), Ok(Authorization::Allowed)));
    let c = auth_config(FilterDesc::Block, &["admin"], Some(public_key_pem().as_str()));
    assert!(matches!(AuthService::verify_request(&c, "/dyn", Some(&admin)), Ok(Authorization::Blocked)));
    assert!(matches!(AuthService::verify_request(&c, "/dyn", Some(&guest)), Ok(Authorization::Allowed)));
    assert!(matches!(AuthService::verify_request(&c, "/dyn", None), Ok(Authorization::Blocked)));
    let bad = bearer("not-a-token");
    assert!(matches!(AuthService::verify_request(&c, "/dyn", Some(&bad)), Ok(Authorization::Blocked)));
}

#[test]
fn handle_request_answers_401_when_blocked() {
    let c = auth_config(FilterDesc::Allow, &["admin"], Some(public_key_pem().as_str()));
    assert_eq!(AuthService::handle_request(&c, "/dyn", None, 7u8), Err(401));
    assert_eq!(AuthService::handle_request(&c, "/else", None, 7u8), Ok(7u8));
    let admin = bearer(&token(Some("admin"), 3600));
    assert_eq!(AuthService::handle_request(&c, "/dyn", Some(&admin), 7u8), Ok(7u8));
}

#[test]
fn authorization_default_is_allowed() {
    assert!(matches!(Authorization::default(), Authorization::Allowed));
}

#[test]
fn jwt_result_maps_each_outcome() {
    let ok = jwt_result(DecodeOutcome::Claims(Some(String::from("admin"))));
    assert_eq!(ok.ok().map(|c| c.role), Some(String::from("admin")));
    assert!(matches!(jwt_result(DecodeOutcome::Claims(None)), Err(JwtError::ClaimsData)));
    assert!(matches!(jwt_result(DecodeOutcome::Expired), Err(JwtError::Expired)));
    assert!(matches!(jwt_result(DecodeOutcome::Json { is_data: true }), Err(JwtError::ClaimsData)));
    assert!(matches!(jwt_result(DecodeOutcome::Json { is_data: false }), Err(JwtError::Claims)));
    assert!(matches!(jwt_result(DecodeOutcome::Other), Err(JwtError::Decode)));
}

#[test]
fn verify_jwt_refuses_short_key_and_foreign_signature() {
    let t = token(Some("admin"), 3600);
    assert!(matches!(verify_jwt(t.as_bytes(), short_key_pem().as_bytes()), Err(JwtError::Decode)));
    let mut tampered = t.clone().into_bytes();
    let last = tampered.len() - 2;
    tampered[last] = if tampered[last] == b'A' { b'B' } else { b'A' };
    assert!(matches!(verify_jwt(&tampered, public_key_pem().as_bytes()), Err(JwtError::Decode)));
}

#[test]
fn bearer_token_skips_prefix() {
    assert_eq!(bearer_token(b"Bearer abc"), b"abc");
    assert_eq!(bearer_token(b"Bearer "), b"");
}

#[test]
fn parse_role_uses_the_token_after_the_prefix() {
    let c = auth_config(FilterDesc::Allow, &["admin"], Some(public_key_pem().as_str()));
    let raw = token(Some("admin"), 3600).into_bytes();
    assert!(matches!(AuthService::parse_role(&c, Some(&raw)), Err(RoleError::Jwt(JwtError::Decode))));
    let c = auth_config(FilterDesc::Allow, &["admin"], Some(short_key_pem().as_str()));
    let h = bearer(&token(Some("admin"), 3600));
    assert!(matches!(AuthService::parse_role(&c, Some(&h)), Err(RoleError::Jwt(JwtError::Decode))));
}

#[test]
fn decide_for_uses_role_outcome() {
    let allow = permission(FilterDesc::Allow, &["admin"]);
    let block = permission(FilterDesc::Block, &["admin"]);
    let admin: Result<String, RoleError> = Ok(String::from("admin"));
    let guest: Result<String, RoleError> = Ok(String::from("guest"));
    let failed: Result<String, RoleError> = Err(RoleError::Jwt(JwtError::Expired));
    assert!(matches!(AuthService::decide_for(&allow, &admin), Authorization::Allowed));
    assert!(matches!(AuthService::decide_for(&allow, &guest), Authorization::Blocked));
    assert!(matches!(AuthService::decide_for(&allow, &failed), Authorization::Blocked));
    assert!(matches!(AuthService::decide_for(&block, &admin), Authorization::Blocked));
    assert!(matches!(AuthService::decide_for(&block, &guest), Authorization::Allowed));
    assert!(matches!(AuthService::decide_for(&block, &failed), Authorization::Blocked));
}

#[test]
fn decide_request_exposes_role_outcome() {
    let c = auth_config(FilterDesc::Allow, &["admin"], Some(public_key_pem().as_str()));
    let admin = bearer(&token(Some("admin"), 3600));
    let (d, role) = AuthService::decide_request(&c, "/dyn", Some(&admin));
    assert!(matches!(d, Ok(Authorization::Allowed)));
    assert_eq!(role.unwrap().ok(), Some(String::from("admin")));
    let (d, role) = AuthService::decide_request(&c, "/open", Some(&admin));
    assert!(matches!(d, Ok(Authorization::Allowed)));
    assert!(role.is_none());
    let (d, role) = AuthService::decide_request(&c, "/dyn", None);
    assert!(matches!(d, Ok(Authorization::Blocked)));
    assert!(matches!(role, Some(Err(RoleError::NoAuthHeader))));
}

#[test]
fn respond_follows_decision() {
    assert_eq!(AuthService::respond(Ok(Authorization::Allowed), 3u8), Ok(3u8));
    assert_eq!(AuthService::respond(Ok(Authorization::Blocked), 3u8), Err(401));
    assert_eq!(AuthService::respond(Err(AuthError::Unverifiable), 3u8), Err(500));
}

#[test]
fn verify_jwt_hands_back_the_token_role() {
    let t = token(Some("operator"), 3600);
    let claims = verify_jwt(t.as_bytes(), public_key_pem().as_bytes()).ok().unwrap();
    assert_eq!(claims.role, "operator");
    let c = auth_config(FilterDesc::Allow, &["admin"], Some(public_key_pem().as_str()));
    let h = bearer(&t);
    assert_eq!(AuthService::parse_role(&c, Some(&h)).ok(), Some(String::from("operator")));
}
