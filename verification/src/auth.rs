//! Authorization of requests against the permissions of their handler.
use vstd::prelude::*;

use crate::config::{first_key_index, ConfigurationDesc, FilterDesc, PermissionDesc};
use crate::jwt::{jwt_outcome_possible, verify_jwt, Claims, JwtError};
use crate::route::string_views;
use crate::jwt::{ed_pem_accepted, ed_pem_key, eddsa_signature_valid, token_role};
use crate::utils::{path, spec_path, INTERNAL_SERVER_ERROR, UNAUTHORIZED};
use vstd::utf8::encode_utf8;

verus! {

pub enum Authorization {
    Allowed,
    Blocked,
}

impl Default for Authorization {
    fn default() -> (a: Self)
        ensures
            a == Authorization::Allowed,
    {
        Authorization::Allowed
    }
}

/// Errors of request verification.
pub enum AuthError {
    /// The request could not be verified.
    Unverifiable,
}

/// Why the role of a request could not be found.
pub enum RoleError {
    /// The request has no `Authorization` header.
    NoAuthHeader,
    /// The configuration has no JWT secret for the role `default`.
    NoSecret,
    /// The token was not accepted.
    Jwt(JwtError),
}

/// The decision for a request to a handler with the permission of filter
/// `filter` over the roles `roles`, made by a caller of role `role`
/// (`None` when the role could not be found): an allow filter admits exactly
/// the listed roles, a block filter admits exactly the unlisted ones, and a
/// caller without a role is blocked.
pub open spec fn spec_decide(filter: FilterDesc, roles: Seq<Seq<char>>, role: Option<Seq<char>>) -> Authorization {
    match role {
        None => Authorization::Blocked,
        Some(r) => match filter {
            FilterDesc::Allow => if roles.contains(r) {
                Authorization::Allowed
            } else {
                Authorization::Blocked
            },
            FilterDesc::Block => if roles.contains(r) {
                Authorization::Blocked
            } else {
                Authorization::Allowed
            },
        },
    }
}

/// The secret of the first JWT identity of the role named `default`.
pub open spec fn spec_default_secret(config: ConfigurationDesc) -> Option<Seq<char>> {
    match first_key_index(config.roles@, seq!['d', 'e', 'f', 'a', 'u', 'l', 't']) {
        Some(i) => if config.roles@[i].1.identity@.len() > 0 {
            Some(crate::config::identity_secret(config.roles@[i].1.identity@[0]))
        } else {
            None
        },
        None => None,
    }
}

/// The permission of the handler that the request path `uri_path` reaches.
pub open spec fn spec_permission(config: ConfigurationDesc, uri_path: &str) -> Option<PermissionDesc> {
    match first_key_index(config.handlers@, spec_path(uri_path)) {
        Some(i) => Some(config.handlers@[i].1.permission),
        None => None,
    }
}

/// The bytes of an optional header.
pub open spec fn header_view(header: Option<&[u8]>) -> Option<Seq<u8>> {
    match header {
        Some(h) => Some(h@),
        None => None,
    }
}

/// The token of the `Authorization` header `h`: what follows its first
/// seven bytes (`Bearer `).
pub open spec fn spec_bearer_token(h: Seq<u8>) -> Seq<u8> {
    h.subrange(7, h.len() as int)
}

/// The outcomes that looking up the role of a request with the
/// `Authorization` header `header` can have: no header and no secret are
/// errors of their own; otherwise the header's bearer token is verified
/// with the UTF-8 bytes of the secret of the role `default` as the PEM key,
/// and the outcome is what that verification can give: on success, the
/// `role` member of the token's payload.
pub open spec fn role_outcome_possible(
    config: ConfigurationDesc,
    header: Option<Seq<u8>>,
    pr: Result<String, RoleError>,
) -> bool {
    match header {
        None => pr == Err::<String, RoleError>(RoleError::NoAuthHeader),
        Some(h) => match spec_default_secret(config) {
            None => pr == Err::<String, RoleError>(RoleError::NoSecret),
            Some(s) => match pr {
                Ok(r) => jwt_outcome_possible(
                    spec_bearer_token(h),
                    encode_utf8(s),
                    Ok(Claims { role: r }),
                ),
                Err(RoleError::Jwt(e)) => jwt_outcome_possible(
                    spec_bearer_token(h),
                    encode_utf8(s),
                    Err(e),
                ),
                Err(_) => false,
            },
        },
    }
}

/// The decision for a caller whose role lookup came to `pr` at a handler
/// with permission `p`: a lookup that failed counts as no role.
pub open spec fn spec_decide_for(p: PermissionDesc, pr: Result<String, RoleError>) -> Authorization {
    spec_decide(
        p.filter,
        string_views(p.roles@),
        match pr {
            Ok(r) => Some(r@),
            Err(_) => None,
        },
    )
}

/// What is done with a request given the decision `decision`: an allowed
/// request goes on, a blocked one is answered with 401, and one that could
/// not be verified with 500.
pub open spec fn spec_respond<R>(decision: Result<Authorization, AuthError>, request: R) -> Result<R, u16> {
    match decision {
        Ok(Authorization::Allowed) => Ok(request),
        Ok(Authorization::Blocked) => Err(UNAUTHORIZED),
        Err(_) => Err(INTERNAL_SERVER_ERROR),
    }
}

/// The token of the `Authorization` header `h`: the bytes after `Bearer `.
pub fn bearer_token(h: &[u8]) -> (t: &[u8])
    requires
        h@.len() >= 7,
    ensures
        t@ == spec_bearer_token(h@),
{
    &h[7..h.len()]
}

/// Whether `v` is one of `roles`.
fn contains_role(roles: &Vec<String>, v: &String) -> (b: bool)
    ensures
        b == string_views(roles@).contains(v@),
{
    let mut i: usize = 0;
    while i < roles.len()
        invariant
            0 <= i <= roles.len(),
            forall|j: int| 0 <= j < i ==> (#[trigger] roles@[j])@ != v@,
        decreases roles.len() - i,
    {
        if roles[i] == *v {
            assert(string_views(roles@)[i as int] == v@);
            return true;
        }
        i += 1;
    }
    proof {
        if string_views(roles@).contains(v@) {
            let j = choose|j: int| 0 <= j < string_views(roles@).len() && string_views(roles@)[j] == v@;
            assert(roles@[j]@ == v@);
        }
    }
    false
}

pub struct AuthService;

impl AuthService {
    /// The decision for a caller of role `role` (`None` when it could not be
    /// found) at a handler with permission `permission`.
    pub fn decide(permission: &PermissionDesc, role: Option<&String>) -> (a: Authorization)
        ensures
            a == spec_decide(
                permission.filter,
                string_views(permission.roles@),
                match role {
                    Some(r) => Some(r@),
                    None => None,
                },
            ),
    {
        match role {
            None => Authorization::Blocked,
            Some(r) => {
                let listed = contains_role(&permission.roles, r);
                match permission.filter {
                    FilterDesc::Allow => if listed {
                        Authorization::Allowed
                    } else {
                        Authorization::Blocked
                    },
                    FilterDesc::Block => if listed {
                        Authorization::Blocked
                    } else {
                        Authorization::Allowed
                    },
                }
            },
        }
    }

    /// The decision for a caller whose role lookup came to `role` at a
    /// handler with permission `permission`.
    pub fn decide_for(permission: &PermissionDesc, role: &Result<String, RoleError>) -> (a: Authorization)
        ensures
            a == spec_decide_for(*permission, *role),
    {
        match role {
            Ok(r) => Self::decide(permission, Some(r)),
            Err(_) => Self::decide(permission, None),
        }
    }

    /// The role claimed by the bearer token of the `Authorization` header
    /// `header` (its first 7 bytes, `Bearer `, are skipped), verified with
    /// the secret of the role `default` as the PEM public key.
    pub fn parse_role(config: &ConfigurationDesc, header: Option<&[u8]>) -> (res: Result<String, RoleError>)
        requires
            header matches Some(h) ==> h@.len() >= 7,
        ensures
            role_outcome_possible(*config, header_view(header), res),
            res matches Err(RoleError::NoAuthHeader) <==> header is None,
            res matches Err(RoleError::NoSecret) <==> header is Some && spec_default_secret(*config) is None,
            res matches Err(RoleError::Jwt(JwtError::KeyCreation)) <==> (header is Some && match spec_default_secret(*config) {
                Some(s) => !ed_pem_accepted(encode_utf8(s)),
                None => false,
            }),
            (header is Some && match spec_default_secret(*config) {
                Some(s) => ed_pem_accepted(encode_utf8(s)) && ed_pem_key(encode_utf8(s)).len() < 32,
                None => false,
            }) ==> res matches Err(RoleError::Jwt(JwtError::Decode)),
            res matches Ok(r) ==> header matches Some(h) && spec_default_secret(*config) matches Some(s)
                && eddsa_signature_valid(spec_bearer_token(h@), ed_pem_key(encode_utf8(s)))
                && token_role(spec_bearer_token(h@)) == Some(r@),
    {
        match header {
            None => Err(RoleError::NoAuthHeader),
            Some(h) => {
                let token = bearer_token(h);
                match config.default_jwt_secret() {
                    None => Err(RoleError::NoSecret),
                    Some(secret) => {
                        let pem = secret.as_str().as_bytes();
                        let v = verify_jwt(token, pem);
                        match v {
                            Ok(claims) => Ok(claims.role),
                            Err(e) => Err(RoleError::Jwt(e)),
                        }
                    },
                }
            },
        }
    }

    /// The decision for a request to `uri_path` with the `Authorization`
    /// header `header`, together with the outcome of the role lookup that it
    /// rests on (`None` where the path has no handler, so that no role is
    /// looked up).
    pub fn decide_request(config: &ConfigurationDesc, uri_path: &str, header: Option<&[u8]>) -> (res: (
        Result<Authorization, AuthError>,
        Option<Result<String, RoleError>>,
    ))
        requires
            spec_permission(*config, uri_path) is Some ==> (header matches Some(h) ==> h@.len() >= 7),
        ensures
            match spec_permission(*config, uri_path) {
                None => res == (
                    Ok::<Authorization, AuthError>(Authorization::Allowed),
                    None::<Result<String, RoleError>>,
                ),
                Some(p) => res.1 matches Some(pr) && role_outcome_possible(*config, header_view(header), pr)
                    && res.0 == Ok::<Authorization, AuthError>(spec_decide_for(p, pr)),
            },
    {
        let p = path(uri_path);
        match config.handler(p) {
            Some(h) => {
                let role = Self::parse_role(config, header);
                let a = Self::decide_for(&h.permission, &role);
                (Ok(a), Some(role))
            },
            None => (Ok(Authorization::default()), None),
        }
    }

    /// Whether the request to `uri_path` with the `Authorization` header
    /// `header` may proceed. A path without a handler is open; at a handler,
    /// the caller's role decides by the handler's permission, and a caller
    /// whose role cannot be found is blocked.
    pub fn verify_request(config: &ConfigurationDesc, uri_path: &str, header: Option<&[u8]>) -> (res: Result<Authorization, AuthError>)
        requires
            spec_permission(*config, uri_path) is Some ==> (header matches Some(h) ==> h@.len() >= 7),
        ensures
            match spec_permission(*config, uri_path) {
                None => res == Ok::<Authorization, AuthError>(Authorization::Allowed),
                Some(p) => exists|pr: Result<String, RoleError>|
                    #[trigger] role_outcome_possible(*config, header_view(header), pr) && res == Ok::<
                        Authorization,
                        AuthError,
                    >(spec_decide_for(p, pr)),
            },
            spec_permission(*config, uri_path) is Some && (header is None || spec_default_secret(*config) is None)
                ==> res == Ok::<Authorization, AuthError>(Authorization::Blocked),
    {
        let (decision, _role) = Self::decide_request(config, uri_path, header);
        decision
    }

    /// What is done with a request given the decision `decision`: it goes
    /// on when allowed; otherwise the status of the response to send back
    /// is given (401 when blocked, 500 when it could not be verified).
    pub fn respond<R>(decision: Result<Authorization, AuthError>, request: R) -> (res: Result<R, u16>)
        ensures
            res == spec_respond(decision, request),
    {
        match decision {
            Ok(Authorization::Allowed) => Ok(request),
            Ok(Authorization::Blocked) => Err(UNAUTHORIZED),
            Err(_) => Err(INTERNAL_SERVER_ERROR),
        }
    }

    /// Lets the request through when it is authorized; otherwise answers
    /// with the status of the response to send back (401 when blocked, 500
    /// when the request could not be verified).
    pub fn handle_request<R>(config: &ConfigurationDesc, uri_path: &str, header: Option<&[u8]>, request: R) -> (res: Result<R, u16>)
        requires
            spec_permission(*config, uri_path) is Some ==> (header matches Some(h) ==> h@.len() >= 7),
        ensures
            match spec_permission(*config, uri_path) {
                None => res == Ok::<R, u16>(request),
                Some(p) => exists|pr: Result<String, RoleError>|
                    #[trigger] role_outcome_possible(*config, header_view(header), pr) && res
                        == spec_respond(Ok::<Authorization, AuthError>(spec_decide_for(p, pr)), request),
            },
            spec_permission(*config, uri_path) is Some && (header is None || spec_default_secret(*config) is None)
                ==> res == Err::<R, u16>(UNAUTHORIZED),
    {
        let decision = Self::verify_request(config, uri_path, header);
        Self::respond(decision, request)
    }
}

/// At a handler with an allow filter, a request is allowed only when the
/// `role` member of its bearer token's payload is one of the listed roles.
pub proof fn law_allowed_only_with_listed_token_role(
    config: ConfigurationDesc,
    header: Seq<u8>,
    p: PermissionDesc,
    pr: Result<String, RoleError>,
)
    requires
        role_outcome_possible(config, Some(header), pr),
        p.filter == FilterDesc::Allow,
        spec_decide_for(p, pr) == Authorization::Allowed,
    ensures
        match token_role(spec_bearer_token(header)) {
            Some(r) => string_views(p.roles@).contains(r),
            None => false,
        },
{
}

/// How the two filters decide, by membership anywhere in the list: an
/// allow list admits exactly the roles it holds, a block list blocks exactly
/// the roles it holds, and a caller without a role is blocked by either.
/// In particular the order of the listed roles does not matter.
pub proof fn law_filters_decide_by_membership(roles: Seq<Seq<char>>, r: Seq<char>, other: Seq<Seq<char>>)
    ensures
        roles.contains(r) ==> spec_decide(FilterDesc::Block, roles, Some(r)) == Authorization::Blocked,
        !roles.contains(r) ==> spec_decide(FilterDesc::Block, roles, Some(r)) == Authorization::Allowed,
        roles.contains(r) ==> spec_decide(FilterDesc::Allow, roles, Some(r)) == Authorization::Allowed,
        !roles.contains(r) ==> spec_decide(FilterDesc::Allow, roles, Some(r)) == Authorization::Blocked,
        spec_decide(FilterDesc::Allow, roles, None) == Authorization::Blocked,
        spec_decide(FilterDesc::Block, roles, None) == Authorization::Blocked,
        roles.to_multiset() == other.to_multiset() ==> spec_decide(FilterDesc::Block, roles, Some(r))
            == spec_decide(FilterDesc::Block, other, Some(r)) && spec_decide(FilterDesc::Allow, roles, Some(r))
            == spec_decide(FilterDesc::Allow, other, Some(r)),
{
    if roles.to_multiset() == other.to_multiset() {
        roles.to_multiset_ensures();
        other.to_multiset_ensures();
        assert(roles.contains(r) <==> roles.to_multiset().count(r) > 0);
        assert(other.contains(r) <==> other.to_multiset().count(r) > 0);
    }
}

} // verus!
