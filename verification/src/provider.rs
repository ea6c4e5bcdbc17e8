//! A fixed authorization rule set: public paths and known users.
use vstd::prelude::*;

use crate::auth::Authorization;
use crate::route::string_views;
use crate::utils::{path, spec_path};

verus! {

/// Calls `String::from_utf8` on a copy of the bytes: it succeeds exactly
/// when the bytes are valid UTF-8, and then holds the characters they encode.
#[verifier::external_body]
fn utf8_string(bytes: &[u8]) -> (res: Option<String>)
    ensures
        res is Some <==> vstd::utf8::valid_utf8(bytes@),
        res matches Some(s) ==> s@ == vstd::utf8::decode_utf8(bytes@),
{
    String::from_utf8(bytes.to_vec()).ok()
}

/// The header that names the user of a request.
pub const USER_HEADER: &'static str = "x-warden-user";

/// Paths that anyone may reach.
pub open spec fn is_public_path(p: Seq<char>) -> bool {
    ||| p == "/favicon.ico"@
    ||| p == "/status"@
    ||| p == "/dynamic"@
    ||| p == "/dyn"@
    ||| p == Seq::<char>::empty()
}

/// Errors of the fixed rule set.
pub enum ProviderError {
    /// The path is known to be bad.
    BadRoute,
    /// The user header is not valid UTF-8.
    InvalidUser,
}

pub struct DefaultAuthProvider;

impl DefaultAuthProvider {
    /// The decision for a request to `uri_path` whose user header holds
    /// `user`: public paths are allowed, `/bad-route` is an error, a header
    /// that is not UTF-8 is an error, and every other request is blocked.
    pub fn verify_request(uri_path: &str, user: Option<&[u8]>) -> (res: Result<Authorization, ProviderError>)
        ensures
            is_public_path(spec_path(uri_path)) ==> res == Ok::<Authorization, ProviderError>(
                Authorization::Allowed,
            ),
            spec_path(uri_path) == "/bad-route"@ ==> res matches Err(ProviderError::BadRoute),
            !is_public_path(spec_path(uri_path)) && spec_path(uri_path) != "/bad-route"@ ==> match user {
                None => res == Ok::<Authorization, ProviderError>(Authorization::Blocked),
                Some(u) => if vstd::utf8::valid_utf8(u@) {
                    res == Ok::<Authorization, ProviderError>(Authorization::Blocked)
                } else {
                    res matches Err(ProviderError::InvalidUser)
                },
            },
    {
        let p = path(uri_path).to_owned();
        proof {
            reveal_strlit("/bad-route");
            reveal_strlit("/favicon.ico");
            reveal_strlit("/status");
            reveal_strlit("/dynamic");
            reveal_strlit("/dyn");
            reveal_strlit("");
            assert("/favicon.ico"@[1] != "/bad-route"@[1]);
            assert("/status"@[1] != "/bad-route"@[1]);
            assert("/dynamic"@ != "/bad-route"@);
            assert("/dyn"@ != "/bad-route"@);
            assert(Seq::<char>::empty().len() != "/bad-route"@.len());
            assert(""@ =~= Seq::<char>::empty());
        }
        if p == "/favicon.ico".to_owned() || p == "/status".to_owned() || p == "/dynamic".to_owned()
            || p == "/dyn".to_owned() || p == "".to_owned() {
            return Ok(Authorization::Allowed);
        }
        if p == "/bad-route".to_owned() {
            assert(!is_public_path(p@));
            return Err(ProviderError::BadRoute);
        }
        match user {
            None => Ok(Authorization::Blocked),
            Some(bytes) => match utf8_string(bytes) {
                None => Err(ProviderError::InvalidUser),
                Some(_name) => Ok(Authorization::Blocked),
            },
        }
    }
}

/// The metadata of a role: its name and keys.
pub struct RoleMetadata {
    pub name: String,
    pub keys: Vec<String>,
}

pub enum Ruleset {
    AllowList(Vec<String>),
    BlockList(Vec<String>),
}

impl Ruleset {
    /// Whether `key` passes: an allow list admits its keys, a block list
    /// admits every key it does not hold.
    pub fn is_allowed(&self, key: &str) -> (b: bool)
        ensures
            b == match self {
                Ruleset::AllowList(l) => string_views(l@).contains(key@),
                Ruleset::BlockList(l) => !string_views(l@).contains(key@),
            },
    {
        let k = key.to_owned();
        match self {
            Ruleset::AllowList(l) => contains_key(l, &k),
            Ruleset::BlockList(l) => !contains_key(l, &k),
        }
    }
}

/// Whether `v` is one of `keys`.
fn contains_key(keys: &Vec<String>, v: &String) -> (b: bool)
    ensures
        b == string_views(keys@).contains(v@),
{
    let mut i: usize = 0;
    while i < keys.len()
        invariant
            0 <= i <= keys.len(),
            forall|j: int| 0 <= j < i ==> (#[trigger] keys@[j])@ != v@,
        decreases keys.len() - i,
    {
        if keys[i] == *v {
            assert(string_views(keys@)[i as int] == v@);
            return true;
        }
        i += 1;
    }
    proof {
        if string_views(keys@).contains(v@) {
            let j = choose|j: int| 0 <= j < string_views(keys@).len() && string_views(keys@)[j] == v@;
            assert(keys@[j]@ == v@);
        }
    }
    false
}

} // verus!
