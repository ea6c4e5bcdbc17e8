//! The gateway's configuration and the rules that turn it into handlers.
use vstd::prelude::*;

use std::str::FromStr;

use crate::text::chars_of;
use crate::text::string_of;

verus! {

pub enum ProtocolDesc {
    Html,
    Http,
    Https,
}

pub enum IdentityDesc {
    Jwt { secret: String },
}

pub struct RoleDesc {
    pub identity: Vec<IdentityDesc>,
}

pub enum FilterDesc {
    Allow,
    Block,
}

pub struct PermissionDesc {
    pub filter: FilterDesc,
    pub roles: Vec<String>,
}

pub enum CacheDesc {
    NoCache,
    Static,
}

/// A handler of the configuration: where its content comes from and who
/// may reach it.
pub struct LocationDesc {
    pub protocol: ProtocolDesc,
    pub path: String,
    pub cache: CacheDesc,
    pub permission: PermissionDesc,
}

/// TLS certificate chain and private key files.
pub struct TlsDesc {
    pub certs: String,
    pub key: String,
}

/// Bandwidth limit of each connection, in bytes per second.
pub struct ThrottleDesc {
    pub bandwidth_limit: i64,
}

/// Settings that apply to every connection.
pub struct GlobalDesc {
    pub throttle: Option<ThrottleDesc>,
    pub header_size_max: Option<u32>,
    pub connection_concurrent_requests_max: Option<u32>,
}

pub struct ConfigurationDesc {
    pub host: String,
    pub port: u16,
    pub tls: Option<TlsDesc>,
    pub global: GlobalDesc,
    /// The handlers, keyed by route text. Where a key occurs more than once,
    /// the first entry is the one that lookups and routing use.
    pub handlers: Vec<(String, LocationDesc)>,
    /// The roles, keyed by name; where a name occurs more than once, the
    /// first entry is the one used.
    pub roles: Vec<(String, RoleDesc)>,
}

/// How the content of a handler is produced.
pub enum SourceKind {
    /// The file is read once, when the configuration is loaded.
    StaticHtml,
    /// The file is read for each request.
    DynamicHtml,
    /// Requests are forwarded over HTTP/1.
    Http,
    /// Requests are forwarded over HTTP/2 with TLS.
    Https,
}

/// The largest static HTML file, in bytes, that a handler may serve.
pub const MAX_STATIC_HTML_FILE_SIZE: u64 = 16777216;

/// Default largest size of the request headers, in bytes.
pub const DEFAULT_HEADER_SIZE_MAX: u32 = 8192;

/// Default largest number of concurrent requests on one connection: at least
/// 100 as recommended in the HTTP/2 RFC.
pub const DEFAULT_CONNECTION_CONCURRENT_REQUESTS_MAX: u32 = 200;

/// Errors found while loading a configuration.
pub enum ConfigError {
    /// A static HTML file is larger than [`MAX_STATIC_HTML_FILE_SIZE`].
    FileTooLarge,
    /// The path of an upstream handler is not a valid URI.
    InvalidUri,
}

/// Whether `http::Uri::from_str` accepts the text `s`.
pub uninterp spec fn uri_accepted(s: Seq<char>) -> bool;

/// Calls `http::Uri::from_str`, which `str::parse` uses, and tells whether
/// it succeeded, which is taken to depend on the text alone
/// (`uri_accepted`).
#[verifier::external_body]
fn uri_valid(s: &str) -> (b: bool)
    ensures
        b == uri_accepted(s@),
{
    http::Uri::from_str(s).is_ok()
}

/// The URI text of the upstream that a handler with the path text `path`
/// forwards to, checked to be a valid URI; a text that is not one is
/// refused.
pub fn upstream_uri(path: &str) -> (res: Result<String, ConfigError>)
    ensures
        res is Ok <==> uri_accepted(path@),
        res matches Ok(t) ==> t@ == path@,
        res is Err ==> res matches Err(ConfigError::InvalidUri),
{
    if uri_valid(path) {
        Ok(path.to_owned())
    } else {
        Err(ConfigError::InvalidUri)
    }
}

pub open spec fn spec_source_kind(protocol: ProtocolDesc, cache: CacheDesc) -> SourceKind {
    match protocol {
        ProtocolDesc::Html => match cache {
            CacheDesc::NoCache => SourceKind::DynamicHtml,
            CacheDesc::Static => SourceKind::StaticHtml,
        },
        ProtocolDesc::Http => SourceKind::Http,
        ProtocolDesc::Https => SourceKind::Https,
    }
}

impl LocationDesc {
    /// How this handler's content is produced: HTML is read once when it is
    /// cached statically and for each request otherwise; HTTP and HTTPS
    /// handlers forward requests.
    pub fn source_kind(&self) -> (k: SourceKind)
        ensures
            k == spec_source_kind(self.protocol, self.cache),
    {
        match self.protocol {
            ProtocolDesc::Html => match self.cache {
                CacheDesc::NoCache => SourceKind::DynamicHtml,
                CacheDesc::Static => SourceKind::StaticHtml,
            },
            ProtocolDesc::Http => SourceKind::Http,
            ProtocolDesc::Https => SourceKind::Https,
        }
    }
}

/// A static HTML file of `len` bytes may be served unless it is larger than
/// [`MAX_STATIC_HTML_FILE_SIZE`].
pub fn check_static_html_size(len: u64) -> (res: Result<(), ConfigError>)
    ensures
        res is Ok <==> len <= MAX_STATIC_HTML_FILE_SIZE,
        res is Err ==> res matches Err(ConfigError::FileTooLarge),
{
    if len > MAX_STATIC_HTML_FILE_SIZE {
        Err(ConfigError::FileTooLarge)
    } else {
        Ok(())
    }
}

impl GlobalDesc {
    /// The largest request header size: the configured one, else the default.
    pub fn header_size_max_or_default(&self) -> (n: u32)
        ensures
            n == match self.header_size_max {
                Some(v) => v,
                None => DEFAULT_HEADER_SIZE_MAX,
            },
    {
        match self.header_size_max {
            Some(v) => v,
            None => DEFAULT_HEADER_SIZE_MAX,
        }
    }

    /// The largest number of concurrent requests of a connection: the
    /// configured one, else the default.
    pub fn connection_concurrent_requests_max_or_default(&self) -> (n: u32)
        ensures
            n == match self.connection_concurrent_requests_max {
                Some(v) => v,
                None => DEFAULT_CONNECTION_CONCURRENT_REQUESTS_MAX,
            },
    {
        match self.connection_concurrent_requests_max {
            Some(v) => v,
            None => DEFAULT_CONNECTION_CONCURRENT_REQUESTS_MAX,
        }
    }
}

/// The index of the first entry of `entries` keyed `key`.
pub open spec fn first_key_index<V>(entries: Seq<(String, V)>, key: Seq<char>) -> Option<int> {
    if exists|i: int| 0 <= i < entries.len() && (#[trigger] entries[i]).0@ == key {
        Some(
            choose|i: int|
                0 <= i < entries.len() && (#[trigger] entries[i]).0@ == key && forall|j: int|
                    0 <= j < i ==> (#[trigger] entries[j]).0@ != key,
        )
    } else {
        None
    }
}

/// If some entry has the key, a first one has it.
proof fn lemma_first_key_index<V>(entries: Seq<(String, V)>, key: Seq<char>)
    ensures
        first_key_index(entries, key) matches Some(i) ==> 0 <= i < entries.len() && entries[i].0@ == key
            && forall|j: int| 0 <= j < i ==> (#[trigger] entries[j]).0@ != key,
        first_key_index(entries, key) is None ==> forall|i: int|
            0 <= i < entries.len() ==> (#[trigger] entries[i]).0@ != key,
{
    if exists|i: int| 0 <= i < entries.len() && (#[trigger] entries[i]).0@ == key {
        let i0 = choose|i: int| 0 <= i < entries.len() && (#[trigger] entries[i]).0@ == key;
        lemma_least_index(entries, key, i0);
    }
}

proof fn lemma_least_index<V>(entries: Seq<(String, V)>, key: Seq<char>, i0: int)
    requires
        0 <= i0 < entries.len(),
        entries[i0].0@ == key,
    ensures
        exists|i: int|
            0 <= i < entries.len() && (#[trigger] entries[i]).0@ == key && forall|j: int|
                0 <= j < i ==> (#[trigger] entries[j]).0@ != key,
    decreases i0,
{
    if exists|j: int| 0 <= j < i0 && (#[trigger] entries[j]).0@ == key {
        let j0 = choose|j: int| 0 <= j < i0 && (#[trigger] entries[j]).0@ == key;
        lemma_least_index(entries, key, j0);
    } else {
        assert(entries[i0].0@ == key);
    }
}

/// The entry of `entries` keyed `key` that comes first.
pub fn find_entry<'a, V>(entries: &'a Vec<(String, V)>, key: &str) -> (res: Option<&'a V>)
    ensures
        match first_key_index(entries@, key@) {
            Some(i) => res matches Some(v) && *v == entries@[i].1,
            None => res is None,
        },
{
    proof {
        lemma_first_key_index(entries@, key@);
    }
    let wanted: String = key.to_owned();
    let mut i: usize = 0;
    while i < entries.len()
        invariant
            0 <= i <= entries.len(),
            wanted@ == key@,
            forall|j: int| 0 <= j < i ==> (#[trigger] entries@[j]).0@ != key@,
        decreases entries.len() - i,
    {
        if entries[i].0 == wanted {
            proof {
                let f = first_key_index(entries@, key@);
                assert(entries@[i as int].0@ == key@);
                if let Some(k) = f {
                    if k < i {
                        assert(entries@[k].0@ != key@);
                    }
                    if k > i {
                        assert(entries@[i as int].0@ != key@);
                    }
                }
            }
            return Some(&entries[i].1);
        }
        i += 1;
    }
    None
}

impl ConfigurationDesc {
    /// The handler configured for the request path `path`.
    pub fn handler(&self, path: &str) -> (res: Option<&LocationDesc>)
        ensures
            match first_key_index(self.handlers@, path@) {
                Some(i) => res matches Some(v) && *v == self.handlers@[i].1,
                None => res is None,
            },
    {
        find_entry(&self.handlers, path)
    }
}

/// The text that marks a secret as the name of an environment variable.
pub open spec fn env_marker() -> Seq<char> {
    seq!['!', 'e', 'n', 'v', ' ']
}

/// The environment variable that the secret `secret` names: a secret
/// `!env NAME`, with a nonempty `NAME`, names `NAME`.
pub open spec fn spec_env_key(secret: Seq<char>) -> Option<Seq<char>> {
    if secret.len() > 5 && secret.subrange(0, 5) == env_marker() {
        Some(secret.subrange(5, secret.len() as int))
    } else {
        None
    }
}

/// The value that `values` gives the variable `key`: the value of its
/// first entry, if it has one.
pub open spec fn spec_env_value(values: Seq<(String, Option<String>)>, key: Seq<char>) -> Option<Seq<char>> {
    match first_key_index(values, key) {
        Some(i) => match values[i].1 {
            Some(v) => Some(v@),
            None => None,
        },
        None => None,
    }
}

/// The secret of an identity.
pub open spec fn identity_secret(id: IdentityDesc) -> Seq<char> {
    match id {
        IdentityDesc::Jwt { secret } => secret@,
    }
}

/// The secret `secret` once the variable it names is replaced by its value.
pub open spec fn resolved_secret(secret: Seq<char>, values: Seq<(String, Option<String>)>) -> Seq<char> {
    match spec_env_key(secret) {
        Some(k) => match spec_env_value(values, k) {
            Some(v) => v,
            None => secret,
        },
        None => secret,
    }
}

/// The variable that `secret` names, when `values` has no value for it.
pub open spec fn missing_of(secret: Seq<char>, values: Seq<(String, Option<String>)>) -> Seq<Seq<char>> {
    match spec_env_key(secret) {
        Some(k) => if spec_env_value(values, k) is None {
            seq![k]
        } else {
            Seq::empty()
        },
        None => Seq::empty(),
    }
}

/// The variables named by the secrets of `ids` that have no value, in order.
pub open spec fn missing_in_identities(ids: Seq<IdentityDesc>, values: Seq<(String, Option<String>)>) -> Seq<Seq<char>>
    decreases ids.len(),
{
    if ids.len() == 0 {
        Seq::empty()
    } else {
        missing_in_identities(ids.drop_last(), values) + missing_of(identity_secret(ids.last()), values)
    }
}

/// The variables named by the secrets of `roles` that have no value, in order.
pub open spec fn missing_in_roles(roles: Seq<(String, RoleDesc)>, values: Seq<(String, Option<String>)>) -> Seq<Seq<char>>
    decreases roles.len(),
{
    if roles.len() == 0 {
        Seq::empty()
    } else {
        missing_in_roles(roles.drop_last(), values) + missing_in_identities(roles.last().1.identity@, values)
    }
}

/// The environment variable that a secret names, if it names one.
pub fn env_key(secret: &str) -> (k: Option<String>)
    ensures
        match spec_env_key(secret@) {
            Some(v) => k matches Some(s) && s@ == v,
            None => k is None,
        },
{
    let cs = chars_of(secret);
    if cs.len() > 5 && cs[0] == '!' && cs[1] == 'e' && cs[2] == 'n' && cs[3] == 'v' && cs[4] == ' ' {
        assert(cs@.subrange(0, 5) =~= env_marker());
        Some(string_of(&cs, 5, cs.len()))
    } else {
        proof {
            if cs@.len() > 5 && cs@.subrange(0, 5) == env_marker() {
                assert(cs@.subrange(0, 5)[0] == cs@[0]);
                assert(cs@.subrange(0, 5)[1] == cs@[1]);
                assert(cs@.subrange(0, 5)[2] == cs@[2]);
                assert(cs@.subrange(0, 5)[3] == cs@[3]);
                assert(cs@.subrange(0, 5)[4] == cs@[4]);
            }
        }
        None
    }
}

/// Replaces the secrets of `role` that name a variable with the variable's
/// value, and appends the variables without a value to `missing`.
fn resolve_role_secrets(role: &mut RoleDesc, values: &Vec<(String, Option<String>)>, missing: &mut Vec<String>)
    ensures
        final(role).identity@.len() == old(role).identity@.len(),
        forall|j: int|
            0 <= j < old(role).identity@.len() ==> identity_secret(#[trigger] final(role).identity@[j])
                == resolved_secret(identity_secret(old(role).identity@[j]), values@),
        crate::route::string_views(final(missing)@) == crate::route::string_views(old(missing)@)
            + missing_in_identities(old(role).identity@, values@),
{
    let ghost ids0 = role.identity@;
    let ghost m0 = missing@;
    let n = role.identity.len();
    let mut j: usize = 0;
    assert(ids0.subrange(0, 0) =~= Seq::<IdentityDesc>::empty());
    assert(crate::route::string_views(m0) + Seq::<Seq<char>>::empty() =~= crate::route::string_views(m0));
    while j < n
        invariant
            0 <= j <= n,
            n == ids0.len(),
            role.identity@.len() == n,
            forall|t: int|
                0 <= t < j ==> identity_secret(#[trigger] role.identity@[t]) == resolved_secret(
                    identity_secret(ids0[t]),
                    values@,
                ),
            forall|t: int| j <= t < n ==> #[trigger] role.identity@[t] == ids0[t],
            crate::route::string_views(missing@) == crate::route::string_views(m0) + missing_in_identities(
                ids0.subrange(0, j as int),
                values@,
            ),
        decreases n - j,
    {
        assert(ids0.subrange(0, j + 1).drop_last() =~= ids0.subrange(0, j as int));
        let key = match &role.identity[j] {
            IdentityDesc::Jwt { secret } => env_key(secret.as_str()),
        };
        let ghost sec = identity_secret(ids0[j as int]);
        if let Some(k) = key {
            match find_entry(values, k.as_str()) {
                Some(Some(v)) => {
                    role.identity.set(j, IdentityDesc::Jwt { secret: v.clone() });
                    assert(missing_of(sec, values@) =~= Seq::<Seq<char>>::empty());
                    assert(crate::route::string_views(missing@) + Seq::<Seq<char>>::empty() =~= crate::route::string_views(missing@));
                },
                _ => {
                    let ghost before = missing@;
                    missing.push(k);
                    assert(crate::route::string_views(missing@) =~= crate::route::string_views(before) + missing_of(sec, values@));
                },
            }
        } else {
            assert(missing_of(sec, values@) =~= Seq::<Seq<char>>::empty());
            assert(crate::route::string_views(missing@) + Seq::<Seq<char>>::empty() =~= crate::route::string_views(missing@));
        }
        j += 1;
    }
    assert(ids0.subrange(0, n as int) =~= ids0);
}

impl ConfigurationDesc {
    /// Replaces each secret `!env NAME` by the value that `values` gives the
    /// variable `NAME`. The variables without a value are the error, in the
    /// order of the roles and of their identities.
    pub fn resolve_env_secrets(&mut self, values: &Vec<(String, Option<String>)>) -> (res: Result<(), Vec<String>>)
        ensures
            final(self).host == old(self).host,
            final(self).port == old(self).port,
            final(self).tls == old(self).tls,
            final(self).global == old(self).global,
            final(self).handlers == old(self).handlers,
            final(self).roles@.len() == old(self).roles@.len(),
            forall|i: int|
                0 <= i < old(self).roles@.len() ==> {
                    &&& (#[trigger] final(self).roles@[i]).0 == old(self).roles@[i].0
                    &&& final(self).roles@[i].1.identity@.len() == old(self).roles@[i].1.identity@.len()
                    &&& forall|j: int|
                        0 <= j < old(self).roles@[i].1.identity@.len() ==> identity_secret(
                            #[trigger] final(self).roles@[i].1.identity@[j],
                        ) == resolved_secret(identity_secret(old(self).roles@[i].1.identity@[j]), values@)
                },
            match res {
                Ok(()) => missing_in_roles(old(self).roles@, values@).len() == 0,
                Err(m) => m@.len() > 0 && crate::route::string_views(m@) == missing_in_roles(
                    old(self).roles@,
                    values@,
                ),
            },
    {
        let ghost roles0 = self.roles@;
        let n = self.roles.len();
        let mut missing: Vec<String> = Vec::new();
        let mut i: usize = 0;
        assert(roles0.subrange(0, 0) =~= Seq::<(String, RoleDesc)>::empty());
        assert(crate::route::string_views(missing@) =~= Seq::<Seq<char>>::empty());
        while i < n
            invariant
                0 <= i <= n,
                n == roles0.len(),
                self.roles@.len() == n,
                self.host == old(self).host,
                self.port == old(self).port,
                self.tls == old(self).tls,
                self.global == old(self).global,
                self.handlers == old(self).handlers,
                roles0 == old(self).roles@,
                forall|t: int|
                    0 <= t < i ==> {
                        &&& (#[trigger] self.roles@[t]).0 == roles0[t].0
                        &&& self.roles@[t].1.identity@.len() == roles0[t].1.identity@.len()
                        &&& forall|j: int|
                            0 <= j < roles0[t].1.identity@.len() ==> identity_secret(
                                #[trigger] self.roles@[t].1.identity@[j],
                            ) == resolved_secret(identity_secret(roles0[t].1.identity@[j]), values@)
                    },
                forall|t: int| i <= t < n ==> #[trigger] self.roles@[t] == roles0[t],
                crate::route::string_views(missing@) == missing_in_roles(roles0.subrange(0, i as int), values@),
            decreases n - i,
        {
            assert(roles0.subrange(0, i + 1).drop_last() =~= roles0.subrange(0, i as int));
            resolve_role_secrets(&mut self.roles[i].1, values, &mut missing);
            i += 1;
        }
        assert(roles0.subrange(0, n as int) =~= roles0);
        if missing.len() == 0 {
            Ok(())
        } else {
            Err(missing)
        }
    }

    /// The secret of the first JWT identity of the role named `default`.
    pub fn default_jwt_secret(&self) -> (res: Option<&String>)
        ensures
            match first_key_index(self.roles@, seq!['d', 'e', 'f', 'a', 'u', 'l', 't']) {
                Some(i) => if self.roles@[i].1.identity@.len() > 0 {
                    res matches Some(s) && s@ == identity_secret(self.roles@[i].1.identity@[0])
                } else {
                    res is None
                },
                None => res is None,
            },
    {
        proof {
            reveal_strlit("default");
            assert("default"@ =~= seq!['d', 'e', 'f', 'a', 'u', 'l', 't']);
        }
        match find_entry(&self.roles, "default") {
            Some(role) => {
                if role.identity.len() > 0 {
                    match &role.identity[0] {
                        IdentityDesc::Jwt { secret } => Some(secret),
                    }
                } else {
                    None
                }
            },
            None => None,
        }
    }
}

/// The cache setting matters only for HTML: HTTP and HTTPS handlers
/// forward whatever the cache is, and HTML is read once when cached
/// statically and on each request otherwise.
pub proof fn law_cache_only_for_html(cache: CacheDesc, other: CacheDesc)
    ensures
        spec_source_kind(ProtocolDesc::Http, cache) == SourceKind::Http,
        spec_source_kind(ProtocolDesc::Https, cache) == SourceKind::Https,
        spec_source_kind(ProtocolDesc::Http, cache) == spec_source_kind(ProtocolDesc::Http, other),
        spec_source_kind(ProtocolDesc::Https, cache) == spec_source_kind(ProtocolDesc::Https, other),
        spec_source_kind(ProtocolDesc::Html, CacheDesc::Static) == SourceKind::StaticHtml,
        spec_source_kind(ProtocolDesc::Html, CacheDesc::NoCache) == SourceKind::DynamicHtml,
{
}

} // verus!
