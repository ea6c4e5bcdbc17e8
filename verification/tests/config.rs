use warden_core::config::{
    check_static_html_size, env_key, upstream_uri, ConfigError, CacheDesc, ConfigurationDesc, FilterDesc, GlobalDesc,
    IdentityDesc, LocationDesc, PermissionDesc, ProtocolDesc, RoleDesc, SourceKind,
    DEFAULT_CONNECTION_CONCURRENT_REQUESTS_MAX, DEFAULT_HEADER_SIZE_MAX, MAX_STATIC_HTML_FILE_SIZE,
};

fn sample_location(protocol: ProtocolDesc, cache: CacheDesc) -> LocationDesc {
    LocationDesc {
        protocol,
        path: String::from("./page.html"),
        cache,
        permission: PermissionDesc { filter: FilterDesc::Allow, roles: vec![] },
    }
}

fn sample_config(handlers: Vec<(String, LocationDesc)>, roles: Vec<(String, RoleDesc)>) -> ConfigurationDesc {
    ConfigurationDesc {
        host: String::from("0.0.0.0"),
        port: 3000,
        tls: None,
        global: GlobalDesc { throttle: None, header_size_max: None, connection_concurrent_requests_max: None },
        handlers,
        roles,
    }
}

fn jwt_identity(secret: &str) -> IdentityDesc {
    IdentityDesc::Jwt { secret: String::from(secret) }
}

fn secret_of(id: &IdentityDesc) -> &str {
    match id {
        IdentityDesc::Jwt { secret } => secret.as_str(),
    }
}

#[test]
fn source_kind_follows_protocol_and_cache() {
    assert!(matches!(sample_location(ProtocolDesc::Html, CacheDesc::Static).source_kind(), SourceKind::StaticHtml));
    assert!(matches!(sample_location(ProtocolDesc::Html, CacheDesc::NoCache).source_kind(), SourceKind::DynamicHtml));
    assert!(matches!(sample_location(ProtocolDesc::Http, CacheDesc::Static).source_kind(), SourceKind::Http));
    assert!(matches!(sample_location(ProtocolDesc::Https, CacheDesc::NoCache).source_kind(), SourceKind::Https));
}

#[test]
fn static_html_size_limit() {
    assert!(check_static_html_size(0).is_ok());
    assert!(check_static_html_size(MAX_STATIC_HTML_FILE_SIZE).is_ok());
    assert!(matches!(check_static_html_size(MAX_STATIC_HTML_FILE_SIZE + 1), Err(ConfigError::FileTooLarge)));
}

#[test]
fn upstream_uri_keeps_valid_text() {
    assert_eq!(upstream_uri("https://localhost:8443/api").ok(), Some(String::from("https://localhost:8443/api")));
    assert!(matches!(upstream_uri("http://exa mple"), Err(ConfigError::InvalidUri)));
    assert!(matches!(upstream_uri(""), Err(ConfigError::InvalidUri)));
}

#[test]
fn global_defaults() {
    let g = GlobalDesc { throttle: None, header_size_max: None, connection_concurrent_requests_max: None };
    assert_eq!(g.header_size_max_or_default(), DEFAULT_HEADER_SIZE_MAX);
    assert_eq!(DEFAULT_HEADER_SIZE_MAX, 8 * 1024);
    assert_eq!(g.connection_concurrent_requests_max_or_default(), DEFAULT_CONNECTION_CONCURRENT_REQUESTS_MAX);
    assert_eq!(DEFAULT_CONNECTION_CONCURRENT_REQUESTS_MAX, 200);
    let g = GlobalDesc { throttle: None, header_size_max: Some(10), connection_concurrent_requests_max: Some(3) };
    assert_eq!(g.header_size_max_or_default(), 10);
    assert_eq!(g.connection_concurrent_requests_max_or_default(), 3);
}

#[test]
fn handler_lookup_takes_first_entry() {
    let c = sample_config(
        vec![
            (String::from("/a"), sample_location(ProtocolDesc::Http, CacheDesc::Static)),
            (String::from("/a"), sample_location(ProtocolDesc::Https, CacheDesc::Static)),
        ],
        vec![],
    );
    assert!(matches!(c.handler("/a").unwrap().protocol, ProtocolDesc::Http));
    assert!(c.handler("/b").is_none());
    assert!(c.handler("/a/").is_none());
}

#[test]
fn env_key_needs_marker_and_name() {
    assert_eq!(env_key("!env KEY"), Some(String::from("KEY")));
    assert_eq!(env_key("!env "), None);
    assert_eq!(env_key("!envKEY"), None);
    assert_eq!(env_key("plain"), None);
    assert_eq!(env_key("!env  X"), Some(String::from(" X")));
}

#[test]
fn env_secrets_are_resolved_and_missing_ones_reported() {
    let mut c = sample_config(
        vec![],
        vec![
            (String::from("default"), RoleDesc { identity: vec![jwt_identity("!env A"), jwt_identity("fixed")] }),
            (String::from("other"), RoleDesc { identity: vec![jwt_identity("!env B"), jwt_identity("!env C")] }),
        ],
    );
    let values = vec![
        (String::from("A"), Some(String::from("alpha"))),
        (String::from("B"), None),
    ];
    let res = c.resolve_env_secrets(&values);
    assert_eq!(res, Err(vec![String::from("B"), String::from("C")]));
    assert_eq!(secret_of(&c.roles[0].1.identity[0]), "alpha");
    assert_eq!(secret_of(&c.roles[0].1.identity[1]), "fixed");
    assert_eq!(secret_of(&c.roles[1].1.identity[0]), "!env B");
    assert_eq!(secret_of(&c.roles[1].1.identity[1]), "!env C");

    let mut c = sample_config(vec![], vec![(String::from("r"), RoleDesc { identity: vec![jwt_identity("!env A")] })]);
    assert_eq!(c.resolve_env_secrets(&values), Ok(()));
    assert_eq!(secret_of(&c.roles[0].1.identity[0]), "alpha");
}

#[test]
fn default_jwt_secret_is_first_identity_of_default_role() {
    let c = sample_config(
        vec![],
        vec![
            (String::from("x"), RoleDesc { identity: vec![jwt_identity("no")] }),
            (String::from("default"), RoleDesc { identity: vec![jwt_identity("key1"), jwt_identity("key2")] }),
        ],
    );
    assert_eq!(c.default_jwt_secret().map(|s| s.as_str()), Some("key1"));
    let c = sample_config(vec![], vec![(String::from("default"), RoleDesc { identity: vec![] })]);
    assert!(c.default_jwt_secret().is_none());
    let c = sample_config(vec![], vec![]);
    assert!(c.default_jwt_secret().is_none());
}
