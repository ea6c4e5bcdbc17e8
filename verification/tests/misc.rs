use std::sync::PoisonError;

use warden_core::auth::Authorization;
use warden_core::meter::{Meter, MeterTickResult};
use warden_core::provider::{DefaultAuthProvider, ProviderError, Ruleset};
use warden_core::router::Router;
use warden_core::source::{
    extend_path, extend_path_text, forward_failure_status, serve_step, ExtendError, ForwardFailure,
    ServeStep, SourceVariant,
};
use warden_core::tui::{Ssl, Status};
use warden_core::utils::{path, UnwrapLog, WardenHttpExt};

#[test]
fn path_drops_one_trailing_slash() {
    assert_eq!(path("/"), "/");
    assert_eq!(path("/a/"), "/a");
    assert_eq!(path("/a//"), "/a/");
    assert_eq!(path("/a"), "/a");
    assert_eq!(path(""), "");
}

#[test]
fn ok_or_500_maps_errors() {
    let ok: Result<u8, String> = Ok(1);
    let err: Result<u8, String> = Err(String::from("x"));
    assert_eq!(ok.ok_or_500(), Ok(1));
    assert_eq!(err.ok_or_500(), Err(500));
}

#[test]
fn unwrap_log_recovers_poisoned_value() {
    let ok: Result<u8, PoisonError<u8>> = Ok(3);
    assert_eq!(ok.unwrap_log(), 3);
    let poisoned: Result<u8, PoisonError<u8>> = Err(PoisonError::new(5));
    assert_eq!(poisoned.unwrap_log(), 5);
}

#[test]
fn meter_counts_within_window() {
    let mut meter = Meter::new(10, 1000, 0);
    assert!(matches!(meter.tick(4, 100), MeterTickResult::Within));
    assert!(matches!(meter.tick(6, 200), MeterTickResult::Within));
    assert!(matches!(meter.tick(1, 300), MeterTickResult::Exceeds));
    // more than a window later, one window's allowance is taken off: 11 + 5 - 10
    assert!(matches!(meter.tick(5, 1400), MeterTickResult::Within));
    assert!(matches!(meter.tick(4, 1500), MeterTickResult::Within));
    assert!(matches!(meter.tick(1, 1600), MeterTickResult::Exceeds));
}

#[test]
fn default_provider_rules() {
    assert!(matches!(DefaultAuthProvider::verify_request("/status", None), Ok(Authorization::Allowed)));
    assert!(matches!(DefaultAuthProvider::verify_request("/dyn/", None), Ok(Authorization::Allowed)));
    assert!(matches!(DefaultAuthProvider::verify_request("", None), Ok(Authorization::Allowed)));
    assert!(matches!(DefaultAuthProvider::verify_request("/bad-route", None), Err(ProviderError::BadRoute)));
    assert!(matches!(DefaultAuthProvider::verify_request("/x", None), Ok(Authorization::Blocked)));
    assert!(matches!(DefaultAuthProvider::verify_request("/x", Some(b"user1")), Ok(Authorization::Blocked)));
    assert!(matches!(
        DefaultAuthProvider::verify_request("/x", Some(&[0xff, 0xfe])),
        Err(ProviderError::InvalidUser)
    ));
}

#[test]
fn ruleset_allow_and_block_lists() {
    let allow = Ruleset::AllowList(vec![String::from("k1")]);
    let block = Ruleset::BlockList(vec![String::from("k1")]);
    assert!(allow.is_allowed("k1"));
    assert!(!allow.is_allowed("k2"));
    assert!(!block.is_allowed("k1"));
    assert!(block.is_allowed("k2"));
}

#[test]
fn router_starts_empty() {
    let _ = Router::new();
    let _ = Router::default();
}

#[test]
fn tui_labels() {
    assert_eq!(Status::Healthy.label(), "Healthy");
    assert_eq!(Status::Unhealthy.label(), "Unhealthy");
    assert_eq!(Status::Unknown.label(), "Unknown");
    assert_eq!(Ssl::Disabled.label(), "Disabled");
}

#[test]
fn extended_path_text() {
    assert_eq!(extend_path_text("/api/", None, "/v1/users/"), "api/v1/users");
    assert_eq!(extend_path_text("/", Some("a=1"), "x"), "/x?a=1");
    assert_eq!(extend_path_text("//", None, "//"), "/");
}

#[test]
fn extend_path_builds_origin_form_uri() {
    let u = extend_path("/", Some("k=v"), "/users/1/").ok().unwrap();
    assert_eq!(u.to_string(), "/users/1?k=v");
    // the joined text of a non-root upstream path lacks the leading slash
    // that a path and query must have
    assert!(matches!(extend_path("/api/", None, "users").err().unwrap(), ExtendError::PathAndQuery));
    assert!(matches!(extend_path("/", None, "a b").err().unwrap(), ExtendError::PathAndQuery));
    let u = extend_path("", None, "x").ok().unwrap();
    assert_eq!(u.to_string(), "/x");
}

#[test]
fn serve_steps_and_forward_failures() {
    assert!(matches!(serve_step(SourceVariant::StaticHtml, false), ServeStep::StaticPage));
    assert!(matches!(serve_step(SourceVariant::DynamicHtml, false), ServeStep::ReadPage));
    assert!(matches!(serve_step(SourceVariant::Http, true), ServeStep::Forward));
    assert!(matches!(serve_step(SourceVariant::Http, false), ServeStep::Reply(500)));
    assert!(matches!(serve_step(SourceVariant::Https, true), ServeStep::Reply(500)));
    assert!(matches!(serve_step(SourceVariant::Unknown, true), ServeStep::Reply(500)));
    assert_eq!(forward_failure_status(ForwardFailure::Unreachable), 502);
    assert_eq!(forward_failure_status(ForwardFailure::BuildRequest), 500);
    assert_eq!(forward_failure_status(ForwardFailure::ReadResponse), 500);
}
