use warden_core::config::{ConfigurationDesc, GlobalDesc};
use warden_core::route::{Route, Routes};
use warden_core::services::{Dispatch, RequestService, RouterService, ThrottleService};

fn open_config() -> ConfigurationDesc {
    ConfigurationDesc {
        host: String::from("127.0.0.1"),
        port: 80,
        tls: None,
        global: GlobalDesc { throttle: None, header_size_max: None, connection_concurrent_requests_max: None },
        handlers: vec![],
        roles: vec![],
    }
}

#[test]
fn parse_routes_keeps_first_handler_of_a_route() {
    let handlers = vec![
        (String::from("/a"), 1u32),
        (String::from("/b/*"), 2u32),
        (String::from("a/"), 3u32),
    ];
    let (routes, errors) = RouterService::parse_routes(handlers);
    assert!(errors.is_empty());
    assert_eq!(routes.get(&Route::new("a").ok().unwrap()), Some(&1));
    assert_eq!(routes.get(&Route::new("b/*").ok().unwrap()), Some(&2));
}

#[test]
fn parse_routes_reports_refused_routes() {
    let handlers = vec![
        (String::from("/a?x"), 1u32),
        (String::from("/b"), 2u32),
        (String::from("/c d"), 3u32),
    ];
    let (routes, errors) = RouterService::parse_routes(handlers);
    assert_eq!(errors.len(), 2);
    assert_eq!(routes.get(&Route::new("b").ok().unwrap()), Some(&2));
}

#[test]
fn route_refuses_invalid_paths() {
    let (routes, _) = RouterService::parse_routes(vec![(String::from("/dyn"), 1u32)]);
    assert!(RouterService::route(&routes, "/dyn?x").is_err());
    assert!(RouterService::route(&routes, "/a b").is_err());
}

#[test]
fn dispatch_follows_authorization() {
    let (routes, _) = RouterService::parse_routes(vec![(String::from("/page"), 5u32)]);
    assert!(matches!(RequestService::dispatch(Err::<u8, u16>(401), &routes, "/page"), Dispatch::Reply(401)));
    assert!(matches!(RequestService::dispatch(Err::<u8, u16>(500), &routes, "/page"), Dispatch::Reply(500)));
    assert!(matches!(RequestService::dispatch(Ok::<u8, u16>(1), &routes, "/page"), Dispatch::Serve(&5, 1)));
    assert!(matches!(RequestService::dispatch(Ok::<u8, u16>(1), &routes, "/other"), Dispatch::Reply(404)));
    assert!(matches!(RequestService::dispatch(Ok::<u8, u16>(1), &routes, "/a#b"), Dispatch::Reply(500)));
}

#[test]
fn route_strips_trailing_slash_and_matches() {
    let (routes, _) = RouterService::parse_routes(vec![
        (String::from("/dyn"), 1u32),
        (String::from("/files/*"), 2u32),
    ]);
    assert_eq!(RouterService::route(&routes, "/dyn").ok().unwrap(), Some(&1));
    assert_eq!(RouterService::route(&routes, "/dyn/").ok().unwrap(), Some(&1));
    assert_eq!(RouterService::route(&routes, "/files/a/b").ok().unwrap(), Some(&2));
    assert_eq!(RouterService::route(&routes, "/nothing").ok().unwrap(), None);
}

#[test]
fn request_dispatch_serves_or_answers_404() {
    let (routes, _) = RouterService::parse_routes(vec![(String::from("/page"), 5u32)]);
    let c = open_config();
    match RequestService::handle_request(&c, &routes, "/page", None, "req") {
        Dispatch::Serve(h, r) => {
            assert_eq!(*h, 5);
            assert_eq!(r, "req");
        }
        Dispatch::Reply(_) => panic!("expected the handler"),
    }
    assert!(matches!(
        RequestService::handle_request(&c, &routes, "/missing", None, "req"),
        Dispatch::Reply(404)
    ));
}

#[test]
fn throttle_lets_requests_through() {
    let c = open_config();
    assert_eq!(ThrottleService::handle_request(&c, 3u8), Ok(3u8));
    let empty: Routes<u8> = Routes::new();
    assert!(matches!(
        RequestService::handle_request(&c, &empty, "/", None, 0u8),
        Dispatch::Reply(404)
    ));
}
