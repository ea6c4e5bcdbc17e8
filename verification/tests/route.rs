use warden_core::route::{Path, Route, RouteMatch, Router, Routes};

#[test]
fn matches_root() {
    let r1 = Route::new("/").ok().unwrap();
    let r2 = Route::new("").ok().unwrap();

    let p1 = Path::new("/").ok().unwrap();
    let p2 = Path::new("").ok().unwrap();

    assert!(matches!(r1.matches(&p1), RouteMatch::Match { .. }));
    assert!(matches!(r1.matches(&p2), RouteMatch::Match { .. }));

    assert!(matches!(r2.matches(&p1), RouteMatch::Match { .. }));
    assert!(matches!(r2.matches(&p2), RouteMatch::Match { .. }));
}

#[test]
fn matches_wildcard() {
    let r1 = Route::new("/auth/v1/*").ok().unwrap();
    let r2 = Route::new("/analytics/v2/*/test").ok().unwrap();
    let r3 = Route::new("/analytics/v2/test/*").ok().unwrap();

    let p1 = Path::new("/auth/v1/health/").ok().unwrap();
    let p2 = Path::new("analytics/v2/auth/user_abcd").ok().unwrap();

    assert!(matches!(r1.matches(&p1), RouteMatch::Match { .. }));
    assert!(matches!(r1.matches(&p2), RouteMatch::NotMatch));

    assert!(matches!(r2.matches(&p1), RouteMatch::NotMatch));
    assert!(matches!(r2.matches(&p2), RouteMatch::Match { .. }));

    assert!(matches!(r3.matches(&p1), RouteMatch::NotMatch));
    assert!(matches!(r3.matches(&p2), RouteMatch::NotMatch));
}

#[test]
fn basic_matches() {
    let mut routes = Routes::default();

    routes.insert(Route::new("const/path").ok().unwrap(), String::from("a"));

    let path = Path::new("const/path").ok().unwrap();

    let text = routes.match_path(&path).unwrap();
    assert_eq!(1, text.len());
    assert_eq!('a', text.chars().next().unwrap());
}

#[test]
fn wildcard_matches() {
    let mut routes = Routes::default();
    routes.insert(Route::new("const/*").ok().unwrap(), String::from("b"));
    let path0 = Path::new("const/path").ok().unwrap();
    let path1 = Path::new("const/path1/path2/").ok().unwrap();
    let path3 = Path::new("").ok().unwrap();

    let text = routes.match_path(&path0).unwrap();
    assert_eq!(1, text.len());
    assert_eq!('b', text.chars().next().unwrap());

    let text = routes.match_path(&path1).unwrap();
    assert_eq!(1, text.len());
    assert_eq!('b', text.chars().next().unwrap());

    assert!(routes.match_path(&path3).is_none());
}

enum Source {
    StaticHtml(String),
    Https(String),
}

#[test]
fn mixed_matches() {
    let mut routes = Routes::default();
    routes.insert(Route::new("/").ok().unwrap(), Source::StaticHtml(String::from("b")));
    routes.insert(Route::new("/dyn").ok().unwrap(), Source::StaticHtml(String::from("c")));
    routes.insert(Route::new("/test/*").ok().unwrap(), Source::StaticHtml(String::from("d")));
    routes.insert(Route::new("/nginx/*").ok().unwrap(), Source::StaticHtml(String::from("e")));
    routes.insert(
        Route::new("/secure/*").ok().unwrap(),
        Source::Https(String::from("https://localhost")),
    );
    let path = Path::new("/secure").ok().unwrap();
    let source = routes.match_path(&path).unwrap();

    assert!(matches!(source, Source::Https(..)));
}

fn excess_of(m: RouteMatch<'_>) -> Option<Vec<String>> {
    match m {
        RouteMatch::Match { excess } => Some(excess.to_vec()),
        RouteMatch::NotMatch => None,
    }
}

#[test]
fn wildcard_excess_holds_rest_of_path() {
    let r = Route::new("/auth/v1/*").ok().unwrap();
    let p = Path::new("/auth/v1/health/check").ok().unwrap();
    assert_eq!(
        excess_of(r.matches(&p)),
        Some(vec![String::from("health"), String::from("check")])
    );
    let p = Path::new("/auth/v1").ok().unwrap();
    assert_eq!(excess_of(r.matches(&p)), Some(vec![]));
}

#[test]
fn exact_match_has_no_excess() {
    let r = Route::new("a/b").ok().unwrap();
    assert_eq!(excess_of(r.matches(&Path::new("/a/b/").ok().unwrap())), Some(vec![]));
    assert_eq!(excess_of(r.matches(&Path::new("a/b/c").ok().unwrap())), None);
    assert_eq!(excess_of(r.matches(&Path::new("a").ok().unwrap())), None);
}

#[test]
fn route_parts_are_trimmed_but_path_parts_are_not() {
    let r = Route::new(" a / * ").ok().unwrap();
    assert_eq!(excess_of(r.matches(&Path::new("a/x").ok().unwrap())), Some(vec![String::from("x")]));
    assert!(Path::new(" a/b").is_err());
}

#[test]
fn path_parts_must_be_valid_components() {
    assert!(Path::new("a?b#c").is_err());
    assert!(Path::new("a/b c").is_err());
    assert!(Path::new("a/*").is_err());
    assert!(Path::new("a/%2").is_err());
    assert!(Path::new("a/%zz").is_err());
    assert!(Path::new("a/%2F/x-y.z_~9").is_ok());
    assert!(Path::new("").is_ok());
}

#[test]
fn route_parts_must_be_wildcards_or_valid_components() {
    assert!(Route::new("a?b").is_err());
    assert!(Route::new("a/b:c").is_err());
    assert!(Route::new("a/**").is_err());
    assert!(Route::new(" a / %41 / * ").is_ok());
    assert!(Route::new("/").is_ok());
}

#[test]
fn only_one_outer_slash_is_dropped() {
    let r = Route::new("//a//").ok().unwrap();
    assert!(matches!(r.matches(&Path::new("/a/").ok().unwrap()), RouteMatch::NotMatch));
    assert!(matches!(r.matches(&Path::new("//a//").ok().unwrap()), RouteMatch::Match { .. }));
    let r = Route::new("/a/b/").ok().unwrap();
    assert!(matches!(r.matches(&Path::new("a/b").ok().unwrap()), RouteMatch::Match { .. }));
}

#[test]
fn insert_returns_previous_value_and_get_reads_it() {
    let mut routes: Routes<u32> = Routes::new();
    assert_eq!(routes.insert(Route::new("/a/b").ok().unwrap(), 1), None);
    assert_eq!(routes.insert(Route::new("a/b/").ok().unwrap(), 2), Some(1));
    assert_eq!(routes.get(&Route::new("a/b").ok().unwrap()), Some(&2));
    assert_eq!(routes.get(&Route::new("a").ok().unwrap()), None);
    assert_eq!(routes.get(&Route::new("a/b/c").ok().unwrap()), None);
    routes.insert(Route::new("a/*").ok().unwrap(), 3);
    assert_eq!(routes.get(&Route::new("a/*").ok().unwrap()), Some(&3));
    assert_eq!(routes.get(&Route::new("a/b").ok().unwrap()), Some(&2));
}

#[test]
fn exact_route_wins_over_wildcard() {
    let mut routes: Routes<u32> = Routes::new();
    routes.insert(Route::new("a/*").ok().unwrap(), 1);
    routes.insert(Route::new("a/b").ok().unwrap(), 2);
    assert_eq!(routes.match_path(&Path::new("a/b").ok().unwrap()), Some(&2));
    assert_eq!(routes.match_path(&Path::new("a/c").ok().unwrap()), Some(&1));
    assert_eq!(routes.match_path(&Path::new("a").ok().unwrap()), Some(&1));
}

#[test]
fn lookup_does_not_backtrack_to_wildcard() {
    let mut routes: Routes<u32> = Routes::new();
    routes.insert(Route::new("a/*").ok().unwrap(), 1);
    routes.insert(Route::new("a/b/c").ok().unwrap(), 2);
    assert_eq!(routes.match_path(&Path::new("a/b/c").ok().unwrap()), Some(&2));
    assert_eq!(routes.match_path(&Path::new("a/b/d").ok().unwrap()), None);
    assert_eq!(routes.match_path(&Path::new("a/b").ok().unwrap()), None);
    assert_eq!(routes.match_path(&Path::new("a/x/y").ok().unwrap()), Some(&1));
}

#[test]
fn empty_table_finds_nothing() {
    let routes: Routes<u32> = Routes::default();
    assert_eq!(routes.match_path(&Path::new("/").ok().unwrap()), None);
    assert_eq!(routes.get(&Route::new("/").ok().unwrap()), None);
}

#[test]
fn route_parts_are_trimmed_of_unicode_white_space() {
    let r = Route::new("\u{3000}a\u{2003}/\tb\u{85}").ok().unwrap();
    assert!(matches!(r.matches(&Path::new("a/b").ok().unwrap()), RouteMatch::Match { .. }));
    let r = Route::new("\u{200b}a").ok();
    assert!(r.is_none());
}
