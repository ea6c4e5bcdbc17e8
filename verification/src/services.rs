//! The request pipeline: authorization, throttling and routing.
use vstd::prelude::*;

use crate::auth::{
    header_view, role_outcome_possible, spec_decide_for, spec_default_secret, spec_permission,
    spec_respond, AuthError, Authorization, AuthService, RoleError,
};
use crate::config::ConfigurationDesc;
use crate::route::{
    law_literal_route_reached, literal_route_text, spec_lookup, spec_path_parts, spec_route_parts,
    valid_component, valid_path_text, valid_route_text, Path, Route, RouteError, Router, Routes,
    SpecRoutePart,
};
use crate::route::valid_route_piece;
use crate::text::{split_slash, strip_slashes, trim};
use crate::utils::{path, spec_path, INTERNAL_SERVER_ERROR, NOT_FOUND, UNAUTHORIZED};

verus! {

/// The table of routes that the handlers `handlers`, taken in order, give:
/// a handler whose route text is refused is left out, and of several
/// handlers for the same route the first one is kept.
pub open spec fn spec_routes_of<T>(handlers: Seq<(String, T)>) -> Map<Seq<SpecRoutePart>, T>
    decreases handlers.len(),
{
    if handlers.len() == 0 {
        Map::empty()
    } else {
        let prev = spec_routes_of(handlers.drop_last());
        let text = handlers.last().0@;
        if valid_route_text(text) && !prev.contains_key(spec_route_parts(text)) {
            prev.insert(spec_route_parts(text), handlers.last().1)
        } else {
            prev
        }
    }
}

/// How many of the handlers `handlers` have a route text that is refused.
pub open spec fn spec_route_errors<T>(handlers: Seq<(String, T)>) -> nat
    decreases handlers.len(),
{
    if handlers.len() == 0 {
        0
    } else {
        spec_route_errors(handlers.drop_last()) + if valid_route_text(handlers.last().0@) {
            0nat
        } else {
            1nat
        }
    }
}

/// The handler that the table `routes` gives the request path `uri_path`.
pub open spec fn spec_route<T>(routes: Map<Seq<SpecRoutePart>, T>, uri_path: &str) -> Option<T> {
    spec_lookup(routes, spec_path_parts(spec_path(uri_path)))
}

/// What to do with a request.
pub enum Dispatch<'a, T, R> {
    /// Answer with an error response of this status.
    Reply(u16),
    /// Hand the request to this handler.
    Serve(&'a T, R),
}

pub struct RouterService;

impl RouterService {
    /// The routes of the handlers `handlers`, keyed by their route text,
    /// with an error for each route text that is refused.
    pub fn parse_routes<T>(handlers: Vec<(String, T)>) -> (res: (Routes<T>, Vec<RouteError>))
        ensures
            res.0@ == spec_routes_of(handlers@),
            res.1@.len() == spec_route_errors(handlers@),
    {
        let ghost hs = handlers@;
        let mut routes: Routes<T> = Routes::new();
        let mut errors: Vec<RouteError> = Vec::new();
        assert(hs.take(0) =~= Seq::<(String, T)>::empty());
        for item in it: handlers
            invariant
                it.seq() == hs,
                routes@ == spec_routes_of(hs.take(it.index() as int)),
                errors@.len() == spec_route_errors(hs.take(it.index() as int)),
        {
            let ghost i = it.index() as int;
            assert(hs.take(i + 1).drop_last() =~= hs.take(i));
            let (text, value) = item;
            match Route::new(text.as_str()) {
                Ok(r) => {
                    let absent = routes.get(&r).is_none();
                    if absent {
                        routes.insert(r, value);
                    }
                },
                Err(e) => {
                    errors.push(e);
                },
            }
        }
        assert(hs.take(hs.len() as int) =~= hs);
        (routes, errors)
    }

    /// The handler that `routes` gives the path of the request, if any; a
    /// path that is not made of valid path components is refused.
    pub fn route<'a, T>(routes: &'a Routes<T>, uri_path: &str) -> (res: Result<Option<&'a T>, RouteError>)
        ensures
            res is Ok <==> valid_path_text(spec_path(uri_path)),
            res matches Ok(found) ==> match spec_route(routes@, uri_path) {
                Some(v) => found matches Some(h) && *h == v,
                None => found is None,
            },
    {
        let p = path(uri_path);
        let parsed = Path::new(p)?;
        Ok(routes.match_path(&parsed))
    }
}

/// Whether `res` is what is done with a request to `uri_path` after
/// authorization came to `auth`: a refused request is answered with the
/// status authorization gave; an admitted one is answered with 500 when
/// its path is not valid, goes to the handler of its route, or is answered
/// with 404 when there is none.
pub open spec fn dispatch_matches<'a, T, R>(
    res: Dispatch<'a, T, R>,
    auth: Result<R, u16>,
    routes: Map<Seq<SpecRoutePart>, T>,
    uri_path: &str,
) -> bool {
    match auth {
        Err(code) => res == Dispatch::<'a, T, R>::Reply(code),
        Ok(r) => if !valid_path_text(spec_path(uri_path)) {
            res == Dispatch::<'a, T, R>::Reply(INTERNAL_SERVER_ERROR)
        } else {
            match spec_route(routes, uri_path) {
                Some(v) => res matches Dispatch::Serve(h, r2) && *h == v && r2 == r,
                None => res == Dispatch::<'a, T, R>::Reply(NOT_FOUND),
            }
        },
    }
}

pub struct RequestService;

impl RequestService {
    /// What is done with a request to `uri_path` after authorization came to
    /// `auth` (the request, or the status to answer with).
    pub fn dispatch<'a, T, R>(auth: Result<R, u16>, routes: &'a Routes<T>, uri_path: &str) -> (res: Dispatch<'a, T, R>)
        ensures
            dispatch_matches(res, auth, routes@, uri_path),
    {
        let request = match auth {
            Ok(r) => r,
            Err(code) => return Dispatch::Reply(code),
        };
        match RouterService::route(routes, uri_path) {
            Ok(Some(h)) => Dispatch::Serve(h, request),
            Ok(None) => Dispatch::Reply(NOT_FOUND),
            Err(_) => Dispatch::Reply(INTERNAL_SERVER_ERROR),
        }
    }

    /// The handling of a request: refused requests are answered with the
    /// status that authorization gives, authorized ones go to the handler
    /// of their route or are answered with 404 when there is none (500 when
    /// the path cannot be parsed).
    pub fn handle_request<'a, T, R>(
        config: &ConfigurationDesc,
        routes: &'a Routes<T>,
        uri_path: &str,
        header: Option<&[u8]>,
        request: R,
    ) -> (res: Dispatch<'a, T, R>)
        requires
            spec_permission(*config, uri_path) is Some ==> (header matches Some(h) ==> h@.len() >= 7),
        ensures
            match spec_permission(*config, uri_path) {
                None => dispatch_matches(res, Ok::<R, u16>(request), routes@, uri_path),
                Some(p) => exists|pr: Result<String, RoleError>|
                    #[trigger] role_outcome_possible(*config, header_view(header), pr)
                        && dispatch_matches(
                        res,
                        spec_respond(Ok::<Authorization, AuthError>(spec_decide_for(p, pr)), request),
                        routes@,
                        uri_path,
                    ),
            },
            spec_permission(*config, uri_path) is Some && (header is None || spec_default_secret(*config) is None)
                ==> res == Dispatch::<'a, T, R>::Reply(UNAUTHORIZED),
    {
        let auth = AuthService::handle_request(config, uri_path, header, request);
        Self::dispatch(auth, routes, uri_path)
    }
}

pub struct ThrottleService;

impl ThrottleService {
    /// Lets every request through: no throttling rule is applied yet.
    pub fn handle_request<R>(config: &ConfigurationDesc, request: R) -> (res: Result<R, u16>)
        ensures
            res == Ok::<R, u16>(request),
    {
        Ok(request)
    }
}

/// Whether every part of the route `r` is the wildcard or a literal that is
/// a valid path component.
pub open spec fn valid_route(r: Seq<SpecRoutePart>) -> bool {
    forall|i: int|
        0 <= i < r.len() ==> match #[trigger] r[i] {
            SpecRoutePart::Wildcard => true,
            SpecRoutePart::Part(s) => valid_component(s),
        }
}

proof fn lemma_valid_route_text(s: Seq<char>)
    requires
        valid_route_text(s),
    ensures
        valid_route(spec_route_parts(s)),
{
    let pieces = split_slash(strip_slashes(s));
    assert forall|i: int| 0 <= i < spec_route_parts(s).len() implies match #[trigger] spec_route_parts(s)[i] {
        SpecRoutePart::Wildcard => true,
        SpecRoutePart::Part(t) => valid_component(t),
    } by {
        assert(valid_route_piece(pieces[i]));
    }
}

/// Every route of the table that handlers give is made of valid parts.
proof fn lemma_routes_of_valid<T>(handlers: Seq<(String, T)>)
    ensures
        forall|key: Seq<SpecRoutePart>| #[trigger] spec_routes_of(handlers).contains_key(key) ==> valid_route(key),
    decreases handlers.len(),
{
    if handlers.len() > 0 {
        let prev = spec_routes_of(handlers.drop_last());
        lemma_routes_of_valid(handlers.drop_last());
        let text = handlers.last().0@;
        if valid_route_text(text) {
            lemma_valid_route_text(text);
        }
        assert forall|key: Seq<SpecRoutePart>| #[trigger] spec_routes_of(handlers).contains_key(key) implies valid_route(key) by {
            if key != spec_route_parts(text) {
                assert(prev.contains_key(key));
            }
        }
    }
}

/// A request whose path is the text of a configured route, written without
/// wildcards, padding or a trailing slash, has a valid path and reaches the
/// value configured for that route.
pub proof fn law_configured_route_serves<T>(handlers: Seq<(String, T)>, uri_path: &str)
    requires
        literal_route_text(uri_path@),
        uri_path@.len() > 0 ==> uri_path@.last() != '/',
        spec_routes_of(handlers).contains_key(spec_route_parts(uri_path@)),
    ensures
        valid_path_text(spec_path(uri_path)),
        spec_route(spec_routes_of(handlers), uri_path) == Some(
            spec_routes_of(handlers)[spec_route_parts(uri_path@)],
        ),
{
    assert(spec_path(uri_path) == uri_path@);
    law_literal_route_reached(spec_routes_of(handlers), uri_path@);
    lemma_routes_of_valid(handlers);
    let key = spec_route_parts(uri_path@);
    let pieces = split_slash(strip_slashes(uri_path@));
    assert forall|i: int| 0 <= i < spec_path_parts(uri_path@).len() implies valid_component(
        #[trigger] spec_path_parts(uri_path@)[i],
    ) by {
        assert(trim(pieces[i]) == pieces[i]);
        assert(pieces[i] != seq!['*']);
        assert(key[i] == SpecRoutePart::Part(pieces[i]));
    }
}

} // verus!
