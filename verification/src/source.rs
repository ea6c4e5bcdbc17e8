//! Forwarding of requests: the path and query that a request is sent to upstream.
use vstd::prelude::*;

use std::str::FromStr;

use crate::text::{chars_of, string_of};
use crate::utils::{BAD_GATEWAY, INTERNAL_SERVER_ERROR};

verus! {

/// Whether `http::uri::PathAndQuery::from_str` accepts the text `s`.
pub uninterp spec fn path_and_query_accepted(s: Seq<char>) -> bool;

/// Calls `http::uri::PathAndQuery::from_str` and tells whether it
/// succeeded, which is taken to depend on the text alone
/// (`path_and_query_accepted`).
#[verifier::external_body]
fn path_and_query_valid(s: &str) -> (b: bool)
    ensures
        b == path_and_query_accepted(s@),
{
    http::uri::PathAndQuery::from_str(s).is_ok()
}

/// `s` without its trailing slashes.
pub open spec fn trim_slashes_end(s: Seq<char>) -> Seq<char>
    decreases s.len(),
{
    if s.len() > 0 && s.last() == '/' {
        trim_slashes_end(s.drop_last())
    } else {
        s
    }
}

/// `s` without its leading slashes.
pub open spec fn trim_slashes_start(s: Seq<char>) -> Seq<char>
    decreases s.len(),
{
    if s.len() > 0 && s[0] == '/' {
        trim_slashes_start(s.drop_first())
    } else {
        s
    }
}

/// `s` without leading and trailing slashes (trailing ones removed first).
pub open spec fn trim_slashes(s: Seq<char>) -> Seq<char> {
    trim_slashes_start(trim_slashes_end(s))
}

/// The path and query of the upstream request: the upstream path and the
/// request's path extension, each without outer slashes, joined by one
/// slash, then the upstream query after `?` when there is one.
pub open spec fn spec_extended(path: Seq<char>, query: Option<Seq<char>>, ext: Seq<char>) -> Seq<char> {
    let base = trim_slashes(path) + seq!['/'] + trim_slashes(ext);
    match query {
        Some(q) => base + seq!['?'] + q,
        None => base,
    }
}

/// The bounds `(a, b)` such that `cs[a..b]` is `trim_slashes(cs)`.
fn trim_slashes_bounds(cs: &Vec<char>) -> (r: (usize, usize))
    ensures
        r.0 <= r.1 <= cs.len(),
        cs@.subrange(r.0 as int, r.1 as int) == trim_slashes(cs@),
{
    let mut b = cs.len();
    assert(cs@.subrange(0, b as int) =~= cs@);
    while b > 0 && cs[b - 1] == '/'
        invariant
            b <= cs.len(),
            trim_slashes_end(cs@) == trim_slashes_end(cs@.subrange(0, b as int)),
        decreases b,
    {
        assert(cs@.subrange(0, b as int).drop_last() =~= cs@.subrange(0, b - 1));
        b -= 1;
    }
    assert(trim_slashes_end(cs@.subrange(0, b as int)) == cs@.subrange(0, b as int));
    let mut a: usize = 0;
    while a < b && cs[a] == '/'
        invariant
            a <= b <= cs.len(),
            trim_slashes(cs@) == trim_slashes_start(cs@.subrange(a as int, b as int)),
        decreases b - a,
    {
        assert(cs@.subrange(a as int, b as int).drop_first() =~= cs@.subrange(a + 1, b as int));
        a += 1;
    }
    (a, b)
}

/// Appends `cs[lo..hi]` to `out`.
fn push_range(out: &mut Vec<char>, cs: &Vec<char>, lo: usize, hi: usize)
    requires
        lo <= hi <= cs.len(),
    ensures
        final(out)@ == old(out)@ + cs@.subrange(lo as int, hi as int),
{
    let mut i = lo;
    while i < hi
        invariant
            lo <= i <= hi <= cs.len(),
            out@ == old(out)@ + cs@.subrange(lo as int, i as int),
        decreases hi - i,
    {
        out.push(cs[i]);
        assert(cs@.subrange(lo as int, i + 1) =~= cs@.subrange(lo as int, i as int).push(cs@[i as int]));
        i += 1;
    }
}

/// The path and query that forwards a request with path extension `ext`
/// to an upstream whose URI has path `path` and query `query`.
pub fn extend_path_text(path: &str, query: Option<&str>, ext: &str) -> (s: String)
    ensures
        s@ == spec_extended(path@, opt_view(query), ext@),
{
    let pc = chars_of(path);
    let ec = chars_of(ext);
    let (pa, pb) = trim_slashes_bounds(&pc);
    let (ea, eb) = trim_slashes_bounds(&ec);
    let mut out: Vec<char> = Vec::new();
    push_range(&mut out, &pc, pa, pb);
    out.push('/');
    push_range(&mut out, &ec, ea, eb);
    let ghost base = out@;
    assert(base =~= trim_slashes(path@) + seq!['/'] + trim_slashes(ext@));
    match query {
        Some(q) => {
            let qc = chars_of(q);
            out.push('?');
            push_range(&mut out, &qc, 0, qc.len());
            assert(qc@.subrange(0, qc@.len() as int) =~= q@);
            assert(out@ =~= base + seq!['?'] + q@);
        },
        None => {},
    }
    string_of(&out, 0, out.len())
}

/// Errors of building an upstream URI.
pub enum ExtendError {
    /// The joined text is not a valid path and query.
    PathAndQuery,
}

impl ExtendError {
    /// A description of the error.
    pub fn message(&self) -> (m: &'static str)
        ensures
            m@ == match self {
                ExtendError::PathAndQuery => "failed to build extended path"@,
            },
    {
        match self {
            ExtendError::PathAndQuery => "failed to build extended path",
        }
    }
}

/// The views of an optional string.
pub open spec fn opt_view(s: Option<&str>) -> Option<Seq<char>> {
    match s {
        Some(q) => Some(q@),
        None => None,
    }
}

/// The path and query, checked to be valid, of the request that forwards a
/// request with path extension `ext` to an upstream whose URI has the path
/// `path` and the query `query`: the path and `ext` joined by one slash,
/// followed by the query. It is refused exactly when that text is not a
/// valid path and query.
pub fn extend_path(path: &str, query: Option<&str>, ext: &str) -> (res: Result<String, ExtendError>)
    ensures
        res is Ok <==> path_and_query_accepted(spec_extended(path@, opt_view(query), ext@)),
        res matches Ok(t) ==> t@ == spec_extended(path@, opt_view(query), ext@),
        res is Err ==> res matches Err(ExtendError::PathAndQuery),
{
    let text = extend_path_text(path, query, ext);
    if path_and_query_valid(text.as_str()) {
        Ok(text)
    } else {
        Err(ExtendError::PathAndQuery)
    }
}

/// The kinds of content that a route hands requests to.
pub enum SourceVariant {
    StaticHtml,
    DynamicHtml,
    Http,
    Https,
    Unknown,
}

/// The first step in serving a request from a source.
pub enum ServeStep {
    /// Answer with the stored page.
    StaticPage,
    /// Read the page file and answer with its contents.
    ReadPage,
    /// Forward the request to the upstream.
    Forward,
    /// Answer with an error response of this status.
    Reply(u16),
}

/// How a source of kind `variant` serves a request: pages are answered, a
/// plain HTTP upstream is forwarded to when its URI names a host, and
/// anything else (no host, an HTTPS upstream, an unknown source) is
/// answered with 500.
pub open spec fn spec_serve_step(variant: SourceVariant, has_host: bool) -> ServeStep {
    match variant {
        SourceVariant::StaticHtml => ServeStep::StaticPage,
        SourceVariant::DynamicHtml => ServeStep::ReadPage,
        SourceVariant::Http => if has_host {
            ServeStep::Forward
        } else {
            ServeStep::Reply(INTERNAL_SERVER_ERROR)
        },
        SourceVariant::Https | SourceVariant::Unknown => ServeStep::Reply(INTERNAL_SERVER_ERROR),
    }
}

/// How a source of kind `variant` serves a request; `has_host` tells
/// whether the upstream URI names a host.
pub fn serve_step(variant: SourceVariant, has_host: bool) -> (s: ServeStep)
    ensures
        s == spec_serve_step(variant, has_host),
{
    match variant {
        SourceVariant::StaticHtml => ServeStep::StaticPage,
        SourceVariant::DynamicHtml => ServeStep::ReadPage,
        SourceVariant::Http => if has_host {
            ServeStep::Forward
        } else {
            ServeStep::Reply(INTERNAL_SERVER_ERROR)
        },
        SourceVariant::Https | SourceVariant::Unknown => ServeStep::Reply(INTERNAL_SERVER_ERROR),
    }
}

/// Why forwarding a request gave no response to pass on.
pub enum ForwardFailure {
    /// The request to the upstream could not be built.
    BuildRequest,
    /// The upstream could not be reached or did not answer.
    Unreachable,
    /// The upstream's response body could not be read.
    ReadResponse,
}

/// The status of the answer when forwarding failed: 502 when the upstream
/// could not be reached, 500 otherwise.
pub fn forward_failure_status(f: ForwardFailure) -> (code: u16)
    ensures
        code == match f {
            ForwardFailure::Unreachable => BAD_GATEWAY,
            _ => INTERNAL_SERVER_ERROR,
        },
{
    match f {
        ForwardFailure::Unreachable => BAD_GATEWAY,
        _ => INTERNAL_SERVER_ERROR,
    }
}

/// The upstream query is always kept: the forwarded path and query is the
/// forwarded path followed by `?` and the query, whatever the path
/// extension.
pub proof fn law_query_kept(path: Seq<char>, q: Seq<char>, ext: Seq<char>)
    ensures
        spec_extended(path, Some(q), ext) == spec_extended(path, None, ext) + seq!['?'] + q,
{
}

proof fn lemma_trim_plain(s: Seq<char>)
    requires
        s.len() > 0 ==> s[0] != '/' && s.last() != '/',
    ensures
        trim_slashes(s) == s,
        trim_slashes(seq!['/'] + s) == s,
        trim_slashes(s + seq!['/']) == s,
        trim_slashes(seq!['/'] + s + seq!['/']) == s,
{
    let a = seq!['/'] + s;
    let b = s + seq!['/'];
    let c = seq!['/'] + s + seq!['/'];
    assert(b.drop_last() =~= s);
    assert(c.drop_last() =~= a);
    assert(a.drop_first() =~= s);
    assert(trim_slashes_end(s) == s);
    assert(trim_slashes_end(b) == trim_slashes_end(s));
    assert(trim_slashes_end(c) == trim_slashes_end(a));
    if s.len() > 0 {
        assert(a.last() == s.last());
        assert(trim_slashes_end(a) == a);
        assert(trim_slashes_start(a) == trim_slashes_start(s));
    } else {
        assert(a.drop_last() =~= s);
        assert(trim_slashes_end(a) == trim_slashes_end(s));
    }
}

/// Upstream path and path extension are joined by exactly one slash:
/// for texts without outer slashes the result is the path, `/`, the
/// extension; one leading or trailing slash on either does not change it.
pub proof fn law_single_slash_join(path: Seq<char>, ext: Seq<char>)
    requires
        path.len() > 0 ==> path[0] != '/' && path.last() != '/',
        ext.len() > 0 ==> ext[0] != '/' && ext.last() != '/',
    ensures
        spec_extended(path, None, ext) == path + seq!['/'] + ext,
        spec_extended(seq!['/'] + path + seq!['/'], None, seq!['/'] + ext + seq!['/']) == path + seq!['/']
            + ext,
        spec_extended(seq!['/'] + path, None, ext + seq!['/']) == path + seq!['/'] + ext,
{
    lemma_trim_plain(path);
    lemma_trim_plain(ext);
}

} // verus!
