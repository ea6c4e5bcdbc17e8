//! A set of request paths.
use vstd::prelude::*;

verus! {

/// A request path, as text.
pub struct Path {
    inner: String,
}

impl View for Path {
    type V = Seq<char>;

    closed spec fn view(&self) -> Seq<char> {
        self.inner@
    }
}

/// The paths known to the router.
pub struct Router {
    routes: Vec<Path>,
}

impl View for Router {
    type V = Seq<Seq<char>>;

    closed spec fn view(&self) -> Seq<Seq<char>> {
        self.routes@.map_values(|p: Path| p@)
    }
}

impl Router {
    /// A router that knows no path.
    pub fn new() -> (r: Self)
        ensures
            r@.len() == 0,
    {
        Router { routes: Vec::new() }
    }
}

impl Default for Router {
    fn default() -> (r: Self)
        ensures
            r@.len() == 0,
    {
        Router::new()
    }
}

} // verus!
