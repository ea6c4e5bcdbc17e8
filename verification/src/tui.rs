//! What the terminal interface shows of the gateway.
use vstd::prelude::*;

verus! {

#[derive(Clone, Copy, PartialEq, Eq, Structural)]
pub enum Status {
    Healthy,
    Unhealthy,
    Unknown,
}

impl Status {
    /// The text shown for the status.
    pub fn label(&self) -> (s: &'static str)
        ensures
            s@ == match self {
                Status::Healthy => "Healthy"@,
                Status::Unhealthy => "Unhealthy"@,
                Status::Unknown => "Unknown"@,
            },
    {
        match self {
            Status::Healthy => "Healthy",
            Status::Unhealthy => "Unhealthy",
            Status::Unknown => "Unknown",
        }
    }
}

pub enum Ssl {
    Disabled,
}

impl Ssl {
    /// The text shown for the TLS mode.
    pub fn label(&self) -> (s: &'static str)
        ensures
            s@ == match self {
                Ssl::Disabled => "Disabled"@,
            },
    {
        match self {
            Ssl::Disabled => "Disabled",
        }
    }
}

} // verus!
