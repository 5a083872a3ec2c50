//! Decisions of the content-addressed-storage client setup. The probes
//! and connections themselves run outside the library; what to do with
//! their results is decided here.

use vstd::prelude::*;

verus! {

/// What probing one server API reported, in completion order.
#[derive(Clone, Copy, Debug, PartialEq, Eq, Structural)]
pub enum ApiProbe {
    /// The server speaks this API.
    Valid,
    /// The address is no server of this API; try the next probe.
    InvalidServer,
    /// The probe failed outright; give up on this address.
    Failed,
}

/// What to do after probing a server's APIs.
#[derive(Clone, Copy, Debug, PartialEq, Eq, Structural)]
pub enum ApiSelection {
    /// Use the API whose probe finished at this position.
    Chosen(usize),
    /// Fail with the error of the probe at this position.
    Fatal(usize),
    /// No probe recognized the server.
    UnknownServerKind,
}

/// Pick the first probe that found a valid API, stopping at the first
/// outright failure; when every probe reports an invalid server, the
/// server kind is unknown.
pub fn use_first_valid_api(probes: &Vec<ApiProbe>) -> (r: ApiSelection)
    ensures
        match r {
            ApiSelection::Chosen(i) => i < probes@.len() && probes@[i as int]
                == ApiProbe::Valid && forall|j: int|
                0 <= j < i ==> probes@[j] == ApiProbe::InvalidServer,
            ApiSelection::Fatal(i) => i < probes@.len() && probes@[i as int]
                == ApiProbe::Failed && forall|j: int|
                0 <= j < i ==> probes@[j] == ApiProbe::InvalidServer,
            ApiSelection::UnknownServerKind => forall|j: int|
                0 <= j < probes@.len() ==> probes@[j] == ApiProbe::InvalidServer,
        },
{
    let mut i: usize = 0;
    while i < probes.len()
        invariant
            i <= probes.len(),
            forall|j: int| 0 <= j < i ==> probes@[j] == ApiProbe::InvalidServer,
        decreases probes.len() - i,
    {
        match probes[i] {
            ApiProbe::Valid => {
                return ApiSelection::Chosen(i);
            },
            ApiProbe::Failed => {
                return ApiSelection::Fatal(i);
            },
            ApiProbe::InvalidServer => {},
        }
        i = i + 1;
    }
    ApiSelection::UnknownServerKind
}

/// How to arrange the clients that connected: none is a configuration
/// error, one is used directly, several form a pool that serves each
/// request from the fastest client.
#[derive(Clone, Copy, Debug, PartialEq, Eq, Structural)]
pub enum ClientArrangement {
    /// At least one server address is required.
    NoServers,
    /// Use the single client directly.
    Single,
    /// Pool this many clients.
    Pool(usize),
}

/// Decide the arrangement for `n` connected clients.
pub fn plan_clients(n: usize) -> (r: ClientArrangement)
    ensures
        r == (if n == 0 {
            ClientArrangement::NoServers
        } else if n == 1 {
            ClientArrangement::Single
        } else {
            ClientArrangement::Pool(n)
        }),
{
    if n == 0 {
        ClientArrangement::NoServers
    } else if n == 1 {
        ClientArrangement::Single
    } else {
        ClientArrangement::Pool(n)
    }
}

} // verus!
