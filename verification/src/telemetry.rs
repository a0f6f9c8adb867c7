//! The telemetry tunnel's shared state: the latest robot snapshot, as JSON
//! text, that every connected websocket client is sent.
use vstd::prelude::*;

verus! {

/// The snapshot served before the first one is published: no legs yet.
pub open spec fn empty_snapshot() -> Seq<char> {
    "{\"type\":\"telemetry\",\"legs\":[]}"@
}

/// Holds the latest snapshot for the client connections to pick up.
pub struct TelemetryServer {
    latest: String,
}

impl TelemetryServer {
    /// The snapshot that clients are currently sent.
    pub closed spec fn latest_snapshot(self) -> Seq<char> {
        self.latest@
    }

    /// A server holding the empty snapshot.
    pub fn new() -> (r: TelemetryServer)
        ensures
            r.latest_snapshot() == empty_snapshot(),
    {
        TelemetryServer { latest: String::from_str("{\"type\":\"telemetry\",\"legs\":[]}") }
    }

    /// Replaces the latest snapshot with `json`.
    pub fn store(&mut self, json: String)
        ensures
            final(self).latest_snapshot() == json@,
    {
        self.latest = json;
    }

    /// A copy of the latest snapshot.
    pub fn latest(&self) -> (r: String)
        ensures
            r@ == self.latest_snapshot(),
    {
        self.latest.clone()
    }
}

} // verus!
