//! The endpoints at which the parts of a deployment find each other.

use vstd::prelude::*;

verus! {

/// The addresses of the control surface, of the stream server as a WebSocket
/// endpoint, and of the stream server.
#[derive(Clone, Copy, Debug)]
pub struct RemoteIOConfig {
    pub rest_endpoint: &'static str,
    pub ws_endpoint: &'static str,
    pub server_endpoint: &'static str,
}

impl RemoteIOConfig {
    /// The endpoints of a deployment on one machine.
    pub fn local() -> (c: RemoteIOConfig)
        ensures
            c.rest_endpoint@ == "http://0.0.0.0:3000"@,
            c.server_endpoint@ == "http://0.0.0.0:8000"@,
            c.ws_endpoint@ == "ws://0.0.0.0:8000"@,
    {
        RemoteIOConfig {
            rest_endpoint: "http://0.0.0.0:3000",
            server_endpoint: "http://0.0.0.0:8000",
            ws_endpoint: "ws://0.0.0.0:8000",
        }
    }
}

} // verus!
