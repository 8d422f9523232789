use vstd::prelude::*;

verus! {

/// Accepts the connections that reach the broker, one reader per client.
#[derive(Debug)]
pub struct ClientListener {}

impl ClientListener {
    pub fn new() -> (r: Self) {
        ClientListener {}
    }
}

impl Default for ClientListener {
    fn default() -> (r: Self) {
        Self::new()
    }
}

} // verus!
