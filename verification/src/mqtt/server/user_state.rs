use vstd::prelude::*;

verus! {

/// The state of a user known to the server: `Active` while its connection
/// works, `TemporallyDisconnected` after the connection ended abruptly, when
/// the user may still reconnect.
#[derive(Debug, PartialEq, Eq, Clone, Copy, Structural)]
pub enum UserState {
    Active,
    TemporallyDisconnected,
}

} // verus!
