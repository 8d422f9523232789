use vstd::prelude::*;

verus! {

/// Why a user left the server: of its own will, after a DISCONNECT packet,
/// or not, when its stream stopped delivering.
#[derive(Debug, PartialEq, Eq, Clone, Copy, Structural)]
pub enum DisconnectReason {
    Voluntaria,
    Involuntaria,
}

} // verus!
