use vstd::prelude::*;

verus! {

/// Whether the server kept a session for the client from an earlier
/// connection: the low bit of the CONNACK's acknowledge flags.
#[derive(Debug, Clone, Copy, PartialEq, Eq, Structural)]
pub enum SessionPresent {
    PresentInLastSession,
    NotPresentInLastSession,
}

/// The acknowledge flags byte for `s`.
pub open spec fn session_present_value(s: SessionPresent) -> u8 {
    match s {
        SessionPresent::PresentInLastSession => 1,
        SessionPresent::NotPresentInLastSession => 0,
    }
}

impl SessionPresent {
    /// The acknowledge flags byte for this value.
    pub fn to_byte(&self) -> (r: u8)
        ensures
            r == session_present_value(*self),
    {
        match self {
            SessionPresent::PresentInLastSession => 1,
            SessionPresent::NotPresentInLastSession => 0,
        }
    }

    /// The value whose low bit `b` carries.
    pub fn from_byte(b: u8) -> (r: SessionPresent)
        ensures
            r == (if b & 1u8 == 1 {
                SessionPresent::PresentInLastSession
            } else {
                SessionPresent::NotPresentInLastSession
            }),
    {
        if b & 1 == 1 {
            SessionPresent::PresentInLastSession
        } else {
            SessionPresent::NotPresentInLastSession
        }
    }
}

} // verus!
