use vstd::prelude::*;

verus! {

/// The payload of a PUBLISH packet.
#[derive(Debug, Clone, PartialEq)]
pub struct Payload {
    pub content: Vec<u8>,
}

} // verus!
