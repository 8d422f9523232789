use vstd::prelude::*;

verus! {

/// The payload of a CONNECT packet; each field that is present is sent as
/// its length in one byte followed by its UTF-8 bytes.
#[derive(Debug, PartialEq)]
pub struct Payload {
    pub client_id: String,
    pub will_topic: Option<String>,
    pub will_message: Option<String>,
    pub username: Option<String>,
    pub password: Option<String>,
}

} // verus!
