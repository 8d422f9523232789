use vstd::prelude::*;

verus! {

/// The will message and will topic that a client may send in its CONNECT.
#[derive(Debug, PartialEq)]
pub struct WillMessageAndTopic {
    pub will_message: String,
    pub will_topic: String,
}

impl WillMessageAndTopic {
    /// A will message with its topic.
    pub fn new(will_message: String, will_topic: String) -> (r: Self)
        ensures
            r.will_message@ == will_message@,
            r.will_topic@ == will_topic@,
    {
        Self { will_message, will_topic }
    }
}

} // verus!
