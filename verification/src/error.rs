//! The faults a node can meet.
use vstd::prelude::*;

verus! {

/// Why a step of the node failed.
#[derive(Clone, Copy, Debug, PartialEq, Eq, Structural)]
pub enum Error {
    /// A line is not a JSON document.
    Malformed,
    /// A document is not an envelope: it lacks `src`, `dest` or `body`, or
    /// holds one of them, `msg_id` or `in_reply_to` in a wrong shape.
    Envelope,
    /// The body of an envelope is not a payload of the expected kind.
    Payload,
    /// The first envelope is not `init`.
    InitNotFirst,
    /// The node's own identifier is not among those of the cluster.
    Stranger,
    /// An outbound envelope cannot be written as a line.
    Unprintable,
    /// A service answered with a payload that its protocol does not allow.
    UnexpectedReply,
    /// A sum does not fit 32 bits.
    Overflow,
}

impl Error {
    /// A sentence for the diagnostic stream.
    pub fn message(&self) -> (text: String)
        ensures
            text@ == self.message_text(),
    {
        match self {
            Error::Malformed => "Couldn't deserialize Message".to_owned(),
            Error::Envelope => "Message is not an envelope".to_owned(),
            Error::Payload => "Couldn't convert payload type!".to_owned(),
            Error::InitNotFirst => "Did not get Init message as first message".to_owned(),
            Error::Stranger => "Expected node_id to be in list of node_ids".to_owned(),
            Error::Unprintable => "Failed to serialize Message".to_owned(),
            Error::UnexpectedReply => "Unexpected payload in response".to_owned(),
            Error::Overflow => "Sum does not fit 32 bits".to_owned(),
        }
    }

    /// The sentence that [`Error::message`] returns.
    pub open spec fn message_text(&self) -> Seq<char> {
        match self {
            Error::Malformed => "Couldn't deserialize Message"@,
            Error::Envelope => "Message is not an envelope"@,
            Error::Payload => "Couldn't convert payload type!"@,
            Error::InitNotFirst => "Did not get Init message as first message"@,
            Error::Stranger => "Expected node_id to be in list of node_ids"@,
            Error::Unprintable => "Failed to serialize Message"@,
            Error::UnexpectedReply => "Unexpected payload in response"@,
            Error::Overflow => "Sum does not fit 32 bits"@,
        }
    }
}

} // verus!
