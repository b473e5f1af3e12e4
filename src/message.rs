use vstd::prelude::*;

verus! {

/// A payload that arrived from `sender`.
pub struct InputMessage<UserId, Message> {
    pub sender: UserId,
    pub message: Message,
}

/// A payload to be delivered to `recipient`.
pub struct OutputMessage<UserId, Message> {
    pub recipient: UserId,
    pub message: Message,
}

} // verus!
