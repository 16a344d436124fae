use vstd::prelude::*;

verus! {

/// What the backend reports back: the name of what happened and what it
/// carried.
#[derive(Clone, Debug, PartialEq, Eq)]
pub struct Message {
    pub name: String,
    pub detail: String,
}

/// A [`Message`] with its strings as sequences of characters.
pub struct MessageView {
    pub name: Seq<char>,
    pub detail: Seq<char>,
}

impl View for Message {
    type V = MessageView;

    open spec fn view(&self) -> MessageView {
        MessageView { name: self.name@, detail: self.detail@ }
    }
}

/// How the delivery of a message ended.
#[derive(Debug, PartialEq, Eq)]
pub enum MessageResult<A> {
    /// The view that the message was meant for answered with an action.
    Action(A),
    /// The view asks to be rebuilt though its description did not change.
    RequestRebuild,
    /// The message was taken and nothing follows from it.
    Nop,
    /// The view that the message was meant for is no longer there.
    Stale,
}

} // verus!
