use vstd::prelude::*;

use tokio::sync::mpsc::Sender;

use crate::Message;

pub use crate::cmd_parse::{ChanList, Command, CommandParsingError, PubSubSubCmd};

verus! {

/// How many messages wait, at most, in a subscriber's queue.
pub const CHANNEL_BOUNDED_SIZE: usize = 8;

/// A connected subscriber: its id and the sending end of its queue.
pub struct Subscriber {
    id: u64,
    pub(crate) sender: Sender<Message>,
}

impl Subscriber {
    /// A subscriber with the id `id`, whose messages go to `sender`.
    pub fn new(id: u64, sender: Sender<Message>) -> (s: Self)
        ensures
            s.id() == id,
            s.queue() == sender,
    {
        Subscriber { id, sender }
    }

    /// The sending end of the subscriber's queue.
    pub closed spec fn queue(&self) -> Sender<Message> {
        self.sender
    }

    /// The subscriber's id.
    pub closed spec fn spec_id(&self) -> u64 {
        self.id
    }

    /// The subscriber's id.
    #[verifier::when_used_as_spec(spec_id)]
    pub fn id(&self) -> (id: u64)
        ensures
            id == self.spec_id(),
    {
        self.id
    }
}

} // verus!
