use vstd::prelude::*;

pub mod broker;
pub mod cmd_parse;
pub mod queue;
pub mod server;
pub mod subscriber;
pub mod table;

verus! {

/// The payload that the server passes through its channels.
pub type Message = String;

} // verus!
