use vstd::prelude::*;

use crate::broker::{Broker, ClientSubscription, SubscribeError, UnsubscribeError};
use crate::cmd_parse::{
    lemma_parsed_lists_are_empty, parse_cmd, parse_panics, parse_would_panic, spec_parse, ChanList, Command, CommandModel,
};

verus! {

/// What the server does after it has handled one line from a client.
#[derive(Debug)]
pub enum Outcome {
    /// Nothing to answer.
    Done,
    /// A `PUB`: the message is to be published on the channel.
    Publish { channel: String, message: String },
    /// The line is not a command; the client is told that it could not be parsed.
    NotParsed,
    /// A subscription failed; the connection's task gives up.
    SubscribeFailed(SubscribeError),
    /// An unsubscription failed; the connection's task gives up.
    UnsubscribeFailed(UnsubscribeError),
    /// A `PUBSUB` line that the parser gives up on; the connection's task gives up.
    ParserGaveUp,
    /// A command that the server does not carry out yet; the connection's task gives up.
    NotImplemented,
}

/// Carries out one line that `client` sent: the line is parsed, and its
/// subscriptions and unsubscriptions are made on `broker` in order; the first
/// one that fails ends the line. A `PUB` changes nothing here: it is handed
/// back, for the caller to publish.
pub fn handle_line<M>(broker: &mut Broker<M>, client: &ClientSubscription<M>, line: &str) -> (o:
    Outcome)
    requires
        old(broker).wf(),
    ensures
        final(broker).wf(),
        parse_panics(line@) ==> o is ParserGaveUp && final(broker)@ == old(broker)@
            && final(broker).queues() == old(broker).queues(),
        !parse_panics(line@) ==> match spec_parse(line@) {
            Err(_) => o is NotParsed && final(broker)@ == old(broker)@ && final(broker).queues()
                == old(broker).queues(),
            Ok(CommandModel::Pub { channel, message }) => o matches Outcome::Publish {
                channel: c,
                message: m,
            } && c@ == channel && m@ == message && final(broker)@ == old(broker)@
                && final(broker).queues() == old(broker).queues(),
            Ok(CommandModel::Sub { .. }) => o is Done && final(broker)@ == old(broker)@
                && final(broker).queues() == old(broker).queues(),
            Ok(CommandModel::UnSub { channels: crate::cmd_parse::ChanListModel::All }) => o is Done
                && final(broker)@.channels == crate::broker::without_subscriber_everywhere(
                old(broker)@.channels,
                client@,
            ) && final(broker)@.next_id == old(broker)@.next_id && final(broker).queues() == old(
                broker,
            ).queues().remove(client@),
            Ok(CommandModel::UnSub { .. }) => o is Done && final(broker)@ == old(broker)@
                && final(broker).queues() == old(broker).queues(),
            Ok(_) => o is NotImplemented && final(broker)@ == old(broker)@ && final(broker).queues()
                == old(broker).queues(),
        },
{
    if parse_would_panic(line) {
        return Outcome::ParserGaveUp;
    }
    proof {
        lemma_parsed_lists_are_empty(line@);
    }
    match parse_cmd(line) {
        Err(_) => Outcome::NotParsed,
        Ok(Command::Pub { channel, message }) => Outcome::Publish {
            channel: channel.to_owned(),
            message: message.to_owned(),
        },
        Ok(Command::Sub { channels }) => {
            let mut i: usize = 0;
            while i < channels.len()
                invariant
                    0 <= i <= channels@.len(),
                    channels@.len() == 0,
                    broker.wf(),
                    broker@ == old(broker)@,
                    broker.queues() == old(broker).queues(),
                decreases channels@.len() - i,
            {
                match broker.subscribe(channels[i].to_owned(), client.clone()) {
                    Ok(()) => {},
                    Err(e) => {
                        return Outcome::SubscribeFailed(e);
                    },
                }
                i = i + 1;
            }
            Outcome::Done
        },
        Ok(Command::UnSub { channels: ChanList::All }) => {
            broker.unsubscribe_all(client);
            Outcome::Done
        },
        Ok(Command::UnSub { channels: ChanList::Many(channels) }) => {
            let mut i: usize = 0;
            while i < channels.len()
                invariant
                    0 <= i <= channels@.len(),
                    channels@.len() == 0,
                    broker.wf(),
                    broker@ == old(broker)@,
                    broker.queues() == old(broker).queues(),
                decreases channels@.len() - i,
            {
                match broker.unsubscribe(channels[i], client) {
                    Ok(()) => {},
                    Err(e) => {
                        return Outcome::UnsubscribeFailed(e);
                    },
                }
                i = i + 1;
            }
            Outcome::Done
        },
        Ok(_) => Outcome::NotImplemented,
    }
}

} // verus!
