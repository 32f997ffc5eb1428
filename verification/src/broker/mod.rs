use vstd::prelude::*;

use std::collections::HashMap;

use tokio::sync::mpsc::{Receiver, Sender};

use crate::cmd_parse::texts;
use crate::queue::open_queue;
use crate::table::{
    channel_table, id_set_new, table_alter, table_alter_all, table_contains, table_insert,
    table_members, table_names, table_new, ChannelTable,
};

verus! {

broadcast use vstd::std_specs::hash::group_hash_axioms;

/// How many messages wait, at most, in a client's queue.
pub const MESSAGE_CHANNEL_QUEUE_LIMIT: usize = 8;

/// A client of the broker: its id and the sending end of its queue. Two
/// subscriptions are equal when their ids are.
#[verifier::reject_recursive_types(M)]
pub struct ClientSubscription<M> {
    id: u64,
    tx: Sender<M>,
}

impl<M> View for ClientSubscription<M> {
    type V = u64;

    /// A subscription stands for its client's id.
    closed spec fn view(&self) -> u64 {
        self.id
    }
}

impl<M> ClientSubscription<M> {
    /// The sending end of the client's queue.
    pub closed spec fn queue(&self) -> Sender<M> {
        self.tx
    }

    /// The sending end of the client's queue, to use in place: what is done
    /// through it is done to this subscription's queue handle, and the id stays.
    pub fn sender(&mut self) -> (tx: &mut Sender<M>)
        ensures
            *tx == old(self).queue(),
            final(self).queue() == *final(tx),
            final(self)@ == old(self)@,
    {
        &mut self.tx
    }

    /// The client's id.
    pub fn id(&self) -> (id: u64)
        ensures
            id == self@,
    {
        self.id
    }
}

impl<M> Clone for ClientSubscription<M> {
    /// The same client: its id, and another sending end of its queue.
    fn clone(&self) -> (r: Self)
        ensures
            r@ == self@,
            r.queue() == self.queue(),
    {
        ClientSubscription { id: self.id, tx: self.tx.clone() }
    }
}

impl<M> PartialEq for ClientSubscription<M> {
    fn eq(&self, other: &Self) -> (r: bool) {
        self.id == other.id
    }
}

impl<M> vstd::std_specs::cmp::PartialEqSpecImpl for ClientSubscription<M> {
    open spec fn obeys_eq_spec() -> bool {
        true
    }

    open spec fn eq_spec(&self, other: &Self) -> bool {
        self@ == other@
    }
}

impl<M> Eq for ClientSubscription<M> {}

/// `<u64 as Hash>::hash`: feeds the integer to the hasher. Nothing is stated of
/// the hasher's state afterwards.
pub assume_specification<H: core::hash::Hasher>[ <u64 as core::hash::Hash>::hash::<H> ](
    v: &u64,
    state: &mut H,
);

impl<M> core::hash::Hash for ClientSubscription<M> {
    /// A subscription hashes as its id, so that equal subscriptions hash alike.
    fn hash<H: core::hash::Hasher>(&self, state: &mut H) {
        self.id.hash(state);
    }
}

/// What a broker holds: its channels, each with the ids of its subscribers,
/// and the id that the next client gets.
pub struct BrokerModel {
    pub channels: Map<Seq<char>, Set<u64>>,
    pub next_id: u64,
}

/// A publish/subscribe broker: named channels, each with a set of subscribed
/// clients, and a counter from which clients get their ids.
///
/// The channel table holds client ids; the sending end of each subscribed
/// client's queue is kept once, under its id, in `clients`. The operations
/// that change the broker take `&mut self`: a broker shared between tasks is
/// held behind a lock.
#[verifier::reject_recursive_types(M)]
pub struct Broker<M> {
    channels: ChannelTable,
    clients: HashMap<u64, Sender<M>>,
    seq: u64,
}

impl<M> View for Broker<M> {
    type V = BrokerModel;

    closed spec fn view(&self) -> BrokerModel {
        BrokerModel { channels: channel_table(self.channels), next_id: self.seq }
    }
}

/// The id after `id`; the counter wraps around, as `AtomicU64::fetch_add` does.
pub open spec fn next_id_after(id: u64) -> u64 {
    if id == u64::MAX {
        0
    } else {
        (id + 1) as u64
    }
}

/// `channels` where `id` has been added to the channel `name`.
pub open spec fn with_subscriber(channels: Map<Seq<char>, Set<u64>>, name: Seq<char>, id: u64) -> Map<
    Seq<char>,
    Set<u64>,
> {
    channels.insert(name, channels[name].insert(id))
}

/// `channels` where `id` has been taken out of the channel `name`.
pub open spec fn without_subscriber(channels: Map<Seq<char>, Set<u64>>, name: Seq<char>, id: u64) -> Map<
    Seq<char>,
    Set<u64>,
> {
    channels.insert(name, channels[name].remove(id))
}

/// `channels` where `id` has been taken out of each channel named in `names`.
pub open spec fn without_subscriber_in(
    channels: Map<Seq<char>, Set<u64>>,
    names: Seq<Seq<char>>,
    id: u64,
) -> Map<Seq<char>, Set<u64>> {
    Map::new(
        |k: Seq<char>| channels.contains_key(k),
        |k: Seq<char>|
            if names.contains(k) {
                channels[k].remove(id)
            } else {
                channels[k]
            },
    )
}

/// `channels` where `id` has been taken out of every channel.
pub open spec fn without_subscriber_everywhere(channels: Map<Seq<char>, Set<u64>>, id: u64) -> Map<
    Seq<char>,
    Set<u64>,
> {
    channels.map_values(|s: Set<u64>| s.remove(id))
}

/// The ids of a list of subscriptions.
pub open spec fn subscription_ids<M>(s: Seq<ClientSubscription<M>>) -> Seq<u64> {
    s.map_values(|c: ClientSubscription<M>| c@)
}

/// How many deliveries in `outcomes` succeeded.
pub open spec fn delivered_count(outcomes: Seq<(bool, u64)>) -> nat
    decreases outcomes.len(),
{
    if outcomes.len() == 0 {
        0
    } else {
        delivered_count(outcomes.drop_last()) + if outcomes.last().0 {
            1nat
        } else {
            0nat
        }
    }
}

/// The ids whose delivery in `outcomes` succeeded.
pub open spec fn delivered_ids(outcomes: Seq<(bool, u64)>) -> Set<u64>
    decreases outcomes.len(),
{
    if outcomes.len() == 0 {
        Set::empty()
    } else if outcomes.last().0 {
        delivered_ids(outcomes.drop_last()).insert(outcomes.last().1)
    } else {
        delivered_ids(outcomes.drop_last())
    }
}

/// Whether `id` occurs in `v`.
fn contains_id(v: &Vec<u64>, id: u64) -> (b: bool)
    ensures
        b == v@.contains(id),
{
    let mut i: usize = 0;
    while i < v.len()
        invariant
            0 <= i <= v@.len(),
            forall|j: int| 0 <= j < i ==> v@[j] != id,
        decreases v@.len() - i,
    {
        if v[i] == id {
            return true;
        }
        i = i + 1;
    }
    false
}

/// Whether `id` is subscribed to some channel of `channels`.
pub open spec fn is_subscribed(channels: Map<Seq<char>, Set<u64>>, id: u64) -> bool {
    exists|k: Seq<char>| channels.contains_key(k) && #[trigger] channels[k].contains(id)
}

/// The ids subscribed to some channel of `channels`.
pub open spec fn subscribed_ids(channels: Map<Seq<char>, Set<u64>>) -> Set<u64> {
    Set::new(|id: u64| is_subscribed(channels, id))
}

/// A change of the channel table that keeps every channel, and every
/// subscription of an id outside `except`, keeps those ids subscribed.
proof fn lemma_subscriptions_kept(
    before: Map<Seq<char>, Set<u64>>,
    after: Map<Seq<char>, Set<u64>>,
    except: Set<u64>,
)
    requires
        forall|k: Seq<char>, id: u64|
            before.contains_key(k) && !except.contains(id) && #[trigger] before[k].contains(id)
                ==> after.contains_key(k) && after[k].contains(id),
    ensures
        forall|id: u64| !except.contains(id) && is_subscribed(before, id) ==> is_subscribed(after, id),
{
    assert forall|id: u64| !except.contains(id) && is_subscribed(before, id) implies is_subscribed(
        after,
        id,
    ) by {
        let k = choose|k: Seq<char>| before.contains_key(k) && #[trigger] before[k].contains(id);
        assert(after.contains_key(k) && after[k].contains(id));
    }
}

/// A change of the channel table that only takes subscriptions out leaves no
/// id subscribed that was not subscribed before.
proof fn lemma_no_new_subscriptions(before: Map<Seq<char>, Set<u64>>, after: Map<Seq<char>, Set<u64>>)
    requires
        forall|k: Seq<char>, id: u64|
            after.contains_key(k) && #[trigger] after[k].contains(id) ==> before.contains_key(k)
                && before[k].contains(id),
    ensures
        subscribed_ids(after).subset_of(subscribed_ids(before)),
{
    assert forall|id: u64| subscribed_ids(after).contains(id) implies subscribed_ids(
        before,
    ).contains(id) by {
        let k = choose|k: Seq<char>| after.contains_key(k) && #[trigger] after[k].contains(id);
        assert(before.contains_key(k) && before[k].contains(id));
    }
}

/// A record that only lost entries, and whose entries are exactly `keys`,
/// is the old record cut down to `keys`.
proof fn lemma_record_cut<V>(before: Map<u64, V>, after: Map<u64, V>, keys: Set<u64>)
    requires
        forall|id: u64| #[trigger] after.contains_key(id) ==> before.contains_key(id) && after[id]
            == before[id],
        after.dom() == keys,
        keys.subset_of(before.dom()),
    ensures
        after == before.restrict(keys),
{
    assert(after =~= before.restrict(keys));
}

/// Where every id subscribed before a change, other than those in `gone`, is
/// in `recorded`, and the change leaves no id of `gone` subscribed and adds
/// subscriptions only of ids in `added`, which are in `recorded` too, every id
/// subscribed after the change is in `recorded`.
proof fn lemma_records_cover(
    before: Map<Seq<char>, Set<u64>>,
    after: Map<Seq<char>, Set<u64>>,
    recorded: Set<u64>,
    added: Set<u64>,
    gone: Set<u64>,
)
    requires
        forall|name: Seq<char>, id: u64|
            before.contains_key(name) && #[trigger] before[name].contains(id) && !gone.contains(id)
                ==> recorded.contains(id),
        added.subset_of(recorded),
        forall|name: Seq<char>, id: u64|
            after.contains_key(name) && #[trigger] after[name].contains(id) ==> !gone.contains(id)
                && (added.contains(id) || (before.contains_key(name) && before[name].contains(id))),
    ensures
        forall|name: Seq<char>, id: u64|
            after.contains_key(name) && #[trigger] after[name].contains(id) ==> recorded.contains(id),
{
}

impl<M> Broker<M> {
    /// The sending end on record for each id: the queue that a message
    /// published to that id goes to.
    pub closed spec fn queues(&self) -> Map<u64, Sender<M>> {
        self.clients@
    }

    /// Every id subscribed to a channel has the sending end of its queue on record.
    closed spec fn covers(&self) -> bool {
        forall|name: Seq<char>, id: u64|
            channel_table(self.channels).contains_key(name) && #[trigger] channel_table(
                self.channels,
            )[name].contains(id) ==> self.clients@.contains_key(id)
    }

    /// Every id on record other than `x` is subscribed to some channel.
    closed spec fn tight_except(&self, x: u64) -> bool {
        forall|id: u64| #[trigger]
            self.clients@.contains_key(id) && id != x ==> is_subscribed(
                channel_table(self.channels),
                id,
            )
    }

    /// The sending ends on record are exactly those of the subscribed ids.
    pub closed spec fn wf(&self) -> bool {
        &&& self.covers()
        &&& forall|id: u64| #[trigger]
            self.clients@.contains_key(id) ==> is_subscribed(channel_table(self.channels), id)
    }

    /// In a well-formed broker, a sending end is on record for exactly the
    /// subscribed ids.
    pub proof fn lemma_queues_are_subscribers(&self)
        requires
            self.wf(),
        ensures
            self.queues().dom() == subscribed_ids(self@.channels),
    {
        assert forall|id: u64| #[trigger]
            subscribed_ids(self@.channels).contains(id) implies self.queues().contains_key(id) by {
            let k = choose|k: Seq<char>|
                channel_table(self.channels).contains_key(k) && #[trigger] channel_table(
                    self.channels,
                )[k].contains(id);
        }
        assert(self.queues().dom() =~= subscribed_ids(self@.channels));
    }

    /// A broker with no channel, whose first client gets the id 0.
    pub fn new() -> (b: Self)
        ensures
            b.wf(),
            b@.channels.dom() == Set::<Seq<char>>::empty(),
            b@.next_id == 0,
            b.queues().dom() == Set::<u64>::empty(),
    {
        Broker { channels: table_new(), clients: HashMap::new(), seq: 0 }
    }

    /// Registers a new client: its queue, and its subscription, whose id is
    /// the counter's value; the counter moves on.
    pub fn new_client(&mut self) -> (r: (Receiver<M>, ClientSubscription<M>))
        requires
            old(self).wf(),
        ensures
            final(self).wf(),
            r.1@ == old(self)@.next_id,
            final(self)@.next_id == next_id_after(old(self)@.next_id),
            final(self)@.channels == old(self)@.channels,
            final(self).queues() == old(self).queues(),
    {
        let (tx, rx) = open_queue(MESSAGE_CHANNEL_QUEUE_LIMIT);
        let id = self.seq;
        self.seq = if self.seq == u64::MAX {
            0
        } else {
            self.seq + 1
        };
        (rx, ClientSubscription { id, tx })
    }

    /// Whether `id` is subscribed to some channel.
    fn subscribed_anywhere(&self, id: u64) -> (b: bool)
        ensures
            b == is_subscribed(self@.channels, id),
    {
        let names = table_names(&self.channels);
        let mut i: usize = 0;
        while i < names.len()
            invariant
                0 <= i <= names@.len(),
                forall|j: int|
                    0 <= j < names@.len() ==> channel_table(self.channels).contains_key(
                        #[trigger] names@[j]@,
                    ),
                forall|k: Seq<char>|
                    channel_table(self.channels).contains_key(k) ==> exists|j: int|
                        0 <= j < names@.len() && #[trigger] names@[j]@ == k,
                forall|j: int|
                    0 <= j < i ==> !channel_table(self.channels)[#[trigger] names@[j]@].contains(
                        id,
                    ),
            decreases names@.len() - i,
        {
            match table_members(&self.channels, names[i].as_str()) {
                Some(members) => {
                    if contains_id(&members, id) {
                        assert(members@.to_set().contains(id));
                        assert(channel_table(self.channels).contains_key(names@[i as int]@));
                        assert(channel_table(self.channels)[names@[i as int]@].contains(id));
                        return true;
                    }
                },
                None => {},
            }
            i = i + 1;
        }
        assert forall|k: Seq<char>|
            channel_table(self.channels).contains_key(k) implies !#[trigger] channel_table(
            self.channels,
        )[k].contains(id) by {
            let j = choose|j: int| 0 <= j < names@.len() && #[trigger] names@[j]@ == k;
        }
        false
    }

    /// Takes the sending end of `id` off the record where `id` is subscribed
    /// to no channel any more.
    fn forget_if_unsubscribed(&mut self, id: u64)
        requires
            old(self).covers(),
            old(self).tight_except(id),
        ensures
            final(self).wf(),
            final(self)@ == old(self)@,
            final(self).queues() == (if is_subscribed(old(self)@.channels, id) {
                old(self).queues()
            } else {
                old(self).queues().remove(id)
            }),
    {
        if !self.subscribed_anywhere(id) {
            self.clients.remove(&id);
        }
    }

    /// Subscribes `client` to the channel `channel`, which must exist. Where
    /// no sending end is on record for the client's id yet, the client's own
    /// is recorded.
    pub fn subscribe(&mut self, channel: String, client: ClientSubscription<M>) -> (r: Result<
        (),
        SubscribeError,
    >)
        requires
            old(self).wf(),
        ensures
            final(self).wf(),
            final(self)@.next_id == old(self)@.next_id,
            r is Ok <==> old(self)@.channels.contains_key(channel@),
            r is Ok ==> final(self)@.channels == with_subscriber(
                old(self)@.channels,
                channel@,
                client@,
            ),
            r is Ok ==> final(self).queues() == (if old(self).queues().contains_key(client@) {
                old(self).queues()
            } else {
                old(self).queues().insert(client@, client.queue())
            }),
            r matches Err(e) ==> e is ChannelNotFound && final(self)@ == old(self)@
                && final(self).queues() == old(self).queues(),
    {
        if !table_contains(&self.channels, channel.as_str()) {
            return Err(SubscribeError::ChannelNotFound);
        }
        let id = client.id;
        if !self.clients.contains_key(&id) {
            self.clients.insert(id, client.tx);
        }
        let ghost before = channel_table(self.channels);
        table_alter(&mut self.channels, channel.as_str(), id, true);
        let ghost after = channel_table(self.channels);
        proof {
            lemma_records_cover(before, after, self.clients@.dom(), set![id], Set::empty());
            lemma_subscriptions_kept(before, after, Set::empty());
            assert(after.contains_key(channel@) && after[channel@].contains(id));
        }
        Ok(())
    }

    /// Unsubscribes `client` from the channel `channel`. The sending end of a
    /// client that is then subscribed nowhere is taken off the record.
    pub fn unsubscribe(&mut self, channel: &str, client: &ClientSubscription<M>) -> (r: Result<
        (),
        UnsubscribeError,
    >)
        requires
            old(self).wf(),
        ensures
            final(self).wf(),
            final(self)@.next_id == old(self)@.next_id,
            !old(self)@.channels.contains_key(channel@) ==> r matches Err(
                UnsubscribeError::ChannelNotFound,
            ),
            old(self)@.channels.contains_key(channel@) && !old(self)@.channels[channel@].contains(
                client@,
            ) ==> r matches Err(UnsubscribeError::AlreadyNotSubscribed),
            old(self)@.channels.contains_key(channel@) && old(self)@.channels[channel@].contains(
                client@,
            ) ==> r is Ok,
            r is Ok ==> final(self)@.channels == without_subscriber(
                old(self)@.channels,
                channel@,
                client@,
            ),
            final(self).queues() == old(self).queues().restrict(
                subscribed_ids(final(self)@.channels),
            ),
            r is Err ==> final(self)@ == old(self)@,
            final(self)@.channels == after_unsubscribe(old(self)@.channels, channel@, client@),
    {
        proof {
            self.lemma_queues_are_subscribers();
            assert(self.queues() =~= self.queues().restrict(subscribed_ids(self@.channels)));
        }
        let members = match table_members(&self.channels, channel) {
            None => return Err(UnsubscribeError::ChannelNotFound),
            Some(members) => members,
        };
        if !contains_id(&members, client.id) {
            return Err(UnsubscribeError::AlreadyNotSubscribed);
        }
        let ghost before = channel_table(self.channels);
        let ghost before_queues = self.clients@;
        let id = client.id;
        table_alter(&mut self.channels, channel, id, false);
        let ghost after = channel_table(self.channels);
        proof {
            lemma_subscriptions_kept(before, after, set![id]);
            lemma_no_new_subscriptions(before, after);
        }
        self.forget_if_unsubscribed(id);
        proof {
            self.lemma_queues_are_subscribers();
            lemma_record_cut(before_queues, self.clients@, subscribed_ids(after));
        }
        Ok(())
    }

    /// Unsubscribes `client` from each of the channels `channels` that exists.
    /// The sending end of a client that is then subscribed nowhere is taken
    /// off the record.
    pub fn unsubscribe_many(&mut self, channels: &[&str], client: &ClientSubscription<M>)
        requires
            old(self).wf(),
        ensures
            final(self).wf(),
            final(self)@.next_id == old(self)@.next_id,
            final(self)@.channels == without_subscriber_in(
                old(self)@.channels,
                texts(channels@),
                client@,
            ),
            final(self).queues() == old(self).queues().restrict(
                subscribed_ids(final(self)@.channels),
            ),
            (final(self)@.channels, final(self).queues()) == after_unsubscribe_each(
                old(self)@.channels,
                old(self).queues(),
                texts(channels@),
                client@,
            ),
    {
        let ghost start = channel_table(self.channels);
        let ghost start_queues = self.clients@;
        proof {
            self.lemma_queues_are_subscribers();
            lemma_unsubscribe_many_is_each(start, start_queues, texts(channels@), client@);
        }
        let id = client.id;
        let mut i: usize = 0;
        assert(channel_table(self.channels) =~= without_subscriber_in(
            start,
            texts(channels@.take(0)),
            id,
        ));
        while i < channels.len()
            invariant
                0 <= i <= channels@.len(),
                id == client@,
                self.covers(),
                self.tight_except(id),
                self.clients@ == start_queues,
                start_queues.dom() == subscribed_ids(start),
                self.seq == old(self).seq,
                channel_table(self.channels) == without_subscriber_in(
                    start,
                    texts(channels@.take(i as int)),
                    id,
                ),
            decreases channels@.len() - i,
        {
            let ghost before = channel_table(self.channels);
            let ghost names = texts(channels@.take(i as int));
            let ghost names2 = texts(channels@.take(i + 1));
            assert(names2 =~= names.push(channels@[i as int]@));
            assert forall|x: Seq<char>| #[trigger] names2.contains(x) <==> (names.contains(x) || x
                == channels@[i as int]@) by {
                if names2.contains(x) {
                    let j = choose|j: int| 0 <= j < names2.len() && #[trigger] names2[j] == x;
                    if j < i {
                        assert(names[j] == x);
                    }
                }
                if names.contains(x) {
                    let j = choose|j: int| 0 <= j < names.len() && #[trigger] names[j] == x;
                    assert(names2[j] == x);
                }
                if x == channels@[i as int]@ {
                    assert(names2[i as int] == x);
                }
            }
            table_alter(&mut self.channels, channels[i], id, false);
            assert(channel_table(self.channels) =~= without_subscriber_in(start, names2, id)) by {
                assert forall|k: Seq<char>| #[trigger]
                    channel_table(self.channels).contains_key(k) implies channel_table(
                    self.channels,
                )[k] =~= without_subscriber_in(start, names2, id)[k] by {}
            }
            let ghost after = channel_table(self.channels);
            proof {
                lemma_records_cover(before, after, self.clients@.dom(), Set::empty(), Set::empty());
                lemma_subscriptions_kept(before, after, set![id]);
            }
            i = i + 1;
        }
        assert(channels@.take(channels@.len() as int) =~= channels@);
        let ghost after = channel_table(self.channels);
        proof {
            lemma_no_new_subscriptions(start, after);
        }
        self.forget_if_unsubscribed(id);
        proof {
            self.lemma_queues_are_subscribers();
            lemma_record_cut(start_queues, self.clients@, subscribed_ids(after));
        }
    }

    /// Unsubscribes `client` from every channel, and takes its sending end off
    /// the record.
    pub fn unsubscribe_all(&mut self, client: &ClientSubscription<M>)
        requires
            old(self).wf(),
        ensures
            final(self).wf(),
            final(self)@.next_id == old(self)@.next_id,
            final(self)@.channels == without_subscriber_everywhere(old(self)@.channels, client@),
            final(self).queues() == old(self).queues().remove(client@),
    {
        let ghost before = channel_table(self.channels);
        let id = client.id;
        table_alter_all(&mut self.channels, id);
        let ghost after = channel_table(self.channels);
        self.clients.remove(&id);
        proof {
            lemma_records_cover(before, after, self.clients@.dom(), Set::empty(), set![id]);
            lemma_subscriptions_kept(before, after, set![id]);
        }
    }

    /// The subscribers of the channel `channel_name`, each once, each with the
    /// sending end on record for its id: the first half of publishing, whose
    /// second half is [`Broker::finish_publish`].
    pub fn begin_publish(&self, channel_name: &str) -> (r: Result<
        Vec<ClientSubscription<M>>,
        PublishError,
    >)
        requires
            self.wf(),
        ensures
            r is Ok <==> self@.channels.contains_key(channel_name@),
            r matches Ok(v) ==> subscription_ids(v@).to_set() == self@.channels[channel_name@]
                && subscription_ids(v@).no_duplicates(),
            r matches Ok(v) ==> forall|j: int|
                0 <= j < v@.len() ==> self.queues().contains_key(#[trigger] v@[j]@)
                    && v@[j].queue() == self.queues()[v@[j]@],
    {
        let ids = match table_members(&self.channels, channel_name) {
            None => return Err(PublishError::ChannelNotFound),
            Some(ids) => ids,
        };
        let mut out: Vec<ClientSubscription<M>> = Vec::new();
        let mut i: usize = 0;
        while i < ids.len()
            invariant
                0 <= i <= ids@.len(),
                self.wf(),
                channel_table(self.channels).contains_key(channel_name@),
                ids@.to_set() == channel_table(self.channels)[channel_name@],
                out@.len() == i,
                subscription_ids(out@) == ids@.take(i as int),
                forall|j: int|
                    0 <= j < i ==> self.clients@.contains_key(#[trigger] out@[j]@)
                        && out@[j].queue() == self.clients@[out@[j]@],
            decreases ids@.len() - i,
        {
            let id = ids[i];
            assert(ids@.contains(id));
            assert(channel_table(self.channels)[channel_name@].contains(id));
            let ghost prev = out@;
            match self.clients.get(&id) {
                Some(tx) => {
                    out.push(ClientSubscription { id, tx: tx.clone() });
                },
                None => {
                    assert(false);
                },
            }
            assert(out@ == prev.push(out@[i as int]) && out@[i as int]@ == id);
            assert(subscription_ids(out@) =~= ids@.take(i + 1)) by {
                assert forall|j: int| 0 <= j < i + 1 implies #[trigger] subscription_ids(out@)[j]
                    == ids@.take(i + 1)[j] by {
                    if j < i {
                        assert(subscription_ids(prev)[j] == ids@.take(i as int)[j]);
                    }
                }
            }
            assert forall|j: int| 0 <= j < i + 1 implies self.clients@.contains_key(
                #[trigger] out@[j]@,
            ) && out@[j].queue() == self.clients@[out@[j]@] by {
                if j < i {
                    assert(out@[j] == prev[j]);
                }
            }
            i = i + 1;
        }
        assert(ids@.take(ids@.len() as int) =~= ids@);
        Ok(out)
    }

    /// The second half of publishing: `outcomes` tells, for each subscriber
    /// that was sent the message, whether the delivery succeeded. Those whose
    /// delivery succeeded are taken out of the channel, and their number is
    /// returned; the sending end of a subscriber that is then subscribed
    /// nowhere is taken off the record.
    pub fn finish_publish(&mut self, channel_name: &str, outcomes: &[(bool, u64)]) -> (count: usize)
        requires
            old(self).wf(),
        ensures
            final(self).wf(),
            final(self)@.next_id == old(self)@.next_id,
            count == delivered_count(outcomes@),
            final(self)@.channels == (if old(self)@.channels.contains_key(channel_name@) {
                old(self)@.channels.insert(
                    channel_name@,
                    old(self)@.channels[channel_name@].difference(delivered_ids(outcomes@)),
                )
            } else {
                old(self)@.channels
            }),
            final(self).queues() == old(self).queues().restrict(
                subscribed_ids(final(self)@.channels),
            ),
    {
        let ghost start = channel_table(self.channels);
        let ghost start_queues = self.clients@;
        proof {
            self.lemma_queues_are_subscribers();
        }
        let mut count: usize = 0;
        let mut i: usize = 0;
        assert(outcomes@.take(0) =~= Seq::<(bool, u64)>::empty());
        assert(delivered_ids(outcomes@.take(0)) =~= Set::<u64>::empty());
        assert(start.contains_key(channel_name@) ==> start[channel_name@].difference(
            Set::<u64>::empty(),
        ) =~= start[channel_name@]);
        assert(start.contains_key(channel_name@) ==> start =~= start.insert(
            channel_name@,
            start[channel_name@].difference(delivered_ids(outcomes@.take(0))),
        ));
        while i < outcomes.len()
            invariant
                0 <= i <= outcomes@.len(),
                count <= i,
                self.wf(),
                self.seq == old(self).seq,
                start_queues.dom() == subscribed_ids(start),
                forall|id: u64| #[trigger]
                    self.clients@.contains_key(id) ==> start_queues.contains_key(id)
                        && self.clients@[id] == start_queues[id],
                count == delivered_count(outcomes@.take(i as int)),
                channel_table(self.channels) == (if start.contains_key(channel_name@) {
                    start.insert(
                        channel_name@,
                        start[channel_name@].difference(delivered_ids(outcomes@.take(i as int))),
                    )
                } else {
                    start
                }),
            decreases outcomes@.len() - i,
        {
            let ghost before = channel_table(self.channels);
            let (delivered, id) = outcomes[i];
            assert(outcomes@.take(i + 1).drop_last() =~= outcomes@.take(i as int));
            if delivered {
                table_alter(&mut self.channels, channel_name, id, false);
                count = count + 1;
                let ghost after = channel_table(self.channels);
                proof {
                    lemma_records_cover(before, after, self.clients@.dom(), Set::empty(), Set::empty());
                    lemma_subscriptions_kept(before, after, set![id]);
                    if start.contains_key(channel_name@) {
                        assert(start[channel_name@].difference(
                            delivered_ids(outcomes@.take(i as int)),
                        ).remove(id) =~= start[channel_name@].difference(
                            delivered_ids(outcomes@.take(i + 1)),
                        ));
                    }
                }
                self.forget_if_unsubscribed(id);
            }
            i = i + 1;
        }
        assert(outcomes@.take(outcomes@.len() as int) =~= outcomes@);
        let ghost after = channel_table(self.channels);
        proof {
            lemma_no_new_subscriptions(start, after);
            self.lemma_queues_are_subscribers();
            lemma_record_cut(start_queues, self.clients@, subscribed_ids(after));
        }
        count
    }

    /// Creates the channel `channel_name`, with no subscriber; it must not exist yet.
    pub fn create_channel(&mut self, channel_name: &str) -> (r: Result<(), NewChannelError>)
        requires
            old(self).wf(),
        ensures
            final(self).wf(),
            final(self)@.next_id == old(self)@.next_id,
            r is Ok <==> !old(self)@.channels.contains_key(channel_name@),
            r is Ok ==> final(self)@.channels == old(self)@.channels.insert(
                channel_name@,
                Set::<u64>::empty(),
            ),
            r is Err ==> final(self)@ == old(self)@,
            final(self).queues() == old(self).queues(),
    {
        if table_contains(&self.channels, channel_name) {
            return Err(NewChannelError::ChannelAlreadyExists);
        }
        let ghost before = channel_table(self.channels);
        table_insert(&mut self.channels, channel_name.to_owned(), id_set_new());
        let ghost after = channel_table(self.channels);
        proof {
            lemma_records_cover(before, after, self.clients@.dom(), Set::empty(), Set::empty());
            lemma_subscriptions_kept(before, after, Set::empty());
        }
        Ok(())
    }
}

impl<M> Default for Broker<M> {
    fn default() -> (b: Self)
        ensures
            b.wf(),
            b@.channels.dom() == Set::<Seq<char>>::empty(),
            b@.next_id == 0,
            b.queues().dom() == Set::<u64>::empty(),
    {
        Broker::new()
    }
}

/// What a call of `unsubscribe` for `id` and the channel `name` leaves of
/// `channels`: `id` taken out of that channel where it was subscribed there;
/// where the call fails, for want of the channel or of the subscription,
/// nothing changes.
pub open spec fn after_unsubscribe(channels: Map<Seq<char>, Set<u64>>, name: Seq<char>, id: u64) -> Map<
    Seq<char>,
    Set<u64>,
> {
    if channels.contains_key(name) && channels[name].contains(id) {
        without_subscriber(channels, name, id)
    } else {
        channels
    }
}

/// The channels and the record of sending ends after a call of `unsubscribe`
/// for `id` and each name of `names` in turn, starting from `channels` and
/// `queues`.
pub open spec fn after_unsubscribe_each<M>(
    channels: Map<Seq<char>, Set<u64>>,
    queues: Map<u64, Sender<M>>,
    names: Seq<Seq<char>>,
    id: u64,
) -> (Map<Seq<char>, Set<u64>>, Map<u64, Sender<M>>)
    decreases names.len(),
{
    if names.len() == 0 {
        (channels, queues)
    } else {
        let prev = after_unsubscribe_each(channels, queues, names.drop_last(), id);
        let next = after_unsubscribe(prev.0, names.last(), id);
        (next, prev.1.restrict(subscribed_ids(next)))
    }
}

/// `unsubscribe_many` with a list of names leaves the broker as a call of
/// `unsubscribe` for each of those names in turn does: the same channels, and
/// the same record of sending ends.
pub proof fn lemma_unsubscribe_many_is_each<M>(
    channels: Map<Seq<char>, Set<u64>>,
    queues: Map<u64, Sender<M>>,
    names: Seq<Seq<char>>,
    id: u64,
)
    requires
        queues.dom() == subscribed_ids(channels),
    ensures
        after_unsubscribe_each(channels, queues, names, id) == (
            without_subscriber_in(channels, names, id),
            queues.restrict(subscribed_ids(without_subscriber_in(channels, names, id))),
        ),
    decreases names.len(),
{
    let w = without_subscriber_in(channels, names, id);
    if names.len() == 0 {
        assert(w =~= channels);
        assert(queues.restrict(subscribed_ids(w)) =~= queues);
    } else {
        let front = names.drop_last();
        let last = names.last();
        lemma_unsubscribe_many_is_each(channels, queues, front, id);
        let w0 = without_subscriber_in(channels, front, id);
        assert forall|x: Seq<char>| #[trigger] names.contains(x) <==> (front.contains(x) || x
            == last) by {
            if names.contains(x) {
                let j = choose|j: int| 0 <= j < names.len() && #[trigger] names[j] == x;
                if j < names.len() - 1 {
                    assert(front[j] == x);
                }
            }
            if front.contains(x) {
                let j = choose|j: int| 0 <= j < front.len() && #[trigger] front[j] == x;
                assert(names[j] == x);
            }
            if x == last {
                assert(names[names.len() - 1] == x);
            }
        }
        let next = after_unsubscribe(w0, last, id);
        assert(next =~= w) by {
            assert forall|k: Seq<char>| #[trigger] next.contains_key(k) implies next[k] =~= w[k] by {}
        }
        lemma_no_new_subscriptions(w0, w);
        assert(queues.restrict(subscribed_ids(w0)).restrict(subscribed_ids(w)) =~= queues.restrict(
            subscribed_ids(w),
        ));
    }
}

/// Unsubscribing a client from a channel undoes subscribing it there, where
/// it was not subscribed before.
pub proof fn lemma_unsubscribe_undoes_subscribe(
    channels: Map<Seq<char>, Set<u64>>,
    name: Seq<char>,
    id: u64,
)
    requires
        channels.contains_key(name),
        !channels[name].contains(id),
    ensures
        without_subscriber(with_subscriber(channels, name, id), name, id) == channels,
{
    assert(channels[name].insert(id).remove(id) =~= channels[name]);
    assert(without_subscriber(with_subscriber(channels, name, id), name, id) =~= channels);
}

/// Subscribing a client to a channel twice is the same as subscribing it once.
pub proof fn lemma_subscribe_twice(channels: Map<Seq<char>, Set<u64>>, name: Seq<char>, id: u64)
    requires
        channels.contains_key(name),
    ensures
        with_subscriber(with_subscriber(channels, name, id), name, id) == with_subscriber(
            channels,
            name,
            id,
        ),
{
    assert(channels[name].insert(id).insert(id) =~= channels[name].insert(id));
    assert(with_subscriber(with_subscriber(channels, name, id), name, id) =~= with_subscriber(
        channels,
        name,
        id,
    ));
}

/// After unsubscribing a client from everything, it is subscribed nowhere;
/// every channel stays, and every other subscriber stays where it was.
pub proof fn lemma_unsubscribe_all_forgets_client(channels: Map<Seq<char>, Set<u64>>, id: u64)
    ensures
        without_subscriber_everywhere(channels, id).dom() == channels.dom(),
        forall|name: Seq<char>|
            #[trigger] without_subscriber_everywhere(channels, id).contains_key(name)
                ==> !without_subscriber_everywhere(channels, id)[name].contains(id),
        forall|name: Seq<char>, other: u64|
            channels.contains_key(name) && other != id ==> (#[trigger] without_subscriber_everywhere(
                channels,
                id,
            )[name].contains(other) <==> channels[name].contains(other)),
{
    assert(without_subscriber_everywhere(channels, id).dom() =~= channels.dom());
}

/// Unsubscribing a client from everything undoes any subscription of it.
pub proof fn lemma_unsubscribe_all_undoes_subscribe(
    channels: Map<Seq<char>, Set<u64>>,
    name: Seq<char>,
    id: u64,
)
    requires
        channels.contains_key(name),
    ensures
        without_subscriber_everywhere(with_subscriber(channels, name, id), id)
            == without_subscriber_everywhere(channels, id),
{
    let a = without_subscriber_everywhere(with_subscriber(channels, name, id), id);
    let b = without_subscriber_everywhere(channels, id);
    assert(a.dom() =~= b.dom());
    assert forall|k: Seq<char>| #[trigger] a.contains_key(k) implies a[k] == b[k] by {
        if k == name {
            assert(channels[name].insert(id).remove(id) =~= channels[name].remove(id));
        }
    }
    assert(a =~= b);
}

/// No subscription change makes a channel appear or disappear.
pub proof fn lemma_channels_stay(
    channels: Map<Seq<char>, Set<u64>>,
    name: Seq<char>,
    names: Seq<Seq<char>>,
    id: u64,
)
    requires
        channels.contains_key(name),
    ensures
        with_subscriber(channels, name, id).dom() == channels.dom(),
        without_subscriber(channels, name, id).dom() == channels.dom(),
        without_subscriber_in(channels, names, id).dom() == channels.dom(),
        without_subscriber_everywhere(channels, id).dom() == channels.dom(),
{
    assert(with_subscriber(channels, name, id).dom() =~= channels.dom());
    assert(without_subscriber(channels, name, id).dom() =~= channels.dom());
    assert(without_subscriber_in(channels, names, id).dom() =~= channels.dom());
    assert(without_subscriber_everywhere(channels, id).dom() =~= channels.dom());
}

/// A channel that has just been created exists, so creating it again fails;
/// it has no subscriber.
pub proof fn lemma_created_channel_exists(channels: Map<Seq<char>, Set<u64>>, name: Seq<char>)
    ensures
        channels.insert(name, Set::<u64>::empty()).contains_key(name),
        channels.insert(name, Set::<u64>::empty())[name] == Set::<u64>::empty(),
{
}

/// Two clients made one after the other get different ids.
pub proof fn lemma_next_id_differs(id: u64)
    ensures
        next_id_after(id) != id,
{
}

/// The id that the `n`-th client gets, counting from 0, from a broker whose
/// counter stands at `start`.
pub open spec fn nth_id(start: u64, n: nat) -> u64 {
    ((start + n) % 0x1_0000_0000_0000_0000) as u64
}

/// Each call of `new_client` moves from the `n`-th id to the next one.
pub proof fn lemma_nth_id_step(start: u64, n: nat)
    ensures
        nth_id(start, 0) == start,
        next_id_after(nth_id(start, n)) == nth_id(start, n + 1),
{
    let m: int = 0x1_0000_0000_0000_0000;
    let x: int = start + n;
    assert(x % m + 1 == m ==> (x + 1) % m == 0) by (nonlinear_arith)
        requires
            m == 0x1_0000_0000_0000_0000,
            x >= 0,
    ;
    assert(x % m + 1 < m ==> (x + 1) % m == x % m + 1) by (nonlinear_arith)
        requires
            m == 0x1_0000_0000_0000_0000,
            x >= 0,
    ;
}

/// Among fewer than 2^64 clients made one after the other, no two get the
/// same id.
pub proof fn lemma_ids_distinct(start: u64, i: nat, j: nat)
    requires
        i < j,
        j - i < 0x1_0000_0000_0000_0000,
    ensures
        nth_id(start, i) != nth_id(start, j),
{
    let m: int = 0x1_0000_0000_0000_0000;
    let a: int = start + i;
    let b: int = start + j;
    assert((a % m) != (b % m)) by (nonlinear_arith)
        requires
            m == 0x1_0000_0000_0000_0000,
            0 <= a < b,
            b - a < m,
    {
        if a % m == b % m {
            assert((b - a) % m == 0);
        }
    }
}

/// Publishing counts no more deliveries than it was told of, and every
/// subscriber that it counts leaves the channel.
pub proof fn lemma_delivered_bounds(outcomes: Seq<(bool, u64)>)
    ensures
        delivered_count(outcomes) <= outcomes.len(),
        forall|j: int|
            0 <= j < outcomes.len() && (#[trigger] outcomes[j]).0 ==> delivered_ids(
                outcomes,
            ).contains(outcomes[j].1),
    decreases outcomes.len(),
{
    if outcomes.len() > 0 {
        lemma_delivered_bounds(outcomes.drop_last());
        assert forall|j: int|
            0 <= j < outcomes.len() && (#[trigger] outcomes[j]).0 implies delivered_ids(
            outcomes,
        ).contains(outcomes[j].1) by {
            if j < outcomes.len() - 1 {
                assert(outcomes.drop_last()[j] == outcomes[j]);
            }
        }
    }
}

/// Subscribing `id` to the channel `name` puts `id` in that channel, keeps
/// every other subscriber of it, and leaves every other channel as it was.
pub proof fn lemma_subscribe_adds_exactly(
    channels: Map<Seq<char>, Set<u64>>,
    name: Seq<char>,
    id: u64,
)
    requires
        channels.contains_key(name),
    ensures
        with_subscriber(channels, name, id).dom() == channels.dom(),
        with_subscriber(channels, name, id)[name].contains(id),
        forall|other: u64|
            other != id ==> (#[trigger] with_subscriber(channels, name, id)[name].contains(other)
                <==> channels[name].contains(other)),
        forall|k: Seq<char>|
            channels.contains_key(k) && k != name ==> #[trigger] with_subscriber(
                channels,
                name,
                id,
            )[k] == channels[k],
{
    assert(with_subscriber(channels, name, id).dom() =~= channels.dom());
}

/// Unsubscribing `id` from the channel `name` takes `id` out of that channel,
/// keeps every other subscriber of it, and leaves every other channel as it was;
/// where `id` was not there, or there is no such channel, nothing changes.
pub proof fn lemma_unsubscribe_removes_exactly(
    channels: Map<Seq<char>, Set<u64>>,
    name: Seq<char>,
    id: u64,
)
    ensures
        after_unsubscribe(channels, name, id).dom() == channels.dom(),
        channels.contains_key(name) ==> !after_unsubscribe(channels, name, id)[name].contains(id),
        forall|k: Seq<char>, other: u64|
            channels.contains_key(k) && other != id ==> (#[trigger] after_unsubscribe(
                channels,
                name,
                id,
            )[k].contains(other) <==> channels[k].contains(other)),
        forall|k: Seq<char>|
            channels.contains_key(k) && k != name ==> #[trigger] after_unsubscribe(
                channels,
                name,
                id,
            )[k] == channels[k],
        channels.contains_key(name) ==> without_subscriber(channels, name, id) == after_unsubscribe(
            channels,
            name,
            id,
        ),
{
    assert(after_unsubscribe(channels, name, id).dom() =~= channels.dom());
    if channels.contains_key(name) && !channels[name].contains(id) {
        assert(channels[name].remove(id) =~= channels[name]);
        assert(without_subscriber(channels, name, id) =~= channels);
    }
}

/// Unsubscribing `id` from a list of channels takes `id` out of each listed
/// channel that exists, keeps every other subscriber everywhere, leaves every
/// unlisted channel as it was, and makes no channel appear or disappear.
pub proof fn lemma_unsubscribe_many_removes_exactly(
    channels: Map<Seq<char>, Set<u64>>,
    names: Seq<Seq<char>>,
    id: u64,
)
    ensures
        without_subscriber_in(channels, names, id).dom() == channels.dom(),
        forall|j: int|
            0 <= j < names.len() && channels.contains_key(#[trigger] names[j])
                ==> !without_subscriber_in(channels, names, id)[names[j]].contains(id),
        forall|k: Seq<char>, other: u64|
            channels.contains_key(k) && other != id ==> (#[trigger] without_subscriber_in(
                channels,
                names,
                id,
            )[k].contains(other) <==> channels[k].contains(other)),
        forall|k: Seq<char>|
            channels.contains_key(k) && !names.contains(k) ==> #[trigger] without_subscriber_in(
                channels,
                names,
                id,
            )[k] == channels[k],
{
    assert(without_subscriber_in(channels, names, id).dom() =~= channels.dom());
    assert forall|j: int|
        0 <= j < names.len() && channels.contains_key(#[trigger] names[j]) implies !without_subscriber_in(
        channels,
        names,
        id,
    )[names[j]].contains(id) by {
        assert(names.contains(names[j]));
    }
}

/// Calling `unsubscribe` for one more name after a run of calls does to the
/// channels what that one call does: the run of calls is the calls one by one.
pub proof fn lemma_unsubscribe_each_step<M>(
    channels: Map<Seq<char>, Set<u64>>,
    queues: Map<u64, Sender<M>>,
    names: Seq<Seq<char>>,
    name: Seq<char>,
    id: u64,
)
    ensures
        after_unsubscribe_each(channels, queues, names.push(name), id).0 == after_unsubscribe(
            after_unsubscribe_each(channels, queues, names, id).0,
            name,
            id,
        ),
        after_unsubscribe_each(channels, queues, Seq::empty(), id).0 == channels,
{
    assert(names.push(name).drop_last() =~= names);
}

/// A publish counts exactly the deliveries that succeeded: as many as there
/// are outcomes marked as delivered.
pub proof fn lemma_delivered_count_counts(outcomes: Seq<(bool, u64)>)
    ensures
        delivered_count(outcomes) == outcomes.filter(|o: (bool, u64)| o.0).len(),
    decreases outcomes.len(),
{
    reveal(Seq::filter);
    if outcomes.len() > 0 {
        lemma_delivered_count_counts(outcomes.drop_last());
    }
}

/// The count of two runs of outcomes together is the sum of their counts.
pub proof fn lemma_delivered_count_adds(a: Seq<(bool, u64)>, b: Seq<(bool, u64)>)
    ensures
        delivered_count(a + b) == delivered_count(a) + delivered_count(b),
        delivered_ids(a + b) == delivered_ids(a).union(delivered_ids(b)),
    decreases b.len(),
{
    if b.len() == 0 {
        assert(a + b =~= a);
        assert(delivered_ids(a).union(delivered_ids(b)) =~= delivered_ids(a));
    } else {
        assert((a + b).drop_last() =~= a + b.drop_last());
        assert((a + b).last() == b.last());
        lemma_delivered_count_adds(a, b.drop_last());
        if b.last().0 {
            assert(delivered_ids(a + b) =~= delivered_ids(a).union(delivered_ids(b)));
        }
    }
}

/// The ids taken out of a channel by a publish are exactly those whose
/// delivery succeeded.
pub proof fn lemma_delivered_ids_exactly(outcomes: Seq<(bool, u64)>, id: u64)
    ensures
        delivered_ids(outcomes).contains(id) <==> exists|j: int|
            0 <= j < outcomes.len() && (#[trigger] outcomes[j]).0 && outcomes[j].1 == id,
    decreases outcomes.len(),
{
    if outcomes.len() > 0 {
        let front = outcomes.drop_last();
        lemma_delivered_ids_exactly(front, id);
        if delivered_ids(outcomes).contains(id) {
            if delivered_ids(front).contains(id) {
                let j = choose|j: int| 0 <= j < front.len() && (#[trigger] front[j]).0 && front[j].1 == id;
                assert(outcomes[j] == front[j]);
            } else {
                assert(outcomes[outcomes.len() - 1] == outcomes.last());
            }
        }
        if exists|j: int| 0 <= j < outcomes.len() && (#[trigger] outcomes[j]).0 && outcomes[j].1 == id {
            let j = choose|j: int| 0 <= j < outcomes.len() && (#[trigger] outcomes[j]).0 && outcomes[j].1 == id;
            if j < outcomes.len() - 1 {
                assert(front[j] == outcomes[j]);
            }
        }
    }
}

/// The ids that `n` calls of `new_client` hand out one after the other, from
/// a broker whose counter stands at `start`.
pub open spec fn ids_of_calls(start: u64, n: nat) -> Seq<u64> {
    Seq::new(n, |i: int| nth_id(start, i as nat))
}

/// Across any run of at most 2^64 calls of `new_client`, no two calls hand
/// out the same id: the `i`-th call hands out `nth_id(start, i)` (see
/// [`lemma_nth_id_step`]), and these ids are pairwise different.
pub proof fn lemma_ids_of_calls_distinct(start: u64, n: nat)
    requires
        n <= 0x1_0000_0000_0000_0000,
    ensures
        ids_of_calls(start, n).no_duplicates(),
        forall|i: int| 0 <= i < n ==> #[trigger] ids_of_calls(start, n)[i] == nth_id(start, i as nat),
{
    assert forall|i: int, j: int|
        0 <= i < n && 0 <= j < n && i != j implies ids_of_calls(start, n)[i] != ids_of_calls(
        start,
        n,
    )[j] by {
        if i < j {
            lemma_ids_distinct(start, i as nat, j as nat);
        } else {
            lemma_ids_distinct(start, j as nat, i as nat);
        }
    }
}

/// Why a subscription failed.
#[derive(Debug)]
pub enum SubscribeError {
    ChannelNotFound,
    ClientNotRegistered,
}

/// Why a channel could not be created.
#[derive(Debug)]
pub enum NewChannelError {
    ChannelAlreadyExists,
}

/// Why an unsubscription failed.
#[derive(Debug)]
pub enum UnsubscribeError {
    ChannelNotFound,
    AlreadyNotSubscribed,
    SubscriberMissing,
}

/// Why a message could not be published.
#[derive(Debug)]
pub enum PublishError {
    ChannelNotFound,
}

} // verus!
