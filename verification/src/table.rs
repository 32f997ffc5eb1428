use vstd::prelude::*;

use dashmap::{DashMap, DashSet};

verus! {

#[verifier::external_type_specification]
#[verifier::external_body]
#[verifier::reject_recursive_types(K)]
#[verifier::reject_recursive_types(V)]
#[verifier::reject_recursive_types(S)]
pub struct ExDashMap<K, V, S>(DashMap<K, V, S>);

#[verifier::external_type_specification]
#[verifier::external_body]
#[verifier::reject_recursive_types(K)]
#[verifier::reject_recursive_types(S)]
pub struct ExDashSet<K, S>(DashSet<K, S>);

/// A table of channels: each channel name with the set of ids subscribed to it.
pub type ChannelTable = DashMap<String, DashSet<u64>>;

/// The ids that a set of subscribers holds.
pub uninterp spec fn id_set(s: DashSet<u64>) -> Set<u64>;

/// What a channel table holds: for each channel name, the ids subscribed to it.
pub uninterp spec fn channel_table(t: ChannelTable) -> Map<Seq<char>, Set<u64>>;

/// `DashSet::new`: a set that holds nothing.
#[verifier::external_body]
pub(crate) fn id_set_new() -> (s: DashSet<u64>)
    ensures
        id_set(s) == Set::<u64>::empty(),
{
    DashSet::new()
}

/// `DashSet::insert`: adds `id`; the result says whether it was absent before.
#[verifier::external_body]
pub(crate) fn id_set_insert(s: &mut DashSet<u64>, id: u64) -> (fresh: bool)
    ensures
        id_set(*final(s)) == id_set(*old(s)).insert(id),
        fresh == !id_set(*old(s)).contains(id),
{
    s.insert(id)
}

/// `DashSet::remove`: takes `id` out; the result is `id` where it was there.
#[verifier::external_body]
pub(crate) fn id_set_remove(s: &mut DashSet<u64>, id: u64) -> (r: Option<u64>)
    ensures
        id_set(*final(s)) == id_set(*old(s)).remove(id),
        r == (if id_set(*old(s)).contains(id) { Some(id) } else { None::<u64> }),
{
    s.remove(&id)
}

/// `DashSet::iter`, collected: each id of the set once, in an order that the
/// hasher decides.
#[verifier::external_body]
pub(crate) fn id_set_list(s: &DashSet<u64>) -> (v: Vec<u64>)
    ensures
        v@.to_set() == id_set(*s),
        v@.no_duplicates(),
{
    s.iter().map(|r| *r.key()).collect()
}

/// The set `s` with `id` added (`add`) or taken out (`!add`).
pub fn with_id(s: DashSet<u64>, id: u64, add: bool) -> (r: DashSet<u64>)
    ensures
        id_set(r) == (if add { id_set(s).insert(id) } else { id_set(s).remove(id) }),
{
    let mut s = s;
    if add {
        id_set_insert(&mut s, id);
    } else {
        id_set_remove(&mut s, id);
    }
    s
}

/// The ids of the set `s`, each once.
pub fn id_list(s: &DashSet<u64>) -> (v: Vec<u64>)
    ensures
        v@.to_set() == id_set(*s),
        v@.no_duplicates(),
{
    id_set_list(s)
}

/// `DashMap::new`: a table that holds no channel.
#[verifier::external_body]
pub(crate) fn table_new() -> (t: ChannelTable)
    ensures
        channel_table(t).dom() == Set::<Seq<char>>::empty(),
{
    DashMap::new()
}

/// `DashMap::iter`, collected by key: the name of every channel of the table,
/// in an order that the hasher decides.
#[verifier::external_body]
pub(crate) fn table_names(t: &ChannelTable) -> (v: Vec<String>)
    ensures
        forall|j: int| 0 <= j < v@.len() ==> channel_table(*t).contains_key(#[trigger] v@[j]@),
        forall|k: Seq<char>|
            channel_table(*t).contains_key(k) ==> exists|j: int|
                0 <= j < v@.len() && #[trigger] v@[j]@ == k,
{
    t.iter().map(|r| r.key().clone()).collect()
}

/// `DashMap::contains_key`: whether the table has a channel of this name.
#[verifier::external_body]
pub(crate) fn table_contains(t: &ChannelTable, name: &str) -> (b: bool)
    ensures
        b == channel_table(*t).contains_key(name@),
{
    t.contains_key(name)
}

/// `DashMap::insert`: the channel `name` now holds the ids of `ids`.
#[verifier::external_body]
pub(crate) fn table_insert(t: &mut ChannelTable, name: String, ids: DashSet<u64>)
    ensures
        channel_table(*final(t)) == channel_table(*old(t)).insert(name@, id_set(ids)),
{
    t.insert(name, ids);
}

/// `DashMap::alter` with [`with_id`]: where the channel `name` exists, `id` is
/// added to it (`add`) or taken out of it (`!add`); the other channels stay.
#[verifier::external_body]
pub(crate) fn table_alter(t: &mut ChannelTable, name: &str, id: u64, add: bool)
    ensures
        channel_table(*final(t)) == (if channel_table(*old(t)).contains_key(name@) {
            channel_table(*old(t)).insert(
                name@,
                if add {
                    channel_table(*old(t))[name@].insert(id)
                } else {
                    channel_table(*old(t))[name@].remove(id)
                },
            )
        } else {
            channel_table(*old(t))
        }),
{
    t.alter(name, |_, s| with_id(s, id, add));
}

/// `DashMap::alter_all` with [`with_id`]: `id` is taken out of every channel.
#[verifier::external_body]
pub(crate) fn table_alter_all(t: &mut ChannelTable, id: u64)
    ensures
        channel_table(*final(t)) == channel_table(*old(t)).map_values(|s: Set<u64>| s.remove(id)),
{
    t.alter_all(|_, s| with_id(s, id, false));
}

/// `DashMap::view` with [`id_list`]: the ids of the channel `name`, each once,
/// or `None` where there is no such channel.
#[verifier::external_body]
pub(crate) fn table_members(t: &ChannelTable, name: &str) -> (r: Option<Vec<u64>>)
    ensures
        r is Some <==> channel_table(*t).contains_key(name@),
        r matches Some(v) ==> v@.to_set() == channel_table(*t)[name@] && v@.no_duplicates(),
{
    t.view(name, |_, s| id_list(s))
}

} // verus!
