//! The tables of a party, kept by outside collections.
//!
//! Members and groups stand in insertion-ordered maps: each has an order of
//! keys, and a value for every key. Bots and sessions stand in a two-way map.
use crate::farm::party::member::{Group, Member};
use crate::pairing::paired;
use bimap::BiHashMap;
use indexmap::IndexMap;
use vstd::prelude::*;

verus! {

/// The insertion-ordered map of the `indexmap` crate.
#[verifier::external_type_specification]
#[verifier::external_body]
#[verifier::reject_recursive_types(K)]
#[verifier::reject_recursive_types(V)]
#[verifier::reject_recursive_types(S)]
pub struct ExIndexMap<K, V, S>(indexmap::IndexMap<K, V, S>);

/// The keys of a table of members, in the order in which the table keeps them.
pub uninterp spec fn member_order(m: IndexMap<u64, Member>) -> Seq<u64>;

/// The members of a table, by key.
pub uninterp spec fn member_map(m: IndexMap<u64, Member>) -> Map<u64, Member>;

/// The keys of a table of groups, in the order in which the table keeps them.
pub uninterp spec fn group_order(m: IndexMap<u64, Group>) -> Seq<u64>;

/// The groups of a table, by key.
pub uninterp spec fn group_map(m: IndexMap<u64, Group>) -> Map<u64, Group>;

/// The session that each bot of a table is paired with.
pub uninterp spec fn bot_pairs(m: BiHashMap<u32, u64>) -> Map<u32, u64>;

/// `IndexMap::new`: the table is empty.
#[verifier::external_body]
pub(crate) fn members_new() -> (r: IndexMap<u64, Member>)
    ensures
        member_order(r) == Seq::<u64>::empty(),
        member_map(r) == (Map::<u64, Member>::empty()),
{
    IndexMap::new()
}

/// `IndexMap::insert`: a key that is there keeps its place and gets the new
/// value; any other key goes last.
#[verifier::external_body]
pub(crate) fn members_insert(m: &mut IndexMap<u64, Member>, key: u64, value: Member)
    ensures
        member_map(*final(m)) == member_map(*old(m)).insert(key, value),
        member_order(*final(m)) == (if member_map(*old(m)).contains_key(key) {
            member_order(*old(m))
        } else {
            member_order(*old(m)).push(key)
        }),
{
    m.insert(key, value);
}

/// `IndexMap::shift_remove`: the key is gone, and the others keep their
/// relative order.
#[verifier::external_body]
pub(crate) fn members_shift_remove(m: &mut IndexMap<u64, Member>, key: u64)
    ensures
        member_map(*final(m)) == member_map(*old(m)).remove(key),
        member_order(*final(m)) == member_order(*old(m)).remove_value(key),
{
    m.shift_remove(&key);
}

/// `IndexMap::len`: the number of keys.
#[verifier::external_body]
pub(crate) fn members_len(m: &IndexMap<u64, Member>) -> (r: usize)
    ensures
        r == member_order(*m).len(),
{
    m.len()
}

/// `IndexMap::get`: the value of a key, if the key is there.
#[verifier::external_body]
pub(crate) fn members_get(m: &IndexMap<u64, Member>, key: u64) -> (r: Option<&Member>)
    ensures
        match r {
            Some(v) => member_map(*m).contains_key(key) && *v == member_map(*m)[key],
            None => !member_map(*m).contains_key(key),
        },
{
    m.get(&key)
}

/// `IndexMap::get_mut`: a way to change the value of a key, if the key is
/// there; nothing else changes.
#[verifier::external_body]
pub(crate) fn members_get_mut(m: &mut IndexMap<u64, Member>, key: u64) -> (r: Option<&mut Member>)
    ensures
        member_order(*final(m)) == member_order(*old(m)),
        match r {
            Some(v) => {
                &&& member_map(*old(m)).contains_key(key)
                &&& *v == member_map(*old(m))[key]
                &&& member_map(*final(m)) == member_map(*old(m)).insert(key, *final(v))
            },
            None => {
                &&& !member_map(*old(m)).contains_key(key)
                &&& member_map(*final(m)) == member_map(*old(m))
            },
        },
{
    m.get_mut(&key)
}

/// `IndexMap::get_index`: the key at a place in the order, and its value.
#[verifier::external_body]
pub(crate) fn members_get_index(m: &IndexMap<u64, Member>, index: usize) -> (r: Option<
    (u64, &Member),
>)
    ensures
        match r {
            Some((k, v)) => {
                &&& index < member_order(*m).len()
                &&& k == member_order(*m)[index as int]
                &&& member_map(*m).contains_key(k)
                &&& *v == member_map(*m)[k]
            },
            None => index >= member_order(*m).len(),
        },
{
    m.get_index(index).map(|(k, v)| (*k, v))
}

/// `IndexMap::new`: the table is empty.
#[verifier::external_body]
pub(crate) fn groups_new() -> (r: IndexMap<u64, Group>)
    ensures
        group_order(r) == Seq::<u64>::empty(),
        group_map(r) == (Map::<u64, Group>::empty()),
{
    IndexMap::new()
}

/// `IndexMap::insert`: a key that is there keeps its place and gets the new
/// value; any other key goes last.
#[verifier::external_body]
pub(crate) fn groups_insert(m: &mut IndexMap<u64, Group>, key: u64, value: Group)
    ensures
        group_map(*final(m)) == group_map(*old(m)).insert(key, value),
        group_order(*final(m)) == (if group_map(*old(m)).contains_key(key) {
            group_order(*old(m))
        } else {
            group_order(*old(m)).push(key)
        }),
{
    m.insert(key, value);
}

/// `IndexMap::len`: the number of keys.
#[verifier::external_body]
pub(crate) fn groups_len(m: &IndexMap<u64, Group>) -> (r: usize)
    ensures
        r == group_order(*m).len(),
{
    m.len()
}

/// `IndexMap::get_mut`: a way to change the value of a key, if the key is
/// there; nothing else changes.
#[verifier::external_body]
pub(crate) fn groups_get_mut(m: &mut IndexMap<u64, Group>, key: u64) -> (r: Option<&mut Group>)
    ensures
        group_order(*final(m)) == group_order(*old(m)),
        match r {
            Some(v) => {
                &&& group_map(*old(m)).contains_key(key)
                &&& *v == group_map(*old(m))[key]
                &&& group_map(*final(m)) == group_map(*old(m)).insert(key, *final(v))
            },
            None => {
                &&& !group_map(*old(m)).contains_key(key)
                &&& group_map(*final(m)) == group_map(*old(m))
            },
        },
{
    m.get_mut(&key)
}

/// `IndexMap::get_index`: the key at a place in the order, and its value.
#[verifier::external_body]
pub(crate) fn groups_get_index(m: &IndexMap<u64, Group>, index: usize) -> (r: Option<
    (u64, &Group),
>)
    ensures
        match r {
            Some((k, v)) => {
                &&& index < group_order(*m).len()
                &&& k == group_order(*m)[index as int]
                &&& group_map(*m).contains_key(k)
                &&& *v == group_map(*m)[k]
            },
            None => index >= group_order(*m).len(),
        },
{
    m.get_index(index).map(|(k, v)| (*k, v))
}

/// `BiHashMap::new`: nothing is paired.
#[verifier::external_body]
pub(crate) fn bots_new() -> (r: BiHashMap<u32, u64>)
    ensures
        bot_pairs(r) == (Map::<u32, u64>::empty()),
{
    BiHashMap::new()
}

/// `BiHashMap::insert`: the two are paired, and no longer with anything else.
#[verifier::external_body]
pub(crate) fn bots_insert(m: &mut BiHashMap<u32, u64>, bot: u32, sid: u64)
    ensures
        bot_pairs(*final(m)) == paired(bot_pairs(*old(m)), bot, sid),
{
    m.insert(bot, sid);
}

/// `BiHashMap::get_by_left`: what a left side is paired with.
#[verifier::external_body]
pub(crate) fn bots_get_by_left(m: &BiHashMap<u32, u64>, bot: u32) -> (r: Option<u64>)
    ensures
        match r {
            Some(sid) => bot_pairs(*m).contains_key(bot) && bot_pairs(*m)[bot] == sid,
            None => !bot_pairs(*m).contains_key(bot),
        },
{
    m.get_by_left(&bot).copied()
}

/// `BiHashMap::get_by_right`: what a right side is paired with.
#[verifier::external_body]
pub(crate) fn bots_get_by_right(m: &BiHashMap<u32, u64>, sid: u64) -> (r: Option<u32>)
    ensures
        match r {
            Some(bot) => bot_pairs(*m).contains_key(bot) && bot_pairs(*m)[bot] == sid,
            None => forall|bot: u32| #[trigger]
                bot_pairs(*m).contains_key(bot) ==> bot_pairs(*m)[bot] != sid,
        },
{
    m.get_by_right(&sid).copied()
}

/// `BiHashMap::clear`: nothing is paired any more.
#[verifier::external_body]
pub(crate) fn bots_clear(m: &mut BiHashMap<u32, u64>)
    ensures
        bot_pairs(*final(m)) == (Map::<u32, u64>::empty()),
{
    m.clear();
}

} // verus!
