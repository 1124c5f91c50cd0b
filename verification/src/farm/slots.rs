//! Tables that choose their own keys, kept by an outside slot map.
//!
//! A key is the 64-bit form of a slot map's key: the slot's index in the lower
//! half, the slot's version in the upper half. Versions in use are odd.
use crate::farm::layout::PartyLayout;
use crate::farm::party::Party;
use crate::ids::{PartyKey, WorkerSlot};
use crate::server::WorkerId;
use slotmap::{DefaultKey, Key, KeyData, SlotMap};
use vstd::prelude::*;

verus! {

/// What the farm knows of a session.
#[derive(Debug)]
pub struct SessionRecord {
    /// The worker that hosts the session.
    pub wid: WorkerId,
    /// The session's position on the worker's wire.
    pub slot: WorkerSlot,
    /// Whether the session is up: the last state it reported is that it runs.
    pub up: bool,
    /// The party the session was last added to.
    pub party_key: Option<PartyKey>,
    /// The code by which the session's player can be invited.
    pub friend_code: Option<String>,
}

/// The number has the form of a slot map's key: its version is odd.
pub open spec fn is_slot_key(key: u64) -> bool {
    (key / 0x1_0000_0000) % 2 == 1
}

/// The index of a key's slot.
pub open spec fn slot_index(key: u64) -> u64 {
    key % 0x1_0000_0000
}

/// How many values a slot map holds at most.
pub const MAX_SLOTS: usize = 0xffff_fffe;

/// How many keys a slot gives out before it gives them out again: as many as it
/// has odd versions.
pub const KEY_TURNS: u64 = 0x8000_0000;

/// How many of the keys were given out by the slot of `key`.
pub open spec fn turns(given: Seq<u64>, key: u64) -> nat
    decreases given.len(),
{
    if given.len() == 0 {
        0
    } else {
        turns(given.drop_last(), key) + (if slot_index(given.last()) == slot_index(key) {
            1nat
        } else {
            0
        })
    }
}

/// The sessions of the farm, in a `SlotMap` of the `slotmap` crate.
#[verifier::external_body]
pub struct SessionTable {
    inner: SlotMap<DefaultKey, SessionRecord>,
}

/// The parties of the farm, in a `SlotMap` of the `slotmap` crate.
#[verifier::external_body]
pub struct PartyTable {
    inner: SlotMap<DefaultKey, Party>,
}

/// The sessions of a table, by key.
pub uninterp spec fn session_entries(t: SessionTable) -> Map<u64, SessionRecord>;

/// The parties of a table, by key.
pub uninterp spec fn party_entries(t: PartyTable) -> Map<u64, Party>;

/// The keys that a table of sessions has given out so far, in order.
pub uninterp spec fn session_keys_given(t: SessionTable) -> Seq<u64>;

/// The keys that a table of parties has given out so far, in order.
pub uninterp spec fn party_keys_given(t: PartyTable) -> Seq<u64>;

/// Whether the number has the form of a slot map's key.
pub fn has_slot_form(key: u64) -> (r: bool)
    ensures
        r == is_slot_key(key),
{
    (key / 0x1_0000_0000) % 2 == 1
}

/// `SlotMap::with_key`: the table is empty, and has given out no key.
#[verifier::external_body]
pub(crate) fn sessions_new() -> (r: SessionTable)
    ensures
        session_keys_given(r) == Seq::<u64>::empty(),
        session_entries(r) == (Map::<u64, SessionRecord>::empty()),
{
    SessionTable { inner: SlotMap::with_key() }
}

/// `SlotMap::insert`: the value is stored under a key that is not in use. The key
/// was given out before if and only if its slot has given out [`KEY_TURNS`] keys:
/// the slot's version goes through the odd numbers in turn, and starts over
/// behind the largest one.
///
/// Which slot takes the value is left open.
#[verifier::external_body]
pub(crate) fn sessions_insert(t: &mut SessionTable, record: SessionRecord) -> (key: u64)
    requires
        session_entries(*old(t)).dom().finite(),
        session_entries(*old(t)).len() < MAX_SLOTS,
    ensures
        is_slot_key(key),
        !session_entries(*old(t)).contains_key(key),
        session_keys_given(*old(t)).contains(key) <==> turns(session_keys_given(*old(t)), key)
            >= KEY_TURNS,
        session_keys_given(*final(t)) == session_keys_given(*old(t)).push(key),
        session_entries(*final(t)) == session_entries(*old(t)).insert(key, record),
{
    t.inner.insert(record).data().as_ffi()
}

/// `SlotMap::len`: the number of values.
#[verifier::external_body]
pub(crate) fn sessions_len(t: &SessionTable) -> (r: usize)
    ensures
        r == session_entries(*t).len(),
{
    t.inner.len()
}

/// `SlotMap::get`: the value under a key, if the key is in use.
#[verifier::external_body]
pub(crate) fn sessions_get(t: &SessionTable, key: u64) -> (r: Option<&SessionRecord>)
    requires
        is_slot_key(key),
    ensures
        match r {
            Some(v) => session_entries(*t).contains_key(key) && *v == session_entries(*t)[key],
            None => !session_entries(*t).contains_key(key),
        },
{
    t.inner.get(DefaultKey::from(KeyData::from_ffi(key)))
}

/// `SlotMap::get_mut`: a way to change the value under a key, if the key is in
/// use; nothing else changes.
#[verifier::external_body]
pub(crate) fn sessions_get_mut(t: &mut SessionTable, key: u64) -> (r: Option<&mut SessionRecord>)
    requires
        is_slot_key(key),
    ensures
        session_keys_given(*final(t)) == session_keys_given(*old(t)),
        match r {
            Some(v) => {
                &&& session_entries(*old(t)).contains_key(key)
                &&& *v == session_entries(*old(t))[key]
                &&& session_entries(*final(t)) == session_entries(*old(t)).insert(key, *final(v))
            },
            None => {
                &&& !session_entries(*old(t)).contains_key(key)
                &&& session_entries(*final(t)) == session_entries(*old(t))
            },
        },
{
    t.inner.get_mut(DefaultKey::from(KeyData::from_ffi(key)))
}

/// `SlotMap::remove`: the key is no longer in use.
#[verifier::external_body]
pub(crate) fn sessions_remove(t: &mut SessionTable, key: u64)
    requires
        is_slot_key(key),
    ensures
        session_entries(*final(t)) == session_entries(*old(t)).remove(key),
        session_keys_given(*final(t)) == session_keys_given(*old(t)),
{
    t.inner.remove(DefaultKey::from(KeyData::from_ffi(key)));
}

/// `SlotMap::keys`: the keys in use, by ascending index of their slots.
#[verifier::external_body]
pub(crate) fn sessions_keys(t: &SessionTable) -> (r: Vec<u64>)
    ensures
        forall|key: u64| #[trigger] session_entries(*t).contains_key(key) <==> r@.contains(key),
        forall|i: int, j: int| 0 <= i < j < r@.len() ==> slot_index(r@[i]) < slot_index(r@[j]),
{
    t.inner.keys().map(|k| k.data().as_ffi()).collect()
}

/// `SlotMap::with_key`: the table is empty, and has given out no key.
#[verifier::external_body]
pub(crate) fn parties_new() -> (r: PartyTable)
    ensures
        party_keys_given(r) == Seq::<u64>::empty(),
        party_entries(r) == (Map::<u64, Party>::empty()),
{
    PartyTable { inner: SlotMap::with_key() }
}

/// `SlotMap::insert_with_key`: a party that knows its own key is stored under
/// that key, which is not in use. The key was given out before if and only if its
/// slot has given out [`KEY_TURNS`] keys: the slot's version goes through the odd
/// numbers in turn, and starts over behind the largest one.
///
/// Which slot takes the party is left open.
#[verifier::external_body]
pub(crate) fn parties_insert(t: &mut PartyTable, layout: PartyLayout) -> (pid: PartyKey)
    requires
        party_entries(*old(t)).dom().finite(),
        party_entries(*old(t)).len() < MAX_SLOTS,
    ensures
        is_slot_key(pid@),
        !party_entries(*old(t)).contains_key(pid@),
        party_keys_given(*old(t)).contains(pid@) <==> turns(party_keys_given(*old(t)), pid@)
            >= KEY_TURNS,
        party_keys_given(*final(t)) == party_keys_given(*old(t)).push(pid@),
        party_entries(*final(t)) == party_entries(*old(t)).insert(pid@, (Party { pid, layout })),
{
    let key = t.inner.insert_with_key(
        |k| Party::new(PartyKey::from_raw(k.data().as_ffi()), layout),
    );
    PartyKey::from_raw(key.data().as_ffi())
}

/// `SlotMap::len`: the number of values.
#[verifier::external_body]
pub(crate) fn parties_len(t: &PartyTable) -> (r: usize)
    ensures
        r == party_entries(*t).len(),
{
    t.inner.len()
}

/// `SlotMap::get`: the value under a key, if the key is in use.
#[verifier::external_body]
pub(crate) fn parties_get(t: &PartyTable, key: u64) -> (r: Option<&Party>)
    requires
        is_slot_key(key),
    ensures
        match r {
            Some(v) => party_entries(*t).contains_key(key) && *v == party_entries(*t)[key],
            None => !party_entries(*t).contains_key(key),
        },
{
    t.inner.get(DefaultKey::from(KeyData::from_ffi(key)))
}

/// `SlotMap::remove`: the key is no longer in use.
#[verifier::external_body]
pub(crate) fn parties_remove(t: &mut PartyTable, key: u64)
    requires
        is_slot_key(key),
    ensures
        party_entries(*final(t)) == party_entries(*old(t)).remove(key),
        party_keys_given(*final(t)) == party_keys_given(*old(t)),
{
    t.inner.remove(DefaultKey::from(KeyData::from_ffi(key)));
}

/// The index of a key's slot is its lower half, and a key has the form of one if
/// its upper half is odd.
pub proof fn lemma_key_halves(version: u32, index: u32)
    ensures
        slot_index((version * 0x1_0000_0000 + index) as u64) == index,
        is_slot_key((version * 0x1_0000_0000 + index) as u64) <==> version % 2 == 1,
{
}

/// A slot has given out one key more with each key of its own, and none with those
/// of other slots.
pub proof fn lemma_turns(given: Seq<u64>, next: u64, key: u64)
    ensures
        turns(Seq::empty(), key) == 0,
        next % 0x1_0000_0000 == key % 0x1_0000_0000 ==> turns(given.push(next), key) == turns(
            given,
            key,
        ) + 1,
        next % 0x1_0000_0000 != key % 0x1_0000_0000 ==> turns(given.push(next), key) == turns(
            given,
            key,
        ),
{
    assert(given.push(next).drop_last() =~= given);
}

} // verus!
