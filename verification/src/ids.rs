//! Typed identifiers and the counters that hand them out.
use crate::decimal::{decimal, to_decimal};
use std::marker::PhantomData;
use vstd::prelude::*;
use vstd::std_specs::cmp::{PartialEqSpec, PartialEqSpecImpl};
use vstd::string::StringExecFns;

verus! {

/// Marks the ids of workers.
#[derive(Debug, Clone, Copy, PartialEq, Eq, Hash)]
pub struct WorkerTag;

/// Marks the ids of sessions.
#[derive(Debug, Clone, Copy, PartialEq, Eq, Hash)]
pub struct SessionTag;

/// Marks the ids of parties.
#[derive(Debug, Clone, Copy, PartialEq, Eq, Hash)]
pub struct PartyTag;

/// Marks the ids of groups inside a party.
#[derive(Debug, Clone, Copy, PartialEq, Eq, Hash)]
pub struct GroupTag;

/// Marks the ids that a party gives to its members.
#[derive(Debug, Clone, Copy, PartialEq, Eq, Hash)]
pub struct MemberTag;

/// Something that marks ids.
trait Tag {
    /// What tells apart the ids with this mark.
    type Number;
}

impl<T> Tag for T {
    type Number = u64;
}

/// A 64-bit identifier; `T` keeps ids of different kinds apart.
///
/// Its view is the number it carries. It holds nothing else, also nothing of the
/// mark, so that its derived text is the same for all kinds: `Id(7)`.
#[derive(Debug, Hash)]
pub struct Id<T>(<T as Tag>::Number);

/// The id of a worker, as the farm numbers workers.
pub type WorkerId = Id<WorkerTag>;

/// The id of a session.
pub type SessionId = Id<SessionTag>;

/// The id of a party.
pub type PartyId = Id<PartyTag>;

/// The id of a group inside a party.
pub type GroupId = Id<GroupTag>;

/// The id of a member inside a party.
pub type MemberId = Id<MemberTag>;

/// The key under which a slot table stores a session, in its 64-bit form.
pub type SessionKey = SessionId;

/// The key under which a slot table stores a party, in its 64-bit form.
pub type PartyKey = PartyId;

/// The key of a group.
pub type GroupKey = GroupId;

/// A session's position on its worker's wire.
#[derive(Debug, Clone, Copy, PartialEq, Eq, Hash, Structural)]
pub struct WorkerSlot(pub usize);

impl<T> View for Id<T> {
    type V = u64;

    closed spec fn view(&self) -> u64 {
        self.0
    }
}

impl<T> Clone for Id<T> {
    fn clone(&self) -> (r: Self)
        ensures
            r == *self,
    {
        *self
    }
}

impl<T> Copy for Id<T> {

}

impl<T> PartialEq for Id<T> {
    fn eq(&self, other: &Self) -> (r: bool) {
        self.0 == other.0
    }
}

impl<T> Eq for Id<T> {

}

impl<T> PartialEqSpecImpl for Id<T> {
    open spec fn obeys_eq_spec() -> bool {
        true
    }

    open spec fn eq_spec(&self, other: &Self) -> bool {
        self@ == other@
    }
}

/// The id with a number, in writing.
pub open spec fn label_of(raw: u64) -> Seq<char> {
    seq!['I', 'd', '('] + decimal(raw as nat) + seq![')']
}

impl<T> Id<T> {
    /// The number behind the id.
    pub fn inner(self) -> (r: u64)
        ensures
            r == self@,
    {
        self.0
    }

    /// The id in writing, such as `Id(7)`.
    pub fn label(self) -> (r: String)
        ensures
            r@ == label_of(self@),
    {
        proof {
            reveal_strlit("Id(");
            reveal_strlit(")");
        }
        let mut r = "Id(".to_owned();
        r.append(to_decimal(self.0).as_str());
        r.append(")");
        assert(r@ =~= label_of(self@));
        r
    }

    /// The id that carries `inner`.
    pub fn from_raw(inner: u64) -> (r: Self)
        ensures
            r@ == inner,
    {
        Id(inner)
    }
}

/// The id that carries a number.
pub closed spec fn id_of<T>(raw: u64) -> Id<T> {
    Id(raw)
}

/// The id that carries a number carries that number, and no other id does.
pub proof fn lemma_id_of<T>(raw: u64)
    ensures
        id_of::<T>(raw)@ == raw,
        forall|id: Id<T>| #[trigger] id@ == raw ==> id == id_of::<T>(raw),
{
}

/// The numbers of a list of ids.
pub open spec fn numbers<T>(ids: Seq<Id<T>>) -> Seq<u64> {
    ids.map_values(|id: Id<T>| id@)
}

/// The numbers of the first `n + 1` ids are those of the first `n`, and that of
/// the next one.
pub proof fn lemma_numbers_taken<T>(ids: Seq<Id<T>>, n: int)
    requires
        0 <= n < ids.len(),
    ensures
        numbers(ids.take(n + 1)).to_set() == numbers(ids.take(n)).to_set().insert(ids[n]@),
{
    let xs = numbers(ids.take(n));
    let ys = xs.push(ids[n]@);
    assert(numbers(ids.take(n + 1)) =~= ys);
    assert forall|k: u64| #[trigger] ys.to_set().contains(k) <==> xs.to_set().insert(
        ids[n]@,
    ).contains(k) by {
        if xs.contains(k) {
            let j = xs.index_of(k);
            assert(ys[j] == k);
        }
        assert(ys[xs.len() as int] == ids[n]@);
        if ys.contains(k) && k != ids[n]@ {
            let j = ys.index_of(k);
            assert(xs[j] == k);
        }
    }
    assert(ys.to_set() =~= xs.to_set().insert(ids[n]@));
}

/// An id is nothing but its number: two ids of one kind that carry the same
/// number are the same id, so `from_raw` and `inner` undo each other.
pub broadcast proof fn lemma_id_is_its_number<T>(a: Id<T>, b: Id<T>)
    requires
        a@ == b@,
    ensures
        #![trigger a@, b@]
        a == b,
{
}

/// A counter that hands out ids one after the other.
///
/// Its view is the number of the id it hands out next.
pub struct IdGen<T> {
    next: u64,
    _tag: PhantomData<T>,
}

impl<T> View for IdGen<T> {
    type V = u64;

    closed spec fn view(&self) -> u64 {
        self.next
    }
}

impl<T> Default for IdGen<T> {
    fn default() -> (r: Self)
        ensures
            r@ == 0,
    {
        IdGen { next: 0, _tag: PhantomData }
    }
}

/// The number after `n`, starting over at zero behind the largest one.
pub open spec fn succ_id(n: u64) -> u64 {
    if n == u64::MAX {
        0
    } else {
        (n + 1) as u64
    }
}

impl<T> IdGen<T> {
    /// Hands out the current id and moves on to the next one.
    pub fn next(&mut self) -> (r: Id<T>)
        ensures
            r@ == old(self)@,
            final(self)@ == succ_id(old(self)@),
    {
        let id = Id(self.next);
        self.next = self.next.wrapping_add(1);
        id
    }
}

/// The number of the id handed out after `n` others by a counter at `start`.
pub open spec fn nth_id(start: u64, n: nat) -> u64
    decreases n,
{
    if n == 0 {
        start
    } else {
        succ_id(nth_id(start, (n - 1) as nat))
    }
}

proof fn lemma_nth_id(start: u64, n: nat)
    ensures
        nth_id(start, n) == (start + n) % 0x1_0000_0000_0000_0000,
    decreases n,
{
    if n > 0 {
        lemma_nth_id(start, (n - 1) as nat);
    }
}

/// A counter hands out no id twice within any 2^64 consecutive calls.
pub proof fn lemma_ids_are_distinct(start: u64, i: nat, j: nat)
    requires
        i < j,
        j - i < 0x1_0000_0000_0000_0000,
    ensures
        nth_id(start, i) != nth_id(start, j),
{
    lemma_nth_id(start, i);
    lemma_nth_id(start, j);
}

/// How many ids a counter at `start` hands out before it comes to number `k`.
pub open spec fn ids_before(start: u64, k: u64) -> int {
    if start <= k {
        k - start
    } else {
        0x1_0000_0000_0000_0000 - start + k
    }
}

/// A counter comes to a number after the ids before it, and not earlier.
pub proof fn lemma_ids_before(start: u64, k: u64, n: nat)
    ensures
        nth_id(start, ids_before(start, k) as nat) == k,
        n < ids_before(start, k) ==> nth_id(start, n) != k,
{
    lemma_nth_id(start, ids_before(start, k) as nat);
    lemma_nth_id(start, n);
}

/// The number after another is one more, and behind the largest comes zero.
pub proof fn lemma_succ_id(n: u64)
    ensures
        n < u64::MAX ==> succ_id(n) == n + 1,
        succ_id(u64::MAX) == 0,
{
}

/// An id in writing is its number, in decimal, between the word and the brackets.
pub proof fn lemma_label(raw: u64)
    ensures
        label_of(raw) == "Id("@ + decimal(raw as nat) + ")"@,
{
    reveal_strlit("Id(");
    reveal_strlit(")");
    assert(label_of(raw) =~= "Id("@ + decimal(raw as nat) + ")"@);
}

/// The numbers of a list of ids are those of each, at its place.
pub proof fn lemma_numbers_at<T>(ids: Seq<Id<T>>, i: int)
    ensures
        numbers(ids).len() == ids.len(),
        0 <= i < ids.len() ==> numbers(ids)[i] == ids[i]@,
{
}

/// Two ids are equal if and only if they carry the same number.
pub proof fn lemma_ids_equal<T>(a: Id<T>, b: Id<T>)
    ensures
        PartialEqSpec::eq_spec(&a, &b) <==> a@ == b@,
        a == b <==> a@ == b@,
{
}

} // verus!
