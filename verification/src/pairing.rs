//! One-to-one pairings, kept by an outside two-way hash map.
use bimap::BiHashMap;
use vstd::prelude::*;

verus! {

/// The two-way hash map of the `bimap` crate.
#[verifier::external_type_specification]
#[verifier::external_body]
#[verifier::reject_recursive_types(L)]
#[verifier::reject_recursive_types(R)]
#[verifier::reject_recursive_types(LS)]
#[verifier::reject_recursive_types(RS)]
pub struct ExBiHashMap<L, R, LS, RS>(bimap::BiHashMap<L, R, LS, RS>);

/// `pairs` with `left` paired to `right`; whatever either was paired with
/// before is no longer in it.
pub open spec fn paired<L, R>(pairs: Map<L, R>, left: L, right: R) -> Map<L, R> {
    pairs.filter_keys(|l: L| pairs[l] != right).insert(left, right)
}

/// No two left sides share a right side.
pub open spec fn one_to_one<L, R>(pairs: Map<L, R>) -> bool {
    forall|a: L, b: L|
        #![trigger pairs[a], pairs[b]]
        pairs.contains_key(a) && pairs.contains_key(b) && pairs[a] == pairs[b] ==> a == b
}

/// The left side that `right` is paired with.
pub open spec fn left_of<L, R>(pairs: Map<L, R>, right: R) -> Option<L> {
    if exists|l: L| #[trigger] pairs.contains_key(l) && pairs[l] == right {
        Some(choose|l: L| #[trigger] pairs.contains_key(l) && pairs[l] == right)
    } else {
        None
    }
}

/// Pairing keeps a pairing one-to-one, and both lookups then find the new pair.
pub proof fn lemma_paired<L, R>(pairs: Map<L, R>, left: L, right: R)
    requires
        one_to_one(pairs),
    ensures
        one_to_one(paired(pairs, left, right)),
        paired(pairs, left, right)[left] == right,
        paired(pairs, left, right).contains_key(left),
        left_of(paired(pairs, left, right), right) == Some(left),
{
    let after = paired(pairs, left, right);
    assert(after.contains_key(left) && after[left] == right);
    assert(one_to_one(after));
}

/// In a one-to-one pairing, looking up a right side leads to the left side that
/// leads to it, and nowhere else.
pub proof fn lemma_left_of<L, R>(pairs: Map<L, R>, left: L)
    requires
        one_to_one(pairs),
        pairs.contains_key(left),
    ensures
        left_of(pairs, pairs[left]) == Some(left),
{
}

/// A party's number and a member's number in it.
pub type MemberRef = (u64, u64);

/// A worker's number and a session's number on it.
pub type SessionRef = (u32, usize);

/// The session that each member of a table is paired with.
pub uninterp spec fn member_pairs(m: BiHashMap<MemberRef, SessionRef>) -> Map<
    MemberRef,
    SessionRef,
>;

/// `BiHashMap::new`: nothing is paired.
#[verifier::external_body]
pub(crate) fn members_new() -> (r: BiHashMap<MemberRef, SessionRef>)
    ensures
        member_pairs(r) == (Map::<MemberRef, SessionRef>::empty()),
{
    BiHashMap::new()
}

/// `BiHashMap::insert`: the two are paired, and no longer with anything else.
#[verifier::external_body]
pub(crate) fn members_insert(
    m: &mut BiHashMap<MemberRef, SessionRef>,
    member: MemberRef,
    session: SessionRef,
)
    ensures
        member_pairs(*final(m)) == paired(member_pairs(*old(m)), member, session),
{
    m.insert(member, session);
}

/// `BiHashMap::get_by_left`: what a left side is paired with.
#[verifier::external_body]
pub(crate) fn members_get_by_left(m: &BiHashMap<MemberRef, SessionRef>, member: MemberRef) -> (r:
    Option<SessionRef>)
    ensures
        match r {
            Some(session) => {
                &&& member_pairs(*m).contains_key(member)
                &&& member_pairs(*m)[member] == session
            },
            None => !member_pairs(*m).contains_key(member),
        },
{
    m.get_by_left(&member).copied()
}

/// `BiHashMap::get_by_right`: what a right side is paired with.
#[verifier::external_body]
pub(crate) fn members_get_by_right(m: &BiHashMap<MemberRef, SessionRef>, session: SessionRef) -> (r:
    Option<MemberRef>)
    ensures
        match r {
            Some(member) => {
                &&& member_pairs(*m).contains_key(member)
                &&& member_pairs(*m)[member] == session
            },
            None => forall|member: MemberRef| #[trigger]
                member_pairs(*m).contains_key(member) ==> member_pairs(*m)[member] != session,
        },
{
    m.get_by_right(&session).copied()
}

/// Pairing two sides leaves every other pair as it was, but for the one that the
/// right side was in; and what the left side was paired with is paired with it no
/// more.
pub proof fn lemma_other_pairs<L, R>(pairs: Map<L, R>, left: L, right: R, other: L)
    requires
        other != left,
    ensures
        paired(pairs, left, right).contains_key(other) <==> pairs.contains_key(other)
            && pairs[other] != right,
        paired(pairs, left, right).contains_key(other) ==> paired(pairs, left, right)[other]
            == pairs[other],
{
}

/// A left side is found for a right side only if the two are paired, and one is
/// found wherever there is one.
pub proof fn lemma_left_found<L, R>(pairs: Map<L, R>, left: L, right: R)
    ensures
        left_of(pairs, right) == Some(left) ==> pairs.contains_key(left) && pairs[left] == right,
        left_of(pairs, right) is None ==> !(pairs.contains_key(left) && pairs[left] == right),
        one_to_one(pairs) && pairs.contains_key(left) && pairs[left] == right ==> left_of(
            pairs,
            right,
        ) == Some(left),
{
}

} // verus!
