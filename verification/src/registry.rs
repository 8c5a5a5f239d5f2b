//! The subscriber registry: the connections that currently receive the relayed
//! datagrams, in the order in which they joined.
//!
//! The registry is the one piece of state that the accepting side and the relaying
//! side share. The accepting side appends to it; the relaying side, once per
//! datagram, writes to every subscriber and then drops those whose write failed.
//! The program that owns the registry guards it with a single lock, so that each of
//! these steps is seen as a whole.

use vstd::prelude::*;

verus! {

/// One connected consumer: the connection `handle` that is written to, and the
/// identity under which the registry knows it.
pub struct Subscriber<H> {
    pub id: u64,
    pub handle: H,
}

/// Whether the member at `position` stays after a pass that ended with `outcomes`.
/// `outcomes[position]` says whether the write to that member succeeded. A member for
/// which nothing is reported was not written to, and stays.
pub open spec fn stays(outcomes: Seq<bool>, position: int) -> bool {
    0 <= position < outcomes.len() ==> outcomes[position]
}

/// The members that are left after a pass: those that stay, in their old order.
pub open spec fn survivors<T>(members: Seq<T>, outcomes: Seq<bool>) -> Seq<T>
    decreases members.len(),
{
    if members.len() == 0 {
        Seq::empty()
    } else {
        let earlier = survivors(members.drop_last(), outcomes);
        if stays(outcomes, members.len() - 1) {
            earlier.push(members.last())
        } else {
            earlier
        }
    }
}

/// The identities of a sequence of subscribers, in the same order.
pub open spec fn identities<H>(subscribers: Seq<Subscriber<H>>) -> Seq<nat> {
    subscribers.map_values(|subscriber: Subscriber<H>| subscriber.id as nat)
}

/// What a registry is, apart from the handles: who is registered, in joining order,
/// and how many identities have been given out so far.
pub struct Roster {
    pub members: Seq<nat>,
    pub issued: nat,
}

impl Roster {
    /// The roster of a registry that nobody has joined yet.
    pub open spec fn empty() -> Roster {
        Roster { members: Seq::empty(), issued: 0 }
    }

    /// Identities are given out in increasing order and the members are kept in
    /// joining order, so the members are strictly increasing and all lie below the
    /// next identity. In particular no identity occurs twice.
    pub open spec fn wf(self) -> bool {
        &&& forall|i: int| 0 <= i < self.members.len() ==> self.members[i] < self.issued
        &&& forall|i: int, j: int|
            0 <= i < j < self.members.len() ==> self.members[i] < self.members[j]
    }

    /// The roster after one more subscriber has joined: it takes the next identity
    /// and stands last.
    pub open spec fn join(self) -> Roster {
        Roster { members: self.members.push(self.issued), issued: self.issued + 1 }
    }

    /// The roster after a pass that ended with `outcomes`.
    pub open spec fn evict(self, outcomes: Seq<bool>) -> Roster {
        Roster { members: survivors(self.members, outcomes), issued: self.issued }
    }

    /// Whether the write to `id` succeeded in a pass over this roster that ended with
    /// `outcomes`.
    pub open spec fn delivered(self, outcomes: Seq<bool>, id: nat) -> bool {
        exists|i: int|
            0 <= i < self.members.len() && i < outcomes.len() && self.members[i] == id
                && outcomes[i]
    }
}

/// A member survives a pass exactly if it stood at a position that stays.
pub proof fn lemma_survivors_contains<T>(members: Seq<T>, outcomes: Seq<bool>, member: T)
    ensures
        survivors(members, outcomes).contains(member) <==> exists|i: int|
            0 <= i < members.len() && members[i] == member && stays(outcomes, i),
    decreases members.len(),
{
    let claim = exists|i: int| 0 <= i < members.len() && members[i] == member && stays(outcomes, i);
    if members.len() > 0 {
        let front = members.drop_last();
        let last = members.len() - 1;
        lemma_survivors_contains(front, outcomes, member);
        let earlier = survivors(front, outcomes);
        if survivors(members, outcomes).contains(member) {
            if earlier.contains(member) {
                let i = choose|i: int| 0 <= i < front.len() && front[i] == member && stays(outcomes, i);
                assert(members[i] == member);
            } else {
                assert(stays(outcomes, last));
                let k = choose|k: int|
                    0 <= k < survivors(members, outcomes).len() && survivors(members, outcomes)[k]
                        == member;
                assert(k == earlier.len());
                assert(members[last] == member);
            }
            assert(claim);
        }
        if claim {
            let i = choose|i: int| 0 <= i < members.len() && members[i] == member && stays(outcomes, i);
            if i < last {
                assert(front[i] == member);
                assert(earlier.contains(member));
                let k = choose|k: int| 0 <= k < earlier.len() && earlier[k] == member;
                assert(survivors(members, outcomes)[k] == member);
            } else {
                assert(survivors(members, outcomes)[earlier.len() as int] == member);
            }
            assert(survivors(members, outcomes).contains(member));
        }
    }
}

/// When every member stays, the pass leaves the members as they were.
pub proof fn lemma_survivors_all_stay<T>(members: Seq<T>, outcomes: Seq<bool>)
    requires
        forall|i: int| 0 <= i < members.len() ==> stays(outcomes, i),
    ensures
        survivors(members, outcomes) == members,
    decreases members.len(),
{
    if members.len() > 0 {
        lemma_survivors_all_stay(members.drop_last(), outcomes);
        assert(members.drop_last().push(members.last()) =~= members);
    }
}

/// Taking the survivors and renaming the members can be done in either order.
pub proof fn lemma_survivors_map<A, B>(members: Seq<A>, outcomes: Seq<bool>, rename: spec_fn(A) -> B)
    ensures
        survivors(members.map_values(rename), outcomes) == survivors(
            members,
            outcomes,
        ).map_values(rename),
    decreases members.len(),
{
    let renamed = members.map_values(rename);
    if members.len() == 0 {
        assert(survivors(members, outcomes).map_values(rename) =~= Seq::<B>::empty());
    } else {
        lemma_survivors_map(members.drop_last(), outcomes, rename);
        assert(renamed.drop_last() =~= members.drop_last().map_values(rename));
        let earlier = survivors(members.drop_last(), outcomes);
        assert(earlier.push(members.last()).map_values(rename) =~= earlier.map_values(rename).push(
            rename(members.last()),
        ));
    }
}

/// A pass keeps a roster well formed: it only removes members.
pub proof fn lemma_evict_preserves_wf(roster: Roster, outcomes: Seq<bool>)
    requires
        roster.wf(),
    ensures
        roster.evict(outcomes).wf(),
    decreases roster.members.len(),
{
    let members = roster.members;
    if members.len() > 0 {
        let front = Roster { members: members.drop_last(), issued: roster.issued };
        lemma_evict_preserves_wf(front, outcomes);
        let earlier = survivors(front.members, outcomes);
        assert forall|k: int| 0 <= k < earlier.len() implies earlier[k] < members.last() by {
            lemma_survivors_contains(front.members, outcomes, earlier[k]);
            assert(earlier.contains(earlier[k]));
            let i = choose|i: int|
                0 <= i < front.members.len() && front.members[i] == earlier[k] && stays(
                    outcomes,
                    i,
                );
            assert(members[i] == earlier[k]);
        }
        let after = roster.evict(outcomes);
        assert forall|i: int| 0 <= i < after.members.len() implies after.members[i]
            < after.issued by {
            if i < earlier.len() {
                assert(earlier[i] < members.last());
            }
        }
        assert forall|i: int, j: int| 0 <= i < j < after.members.len() implies after.members[i]
            < after.members[j] by {
            if j < earlier.len() {
                assert(front.evict(outcomes).members[i] < front.evict(outcomes).members[j]);
            } else {
                assert(earlier[i] < members.last());
            }
        }
    }
}

/// The registry of connected subscribers.
///
/// A subscriber that is in the registry is taken to be writable. It leaves the
/// registry when a write to it fails, and then for good: a peer that comes back is a
/// new subscriber under a new identity.
pub struct Registry<H> {
    entries: Vec<Subscriber<H>>,
    issued: u64,
}

impl<H> View for Registry<H> {
    type V = Roster;

    open spec fn view(&self) -> Roster {
        Roster { members: identities(self.subscribers()), issued: self.identities_issued() }
    }
}

impl<H> Registry<H> {
    /// The subscribers in joining order.
    pub closed spec fn subscribers(&self) -> Seq<Subscriber<H>> {
        self.entries@
    }

    /// How many identities have been given out.
    pub closed spec fn identities_issued(&self) -> nat {
        self.issued as nat
    }

    #[verifier::type_invariant]
    spec fn well_formed(&self) -> bool {
        self@.wf()
    }

    /// A registry without subscribers.
    pub fn new() -> (registry: Registry<H>)
        ensures
            registry@ == Roster::empty(),
            registry@.wf(),
            registry.subscribers() == Seq::<Subscriber<H>>::empty(),
    {
        let registry = Registry { entries: Vec::new(), issued: 0 };
        assert(identities(registry.entries@) =~= Seq::<nat>::empty());
        registry
    }

    /// How many subscribers are registered.
    pub fn len(&self) -> (count: usize)
        ensures
            count == self.subscribers().len(),
            count == self@.members.len(),
            self@.wf(),
    {
        proof {
            use_type_invariant(self);
        }
        self.entries.len()
    }

    /// Whether no subscriber is registered.
    pub fn is_empty(&self) -> (empty: bool)
        ensures
            empty == (self@.members.len() == 0),
    {
        self.entries.len() == 0
    }

    /// How many identities have been given out: the identity that the next
    /// subscriber will get.
    pub fn issued(&self) -> (issued: u64)
        ensures
            issued == self@.issued,
    {
        self.issued
    }

    /// The subscriber at `position` in joining order, if there is one.
    pub fn get(&self, position: usize) -> (found: Option<&Subscriber<H>>)
        ensures
            position < self.subscribers().len() ==> found == Some(
                &self.subscribers()[position as int],
            ),
            position >= self.subscribers().len() ==> found.is_none(),
    {
        if position < self.entries.len() {
            Some(&self.entries[position])
        } else {
            None
        }
    }

    /// Whether a subscriber with identity `id` is registered.
    pub fn contains(&self, id: u64) -> (found: bool)
        ensures
            found == self@.members.contains(id as nat),
    {
        let ghost members = identities(self.entries@);
        let mut position: usize = 0;
        while position < self.entries.len()
            invariant
                position <= self.entries.len(),
                members == identities(self.entries@),
                forall|i: int| 0 <= i < position ==> members[i] != id as nat,
            decreases self.entries.len() - position,
        {
            if self.entries[position].id == id {
                assert(members[position as int] == id as nat);
                return true;
            }
            position += 1;
        }
        false
    }

    /// Registers a new subscriber: it gets the next identity and stands last.
    /// Nobody else is touched, and nothing is compared: a peer that connects twice
    /// is registered twice.
    pub fn register(&mut self, handle: H) -> (id: u64)
        requires
            old(self)@.issued < u64::MAX,
        ensures
            id == old(self)@.issued,
            final(self)@ == old(self)@.join(),
            final(self)@.wf(),
            final(self).subscribers() == old(self).subscribers().push(
                (Subscriber { id, handle }),
            ),
    {
        proof {
            use_type_invariant(&*self);
        }
        let id = self.issued;
        let mut entries: Vec<Subscriber<H>> = Vec::new();
        core::mem::swap(&mut self.entries, &mut entries);
        entries.push(Subscriber { id, handle });
        assert(identities(entries@) =~= identities(old(self).entries@).push(id as nat));
        assert(old(self)@.join().wf()) by {
            let joined = old(self)@.join();
            assert forall|i: int, j: int| 0 <= i < j < joined.members.len() implies joined.members[i]
                < joined.members[j] by {
                assert(old(self)@.members[i] < old(self)@.issued);
            }
        }
        self.issued = id + 1;
        self.entries = entries;
        id
    }

    /// Ends a pass: `outcomes[i]` says whether the write to the subscriber at
    /// position `i` succeeded. Every subscriber whose write failed leaves the
    /// registry, and its handle is dropped; the others stay in their order. Returns
    /// how many left.
    pub fn evict_failed(&mut self, outcomes: &[bool]) -> (evicted: usize)
        ensures
            final(self).subscribers() == survivors(old(self).subscribers(), outcomes@),
            final(self)@ == old(self)@.evict(outcomes@),
            final(self)@.wf(),
            evicted == old(self).subscribers().len() - final(self).subscribers().len(),
    {
        proof {
            use_type_invariant(&*self);
        }
        let ghost before = self.entries@;
        let mut taken: Vec<Subscriber<H>> = Vec::new();
        core::mem::swap(&mut self.entries, &mut taken);
        let count = taken.len();
        let mut kept: Vec<Subscriber<H>> = Vec::new();
        let mut position: usize = 0;
        for entry in turn: taken
            invariant
                turn.seq() == before,
                position == turn.index(),
                kept@ == survivors(before.take(position as int), outcomes@),
                kept.len() <= position,
                before.len() == count,
        {
            assert(position < before.len());
            assert(before.take(position + 1).drop_last() =~= before.take(position as int));
            if position >= outcomes.len() || outcomes[position] {
                kept.push(entry);
            }
            position += 1;
        }
        assert(before.take(position as int) =~= before);
        proof {
            lemma_survivors_map(before, outcomes@, |subscriber: Subscriber<H>| subscriber.id as nat);
            lemma_evict_preserves_wf(old(self)@, outcomes@);
        }
        let evicted = count - kept.len();
        self.entries = kept;
        evicted
    }
}

} // verus!
