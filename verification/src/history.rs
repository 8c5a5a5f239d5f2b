//! Runs of the relay: what holds over whole sequences of events.
//!
//! A run is described by what the program reports to the library, in order.
//! `Event::Joined` stands for a call of `Registry::register`. `Event::Relayed`
//! stands for one received datagram: a call of `ThroughputCounter::record` with the
//! payload's length, a write of the payload to every registered subscriber, and a
//! call of `Registry::evict_failed` with the outcomes of those writes. The state
//! that a run leaves behind is defined by the same functions that the contracts of
//! those calls use.

use vstd::prelude::*;
use crate::registry::{lemma_evict_preserves_wf, lemma_survivors_all_stay, lemma_survivors_contains, stays, Roster};

verus! {

/// One thing that happens to the relay.
pub enum Event {
    /// A consumer connected and was registered.
    Joined,
    /// A datagram with this payload was received, and the pass over the registry
    /// ended with these outcomes, one for each subscriber in registry order.
    Relayed { payload: Seq<u8>, outcomes: Seq<bool> },
}

/// The shared state of the relay: who is registered, and how many payload bytes
/// were received.
pub struct Relay {
    pub roster: Roster,
    pub received: nat,
}

/// The payload bytes of all datagrams in `events`, counted.
pub open spec fn payload_bytes(events: Seq<Event>) -> nat
    decreases events.len(),
{
    if events.len() == 0 {
        0
    } else {
        let rest = payload_bytes(events.drop_first());
        match events.first() {
            Event::Joined => rest,
            Event::Relayed { payload, outcomes } => payload.len() + rest,
        }
    }
}

/// The payloads of all datagrams in `events`, one after the other with nothing
/// between them.
pub open spec fn payloads(events: Seq<Event>) -> Seq<u8>
    decreases events.len(),
{
    if events.len() == 0 {
        Seq::empty()
    } else {
        let rest = payloads(events.drop_first());
        match events.first() {
            Event::Joined => rest,
            Event::Relayed { payload, outcomes } => payload + rest,
        }
    }
}

/// Nothing but datagrams, each written with success to every one of `count`
/// subscribers.
pub open spec fn undisturbed(events: Seq<Event>, count: nat) -> bool {
    forall|k: int|
        0 <= k < events.len() ==> match #[trigger] events[k] {
            Event::Joined => false,
            Event::Relayed { payload, outcomes } => outcomes.len() == count && forall|i: int|
                0 <= i < count ==> outcomes[i],
        }
}

impl Relay {
    /// The state after one event.
    pub open spec fn after(self, event: Event) -> Relay {
        match event {
            Event::Joined => Relay { roster: self.roster.join(), received: self.received },
            Event::Relayed { payload, outcomes } => Relay {
                roster: self.roster.evict(outcomes),
                received: self.received + payload.len(),
            },
        }
    }

    /// The state after a sequence of events.
    pub open spec fn after_all(self, events: Seq<Event>) -> Relay
        decreases events.len(),
    {
        if events.len() == 0 {
            self
        } else {
            self.after(events.first()).after_all(events.drop_first())
        }
    }

    /// The bytes that one event puts on the stream of subscriber `id`: the payload,
    /// if the event is a datagram and the write to `id` succeeded.
    pub open spec fn written(self, event: Event, id: nat) -> Seq<u8> {
        match event {
            Event::Joined => Seq::empty(),
            Event::Relayed { payload, outcomes } => if self.roster.delivered(outcomes, id) {
                payload
            } else {
                Seq::empty()
            },
        }
    }

    /// The bytes that a sequence of events puts on the stream of subscriber `id`.
    pub open spec fn stream(self, events: Seq<Event>, id: nat) -> Seq<u8>
        decreases events.len(),
    {
        if events.len() == 0 {
            Seq::empty()
        } else {
            self.written(events.first(), id) + self.after(events.first()).stream(
                events.drop_first(),
                id,
            )
        }
    }

    /// Every datagram in `events` is written with success to subscriber `id`.
    pub open spec fn reaches(self, events: Seq<Event>, id: nat) -> bool
        decreases events.len(),
    {
        events.len() > 0 ==> {
            &&& match events.first() {
                Event::Joined => true,
                Event::Relayed { payload, outcomes } => self.roster.delivered(outcomes, id),
            }
            &&& self.after(events.first()).reaches(events.drop_first(), id)
        }
    }
}

/// One event leaves a well-formed roster well formed.
pub proof fn lemma_after_preserves_wf(relay: Relay, event: Event)
    requires
        relay.roster.wf(),
    ensures
        relay.after(event).roster.wf(),
        relay.after(event).roster.issued >= relay.roster.issued,
{
    match event {
        Event::Joined => {},
        Event::Relayed { payload, outcomes } => {
            lemma_evict_preserves_wf(relay.roster, outcomes);
        },
    }
}

/// A run leaves a well-formed roster well formed, and never takes an identity
/// back: the number of identities given out does not go down.
pub proof fn lemma_run_preserves_wf(relay: Relay, events: Seq<Event>)
    requires
        relay.roster.wf(),
    ensures
        relay.after_all(events).roster.wf(),
        relay.after_all(events).roster.issued >= relay.roster.issued,
    decreases events.len(),
{
    if events.len() > 0 {
        lemma_after_preserves_wf(relay, events.first());
        lemma_run_preserves_wf(relay.after(events.first()), events.drop_first());
    }
}

/// A run can be cut in two: the second part starts where the first part ended, and
/// a subscriber's stream is what the first part wrote, followed by what the second
/// part wrote.
pub proof fn lemma_run_in_two_parts(relay: Relay, first: Seq<Event>, second: Seq<Event>, id: nat)
    ensures
        relay.after_all(first + second) == relay.after_all(first).after_all(second),
        relay.stream(first + second, id) == relay.stream(first, id) + relay.after_all(
            first,
        ).stream(second, id),
    decreases first.len(),
{
    if first.len() == 0 {
        assert(first + second =~= second);
        assert(relay.stream(first, id) + relay.stream(second, id) =~= relay.stream(second, id));
    } else {
        let whole = first + second;
        assert(whole.first() == first.first());
        assert(whole.drop_first() =~= first.drop_first() + second);
        let next = relay.after(first.first());
        lemma_run_in_two_parts(next, first.drop_first(), second, id);
        assert(relay.stream(whole, id) =~= relay.stream(first, id) + relay.after_all(first).stream(
            second,
            id,
        ));
    }
}

/// The counter after a run is the counter before it plus the payload lengths of
/// all datagrams of the run. Nothing else enters: not the number of subscribers,
/// not the outcome of any write.
pub proof fn lemma_received_is_sum(relay: Relay, events: Seq<Event>)
    ensures
        relay.after_all(events).received == relay.received + payload_bytes(events),
        relay.after_all(events).received >= relay.received,
    decreases events.len(),
{
    if events.len() > 0 {
        lemma_received_is_sum(relay.after(events.first()), events.drop_first());
    }
}

/// A datagram that arrives while nobody is registered is counted in full, is
/// written to nobody, and leaves the registry as it was.
pub proof fn lemma_empty_registry_pass(relay: Relay, payload: Seq<u8>, outcomes: Seq<bool>, id: nat)
    requires
        relay.roster.members.len() == 0,
    ensures
        relay.after((Event::Relayed { payload, outcomes })) == (Relay {
            roster: relay.roster,
            received: relay.received + payload.len(),
        }),
        relay.written((Event::Relayed { payload, outcomes }), id) == Seq::<u8>::empty(),
{
    assert(relay.roster.evict(outcomes).members =~= relay.roster.members);
}

/// A subscriber that every datagram of a run is written to with success has
/// received, at the end of the run, the payloads of the run in the order of their
/// arrival, with nothing added and nothing left out.
pub proof fn lemma_served_stream(relay: Relay, events: Seq<Event>, id: nat)
    requires
        relay.reaches(events, id),
    ensures
        relay.stream(events, id) == payloads(events),
    decreases events.len(),
{
    if events.len() > 0 {
        lemma_served_stream(relay.after(events.first()), events.drop_first(), id);
    }
}

/// Fan-out equivalence: while the registered subscribers stay connected, nobody
/// joins and no write fails, every one of them receives the same bytes, namely the
/// payloads of the datagrams one after the other in the order of their arrival; and
/// the registry is left as it was.
pub proof fn lemma_fan_out_equivalence(relay: Relay, events: Seq<Event>, id: nat)
    requires
        relay.roster.members.contains(id),
        undisturbed(events, relay.roster.members.len()),
    ensures
        relay.stream(events, id) == payloads(events),
        relay.after_all(events).roster == relay.roster,
    decreases events.len(),
{
    if events.len() > 0 {
        let first = events.first();
        assert(first == events[0]);
        match first {
            Event::Joined => {},
            Event::Relayed { payload, outcomes } => {
                assert forall|i: int| 0 <= i < relay.roster.members.len() implies stays(
                    outcomes,
                    i,
                ) by {}
                lemma_survivors_all_stay(relay.roster.members, outcomes);
                let i = choose|i: int|
                    0 <= i < relay.roster.members.len() && relay.roster.members[i] == id;
                assert(outcomes[i]);
                assert(relay.roster.delivered(outcomes, id));
            },
        }
        let rest = events.drop_first();
        assert forall|k: int| 0 <= k < rest.len() implies match #[trigger] rest[k] {
            Event::Joined => false,
            Event::Relayed { payload, outcomes } => outcomes.len() == relay.roster.members.len()
                && forall|i: int| 0 <= i < relay.roster.members.len() ==> outcomes[i],
        } by {
            assert(rest[k] == events[k + 1]);
        }
        lemma_fan_out_equivalence(relay.after(first), rest, id);
    }
}

/// Whoever is not registered, under an identity that was given out before, stays
/// out whatever happens: no run registers that identity again, and no run writes
/// to it.
pub proof fn lemma_outsider_stays_out(relay: Relay, events: Seq<Event>, id: nat)
    requires
        relay.roster.wf(),
        id < relay.roster.issued,
        !relay.roster.members.contains(id),
    ensures
        !relay.after_all(events).roster.members.contains(id),
        relay.stream(events, id) == Seq::<u8>::empty(),
    decreases events.len(),
{
    if events.len() > 0 {
        let first = events.first();
        let next = relay.after(first);
        lemma_after_preserves_wf(relay, first);
        match first {
            Event::Joined => {
                if next.roster.members.contains(id) {
                    let k = choose|k: int|
                        0 <= k < next.roster.members.len() && next.roster.members[k] == id;
                    if k < relay.roster.members.len() {
                        assert(relay.roster.members[k] == id);
                    }
                }
            },
            Event::Relayed { payload, outcomes } => {
                lemma_survivors_contains(relay.roster.members, outcomes, id);
                if relay.roster.delivered(outcomes, id) {
                    let i = choose|i: int|
                        0 <= i < relay.roster.members.len() && i < outcomes.len()
                            && relay.roster.members[i] == id && outcomes[i];
                    assert(relay.roster.members[i] == id);
                }
            },
        }
        lemma_outsider_stays_out(next, events.drop_first(), id);
        assert(relay.stream(events, id) =~= Seq::<u8>::empty());
    }
}

/// Eviction on failure: a subscriber whose write failed is gone from the registry
/// when the pass ends. It is in no later pass, whatever happens afterwards, and
/// nothing more is written to it.
pub proof fn lemma_evicted_stays_out(
    relay: Relay,
    payload: Seq<u8>,
    outcomes: Seq<bool>,
    position: int,
    later: Seq<Event>,
)
    requires
        relay.roster.wf(),
        0 <= position < relay.roster.members.len(),
        position < outcomes.len(),
        !outcomes[position],
    ensures
        ({
            let id = relay.roster.members[position];
            let next = relay.after((Event::Relayed { payload, outcomes }));
            &&& !next.roster.members.contains(id)
            &&& !next.after_all(later).roster.members.contains(id)
            &&& next.stream(later, id) == Seq::<u8>::empty()
        }),
{
    let id = relay.roster.members[position];
    let event = Event::Relayed { payload, outcomes };
    let next = relay.after(event);
    lemma_after_preserves_wf(relay, event);
    lemma_survivors_contains(relay.roster.members, outcomes, id);
    if next.roster.members.contains(id) {
        let i = choose|i: int|
            0 <= i < relay.roster.members.len() && relay.roster.members[i] == id && stays(
                outcomes,
                i,
            );
        if i < position {
            assert(relay.roster.members[i] < relay.roster.members[position]);
        } else if position < i {
            assert(relay.roster.members[position] < relay.roster.members[i]);
        }
    }
    lemma_outsider_stays_out(next, later, id);
}

/// An identity that has not been given out by the end of a run received nothing
/// during the run.
pub proof fn lemma_unissued_gets_nothing(relay: Relay, events: Seq<Event>, id: nat)
    requires
        relay.roster.wf(),
        id >= relay.after_all(events).roster.issued,
    ensures
        relay.stream(events, id) == Seq::<u8>::empty(),
    decreases events.len(),
{
    if events.len() > 0 {
        let first = events.first();
        let next = relay.after(first);
        lemma_after_preserves_wf(relay, first);
        lemma_run_preserves_wf(next, events.drop_first());
        match first {
            Event::Joined => {},
            Event::Relayed { payload, outcomes } => {
                if relay.roster.delivered(outcomes, id) {
                    let i = choose|i: int|
                        0 <= i < relay.roster.members.len() && i < outcomes.len()
                            && relay.roster.members[i] == id && outcomes[i];
                    assert(relay.roster.members[i] < relay.roster.issued);
                }
            },
        }
        lemma_unissued_gets_nothing(next, events.drop_first(), id);
        assert(relay.stream(events, id) =~= Seq::<u8>::empty());
    }
}

/// Late-join isolation: a subscriber that joins after the events `before` and
/// ahead of the events `later` receives nothing of what was relayed before it
/// joined. Its stream is what the later events write to it; if every later
/// datagram is written to it with success, that is the later payloads in the order
/// of their arrival.
pub proof fn lemma_late_join_isolation(relay: Relay, before: Seq<Event>, later: Seq<Event>)
    requires
        relay.roster.wf(),
    ensures
        ({
            let arrival = relay.after_all(before);
            let id = arrival.roster.issued;
            let joined = arrival.after(Event::Joined);
            let run = before + seq![Event::Joined] + later;
            &&& joined.roster.members.last() == id
            &&& relay.stream(before, id) == Seq::<u8>::empty()
            &&& relay.stream(run, id) == joined.stream(later, id)
            &&& joined.reaches(later, id) ==> relay.stream(run, id) == payloads(later)
        }),
{
    let arrival = relay.after_all(before);
    let id = arrival.roster.issued;
    let joined = arrival.after(Event::Joined);
    let joining = seq![Event::Joined];
    let run = before + joining + later;
    lemma_unissued_gets_nothing(relay, before, id);
    assert(run =~= before + (joining + later));
    lemma_run_in_two_parts(relay, before, joining + later, id);
    lemma_run_in_two_parts(arrival, joining, later, id);
    assert(joining.first() == Event::Joined);
    assert(joining.drop_first() =~= Seq::<Event>::empty());
    assert(arrival.after_all(joining) == joined) by {
        assert(arrival.after_all(joining) == joined.after_all(joining.drop_first()));
    }
    assert(arrival.stream(joining, id) =~= Seq::<u8>::empty()) by {
        assert(joined.stream(joining.drop_first(), id) =~= Seq::<u8>::empty());
    }
    assert(relay.stream(run, id) =~= joined.stream(later, id));
    if joined.reaches(later, id) {
        lemma_served_stream(joined, later, id);
    }
}

} // verus!
