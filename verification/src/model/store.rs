//! The store of the events of a narrative.

use crate::model::event::EventView;
use crate::model::{Event, EventId, Severity};
use vstd::prelude::*;

verus! {

broadcast use vstd::string::group_string_axioms;

/// The events of a narrative, each with an identity of its own choosing or
/// one that the store assigns.
pub struct EventStore {
    events: Vec<Event>,
    next_id: u64,
}

/// The identity that an event gets: its own, or, for one without, the next
/// free one, which is never zero.
pub open spec fn assigned_id(next_id: u64, id: EventId) -> u64 {
    if id.0 == 0 {
        if next_id >= 1 {
            next_id
        } else {
            1
        }
    } else {
        id.0
    }
}

/// The next free identity after an event was added.
pub open spec fn advanced(next_id: u64, id: EventId) -> int {
    let given = assigned_id(next_id, id);
    if next_id >= given + 1 {
        next_id as int
    } else {
        given + 1
    }
}

/// The next free identity after the first `n` events were added, one after
/// the other, to an empty store.
pub open spec fn next_after(ids: Seq<EventId>, n: int) -> int
    decreases n,
{
    if n <= 0 {
        0
    } else if next_after(ids, n - 1) > u64::MAX {
        next_after(ids, n - 1)
    } else {
        advanced(next_after(ids, n - 1) as u64, ids[n - 1])
    }
}

/// The identities of the events, in order.
pub open spec fn ids_of(events: Seq<Event>) -> Seq<EventId> {
    Seq::new(events.len(), |i: int| events[i].id)
}

/// The events as they stand in a store that was filled with the first `n` of
/// them: each with the identity that it was given.
pub open spec fn stored(events: Seq<Event>, n: int) -> Seq<EventView>
    decreases n,
{
    if n <= 0 {
        Seq::empty()
    } else {
        stored(events, n - 1).push(
            EventView {
                id: EventId(assigned_id(next_after(ids_of(events), n - 1) as u64, events[n - 1].id)),
                ..events[n - 1].deep_view()
            },
        )
    }
}

impl EventStore {
    /// The events, in the order in which they were added.
    pub closed spec fn view(&self) -> Seq<Event> {
        self.events@
    }

    /// The events with their texts as character sequences.
    pub open spec fn deep_view(&self) -> Seq<EventView> {
        Seq::new(self.view().len(), |i: int| self.view()[i].deep_view())
    }

    /// The identity that the next event without one gets, if it is not zero.
    pub closed spec fn next_id(&self) -> u64 {
        self.next_id
    }

    /// No stored event is without identity, and the next free identity is
    /// one more than the greatest that is stored: zero in an empty store.
    pub open spec fn wf(&self) -> bool {
        &&& forall|i: int|
            0 <= i < self.view().len() ==> 1 <= (#[trigger] self.view()[i]).id.0 < self.next_id()
        &&& if self.view().len() == 0 {
            self.next_id() == 0
        } else {
            exists|i: int|
                0 <= i < self.view().len() && (#[trigger] self.view()[i]).id.0 + 1
                    == self.next_id()
        }
    }

    pub fn new() -> (s: EventStore)
        ensures
            s.wf(),
            s.view().len() == 0,
            s.next_id() == 0,
    {
        EventStore { events: Vec::new(), next_id: 0 }
    }

    pub fn len(&self) -> (n: usize)
        ensures
            n == self.view().len(),
    {
        self.events.len()
    }

    /// The events, in order.
    pub fn iter(&self) -> (events: &[Event])
        ensures
            events@ == self.view(),
    {
        self.events.as_slice()
    }

    /// The first event with the identity `id`.
    pub fn get(&self, id: EventId) -> (r: Option<&Event>)
        ensures
            match r {
                Some(e) => exists|i: int|
                    {
                        &&& 0 <= i < self.view().len()
                        &&& #[trigger] self.view()[i] == *e
                        &&& e.id == id
                        &&& forall|j: int| 0 <= j < i ==> (#[trigger] self.view()[j]).id != id
                    },
                None => forall|i: int|
                    0 <= i < self.view().len() ==> (#[trigger] self.view()[i]).id != id,
            },
    {
        let mut i: usize = 0;
        while i < self.events.len()
            invariant
                i <= self.events.len(),
                forall|j: int| 0 <= j < i ==> (#[trigger] self.events@[j]).id != id,
            decreases self.events.len() - i,
        {
            if self.events[i].id == id {
                assert(self.events@[i as int] == self.events[i as int]);
                return Some(&self.events[i]);
            }
            i += 1;
        }
        None
    }

    /// The identity of the first event.
    pub fn first_id(&self) -> (r: Option<EventId>)
        ensures
            r == if self.view().len() == 0 {
                None
            } else {
                Some(self.view()[0].id)
            },
    {
        if self.events.len() == 0 {
            None
        } else {
            Some(self.events[0].id)
        }
    }

    /// Adds an event and answers with its identity.  An event without
    /// identity gets the next free one, which is greater than every identity
    /// in the store.
    pub fn push(&mut self, event: Event) -> (id: EventId)
        requires
            old(self).wf(),
            advanced(old(self).next_id(), event.id) <= u64::MAX,
        ensures
            final(self).wf(),
            id.0 == assigned_id(old(self).next_id(), event.id),
            event.id.0 == 0 ==> forall|i: int|
                0 <= i < old(self).view().len() ==> (#[trigger] old(self).view()[i]).id.0 < id.0,
            final(self).next_id() == advanced(old(self).next_id(), event.id),
            final(self).view().len() == old(self).view().len() + 1,
            final(self).view().take(old(self).view().len() as int) == old(self).view(),
            final(self).view().last().deep_view() == (EventView {
                id,
                ..event.deep_view()
            }),
    {
        let mut event = event;
        if event.id.0 == 0 {
            event.id = EventId(
                if self.next_id >= 1 {
                    self.next_id
                } else {
                    1
                },
            );
        }
        let id = event.id;
        if self.next_id < id.0 + 1 {
            self.next_id = id.0 + 1;
        }
        self.events.push(event);
        assert(self.events@.take(old(self).events@.len() as int) =~= old(self).events@);
        proof {
            let n = old(self).events@.len() as int;
            assert(self.view()[n].id == id);
            assert forall|i: int| 0 <= i < self.view().len() implies 1 <= (
            #[trigger] self.view()[i]).id.0 < self.next_id() by {
                if i < n {
                    assert(self.view()[i] == old(self).view()[i]);
                }
            }
            if self.next_id == id.0 + 1 {
                assert(self.view()[n].id.0 + 1 == self.next_id());
            } else {
                let k = choose|k: int|
                    0 <= k < n && (#[trigger] old(self).view()[k]).id.0 + 1 == old(self).next_id();
                assert(self.view()[k] == old(self).view()[k]);
            }
        }
        id
    }

    /// A store filled with the events, in order.
    pub fn from_events(events: Vec<Event>) -> (s: EventStore)
        requires
            next_after(ids_of(events@), events@.len() as int) <= u64::MAX,
        ensures
            s.wf(),
            s.deep_view() == stored(events@, events@.len() as int),
            s.next_id() == next_after(ids_of(events@), events@.len() as int),
    {
        let ghost all = events@;
        let ghost ids = ids_of(all);
        let mut s = EventStore::new();
        assert(s.deep_view() =~= stored(all, 0));
        for ev in it: events
            invariant
                it.seq() == all,
                ids == ids_of(all),
                next_after(ids, all.len() as int) <= u64::MAX,
                s.wf(),
                s.next_id() == next_after(ids, it.index()),
                s.deep_view() == stored(all, it.index()),
        {
            let ghost i = it.index();
            let ghost before = s.deep_view();
            proof {
                lemma_next_after_grows(ids, i + 1, all.len() as int);
                assert(ids[i] == ev.id);
            }
            s.push(ev);
            assert(s.deep_view() =~= before.push(s.view().last().deep_view())) by {
                assert forall|k: int| 0 <= k < before.len() implies s.deep_view()[k]
                    == before[k] by {
                    assert(s.view().take(before.len() as int)[k] == s.view()[k]);
                }
            }
        }
        s
    }
}

/// An event can be added to a store as long as every identity, stored or
/// given, is below the greatest number but one.
pub proof fn lemma_push_allowed(s: EventStore, id: EventId)
    requires
        s.wf(),
        id.0 < u64::MAX - 1,
        forall|i: int| 0 <= i < s.view().len() ==> (#[trigger] s.view()[i]).id.0 < u64::MAX - 1,
    ensures
        advanced(s.next_id(), id) <= u64::MAX,
{
}

proof fn lemma_next_after_grows(ids: Seq<EventId>, i: int, n: int)
    requires
        0 <= i <= n,
    ensures
        next_after(ids, i) <= next_after(ids, n),
    decreases n - i,
{
    if i < n {
        lemma_next_after_grows(ids, i, n - 1);
    }
}

impl Default for EventStore {
    fn default() -> (s: EventStore)
        ensures
            s.wf(),
            s.view().len() == 0,
            s.next_id() == 0,
    {
        EventStore::new()
    }
}

/// The three events of the sample narrative.
pub open spec fn demo_events() -> Seq<EventView> {
    seq![
        EventView {
            id: EventId(1),
            t_ms: 0,
            severity: Severity::Info,
            title: "Session start"@,
            details: "UI scaffold is running. Minidump parsing will plug into this event stream."@,
            source: "runtime"@,
        },
        EventView {
            id: EventId(2),
            t_ms: 120,
            severity: Severity::Warning,
            title: "Suspicious module load"@,
            details: "Placeholder example event. Later: correlate minidump modules, signatures, and known-bad hashes."@,
            source: "detector::modules"@,
        },
        EventView {
            id: EventId(3),
            t_ms: 260,
            severity: Severity::High,
            title: "Potential exploit indicator"@,
            details: "Placeholder example event. Later: stack + memory heuristics to flag exploitation patterns."@,
            source: "detector::heuristics"@,
        },
    ]
}

impl EventStore {
    /// A store with a sample narrative, shown before a dump is loaded.
    pub fn demo() -> (s: EventStore)
        ensures
            s.wf(),
            s.next_id() == 4,
            s.deep_view() == demo_events(),
    {
        let mut s = EventStore::new();
        s.push(
            Event {
                id: EventId(0),
                t_ms: 0,
                severity: Severity::Info,
                title: "Session start".to_owned(),
                details: "UI scaffold is running. Minidump parsing will plug into this event stream.".to_owned(),
                source: "runtime".to_owned(),
            },
        );
        let ghost one = s.view();
        s.push(
            Event {
                id: EventId(0),
                t_ms: 120,
                severity: Severity::Warning,
                title: "Suspicious module load".to_owned(),
                details: "Placeholder example event. Later: correlate minidump modules, signatures, and known-bad hashes.".to_owned(),
                source: "detector::modules".to_owned(),
            },
        );
        let ghost two = s.view();
        s.push(
            Event {
                id: EventId(0),
                t_ms: 260,
                severity: Severity::High,
                title: "Potential exploit indicator".to_owned(),
                details: "Placeholder example event. Later: stack + memory heuristics to flag exploitation patterns.".to_owned(),
                source: "detector::heuristics".to_owned(),
            },
        );
        proof {
            let three = s.view();
            assert(three.take(2)[0] == three[0]);
            assert(three.take(2)[1] == three[1]);
            assert(two.take(1)[0] == two[0]);
            assert(s.deep_view() =~= demo_events());
        }
        s
    }
}

} // verus!
