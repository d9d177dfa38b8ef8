//! The figures of the overview page: how many competitors and events there
//! are, and for each event how many take part and how many have a record.

use vstd::prelude::*;
use crate::competitor::Competitor;
use crate::event::{lemma_ordinal_injective, Event, EVENT_COUNT};
use crate::histogram::records_of;
use crate::ranking::registered_count;

verus! {

/// How many of `competitors` have a profile of earlier competitions.
pub open spec fn profile_count(competitors: Seq<Competitor>) -> nat
    decreases competitors.len(),
{
    if competitors.len() == 0 {
        0
    } else {
        profile_count(competitors.drop_last()) + if competitors.last()@.has_profile() {
            1nat
        } else {
            0nat
        }
    }
}

/// The events among `events` of the first `upto` places of the catalog, in
/// the order of the catalog; events of one place stay in their order.
pub open spec fn in_catalog_order(events: Seq<Event>, upto: int) -> Seq<Event>
    decreases upto,
{
    if upto <= 0 {
        Seq::empty()
    } else {
        in_catalog_order(events, upto - 1) + events.filter(
            |event: Event| event.spec_ordinal() == upto - 1,
        )
    }
}

/// Whether one of `competitors` is registered for `event`.
pub open spec fn is_offered(competitors: Seq<Competitor>, event: Event) -> bool {
    exists|i: int| 0 <= i < competitors.len() && (#[trigger] competitors[i])@.registered(event)
}

/// The events of the first `upto` places of the catalog that one of
/// `competitors` is registered for, in the order of the catalog.
pub open spec fn offered_upto(competitors: Seq<Competitor>, upto: int) -> Seq<Event>
    decreases upto,
{
    if upto <= 0 {
        Seq::empty()
    } else {
        let before = offered_upto(competitors, upto - 1);
        match event_at(upto - 1) {
            Some(event) => if is_offered(competitors, event) {
                before.push(event)
            } else {
                before
            },
            None => before,
        }
    }
}

/// The event at `place` of the catalog.
pub open spec fn event_at(place: int) -> Option<Event> {
    if exists|event: Event| event.spec_ordinal() == place {
        Some(choose|event: Event| event.spec_ordinal() == place)
    } else {
        None
    }
}

/// The figures of one event.
#[derive(Debug, Clone, Copy, PartialEq, Eq, Structural)]
pub struct EventSummary {
    /// The event.
    pub event: Event,
    /// How many competitors are registered for the event.
    pub participants: usize,
    /// How many competitors have a record of the event.
    pub records: usize,
}

/// The figures of the overview page.
#[derive(Debug)]
pub struct Overview {
    /// How many competitors the roster holds.
    pub competitor_count: usize,
    /// How many events are offered.
    pub event_count: usize,
    /// How many competitors have a profile of earlier competitions.
    pub returner_count: usize,
    /// How many competitors have none.
    pub newcomer_count: usize,
    /// The figures of each event, in the order of the catalog.
    pub events: Vec<EventSummary>,
}

impl Overview {
    /// Whether these are the figures of `competitors` and the offered
    /// `events`.
    pub open spec fn summarizes(self, events: Seq<Event>, competitors: Seq<Competitor>) -> bool {
        let sorted = in_catalog_order(events, EVENT_COUNT as int);
        &&& self.competitor_count == competitors.len()
        &&& self.event_count == events.len()
        &&& self.returner_count == profile_count(competitors)
        &&& self.newcomer_count == competitors.len() - profile_count(competitors)
        &&& self.events@.len() == sorted.len()
        &&& forall|k: int|
            0 <= k < sorted.len() ==> (#[trigger] self.events@[k]) == (EventSummary {
                event: sorted[k],
                participants: registered_count(competitors, sorted[k]) as usize,
                records: records_of(competitors, sorted[k]).len() as usize,
            })
    }
}

/// How many of `competitors` have a profile of earlier competitions.
pub fn count_returners(competitors: &Vec<Competitor>) -> (count: usize)
    ensures
        count == profile_count(competitors@),
        count <= competitors@.len(),
{
    let mut count: usize = 0;
    let mut i: usize = 0;
    assert(competitors@.take(0) =~= Seq::<Competitor>::empty());
    while i < competitors.len()
        invariant
            i <= competitors.len(),
            count <= i,
            count == profile_count(competitors@.take(i as int)),
        decreases competitors.len() - i,
    {
        assert(competitors@.take(i + 1).drop_last() =~= competitors@.take(i as int));
        if competitors[i].has_profile() {
            count += 1;
        }
        i += 1;
    }
    assert(competitors@.take(competitors.len() as int) =~= competitors@);
    count
}

/// How many of `competitors` are registered for `event`.
pub fn count_participants(competitors: &Vec<Competitor>, event: Event) -> (count: usize)
    ensures
        count == registered_count(competitors@, event),
        count <= competitors@.len(),
{
    let mut count: usize = 0;
    let mut i: usize = 0;
    assert(competitors@.take(0) =~= Seq::<Competitor>::empty());
    while i < competitors.len()
        invariant
            i <= competitors.len(),
            count <= i,
            count == registered_count(competitors@.take(i as int), event),
        decreases competitors.len() - i,
    {
        assert(competitors@.take(i + 1).drop_last() =~= competitors@.take(i as int));
        if competitors[i].is_registered(event) {
            count += 1;
        }
        i += 1;
    }
    assert(competitors@.take(competitors.len() as int) =~= competitors@);
    count
}

/// How many of `competitors` have a record of `event`.
pub fn count_records(competitors: &Vec<Competitor>, event: Event) -> (count: usize)
    ensures
        count == records_of(competitors@, event).len(),
        count <= competitors@.len(),
{
    let mut count: usize = 0;
    let mut i: usize = 0;
    assert(competitors@.take(0) =~= Seq::<Competitor>::empty());
    while i < competitors.len()
        invariant
            i <= competitors.len(),
            count <= i,
            count == records_of(competitors@.take(i as int), event).len(),
        decreases competitors.len() - i,
    {
        assert(competitors@.take(i + 1).drop_last() =~= competitors@.take(i as int));
        if competitors[i].record(event).is_some() {
            count += 1;
        }
        i += 1;
    }
    assert(competitors@.take(competitors.len() as int) =~= competitors@);
    count
}

/// Whether one of `competitors` is registered for `event`.
pub fn has_participants(competitors: &Vec<Competitor>, event: Event) -> (offered: bool)
    ensures
        offered == is_offered(competitors@, event),
{
    let mut i: usize = 0;
    while i < competitors.len()
        invariant
            i <= competitors.len(),
            forall|k: int| 0 <= k < i ==> !(#[trigger] competitors@[k])@.registered(event),
        decreases competitors.len() - i,
    {
        if competitors[i].is_registered(event) {
            return true;
        }
        i += 1;
    }
    false
}

/// The events that the competition offers: those that one of `competitors`
/// is registered for, each once and in the order of the catalog.
pub fn offered_events(competitors: &Vec<Competitor>) -> (events: Vec<Event>)
    ensures
        events@ == offered_upto(competitors@, EVENT_COUNT as int),
{
    let mut events: Vec<Event> = Vec::new();
    let mut place: usize = 0;
    while place < EVENT_COUNT
        invariant
            place <= EVENT_COUNT,
            events@ == offered_upto(competitors@, place as int),
        decreases EVENT_COUNT - place,
    {
        match Event::from_ordinal(place) {
            Some(event) => {
                proof {
                    let found = choose|other: Event| other.spec_ordinal() == place as int;
                    lemma_ordinal_injective(found, event);
                }
                if has_participants(competitors, event) {
                    events.push(event);
                }
            },
            None => {},
        }
        place += 1;
    }
    events
}

/// The offered `events` in the order of the catalog.
pub fn sort_events(events: &Vec<Event>) -> (sorted: Vec<Event>)
    ensures
        sorted@ == in_catalog_order(events@, EVENT_COUNT as int),
{
    let mut sorted: Vec<Event> = Vec::new();
    let mut place: usize = 0;
    while place < EVENT_COUNT
        invariant
            place <= EVENT_COUNT,
            sorted@ == in_catalog_order(events@, place as int),
        decreases EVENT_COUNT - place,
    {
        let ghost wanted = |event: Event| event.spec_ordinal() == place as int;
        let ghost before = sorted@;
        let mut i: usize = 0;
        assert(before + events@.take(0).filter(wanted) =~= before) by {
            reveal(Seq::filter);
        }
        while i < events.len()
            invariant
                i <= events.len(),
                place < EVENT_COUNT,
                wanted == |event: Event| event.spec_ordinal() == place as int,
                sorted@ == before + events@.take(i as int).filter(wanted),
            decreases events.len() - i,
        {
            proof {
                reveal(Seq::filter);
                assert(events@.take(i + 1).drop_last() =~= events@.take(i as int));
            }
            if events[i].ordinal() == place {
                sorted.push(events[i]);
                assert(sorted@ =~= before + events@.take(i + 1).filter(wanted));
            }
            i += 1;
        }
        assert(events@.take(events.len() as int) =~= events@);
        place += 1;
    }
    sorted
}

/// The figures of the overview page for the offered `events` and the
/// `competitors`.
pub fn summarize(events: &Vec<Event>, competitors: &Vec<Competitor>) -> (overview: Overview)
    ensures
        overview.summarizes(events@, competitors@),
{
    let sorted = sort_events(events);
    let returner_count = count_returners(competitors);
    let mut summaries: Vec<EventSummary> = Vec::new();
    let mut k: usize = 0;
    while k < sorted.len()
        invariant
            k <= sorted.len(),
            summaries@.len() == k,
            forall|q: int|
                0 <= q < k ==> (#[trigger] summaries@[q]) == (EventSummary {
                    event: sorted@[q],
                    participants: registered_count(competitors@, sorted@[q]) as usize,
                    records: records_of(competitors@, sorted@[q]).len() as usize,
                }),
        decreases sorted.len() - k,
    {
        let event = sorted[k];
        summaries.push(
            EventSummary {
                event,
                participants: count_participants(competitors, event),
                records: count_records(competitors, event),
            },
        );
        k += 1;
    }
    Overview {
        competitor_count: competitors.len(),
        event_count: events.len(),
        returner_count,
        newcomer_count: competitors.len() - returner_count,
        events: summaries,
    }
}

} // verus!
