//! A competitor of the roster and the personal records found for them.

use vstd::prelude::*;
use crate::duration::Duration;
use crate::event::{Event, EVENT_COUNT, lemma_ordinal_injective};

verus! {

/// What a competitor is to the contracts of this library.
#[verifier::ext_equal]
pub struct CompetitorView {
    /// The name as the roster shows it.
    pub name: Seq<char>,
    /// The identifier of the competitor's profile of earlier competitions,
    /// where there is one.
    pub wca_id: Option<Seq<char>>,
    /// The events that the competitor is registered for, each once, in the
    /// order of the roster.
    pub events: Seq<Event>,
    /// The personal record, in hundredths of a second, of each event for
    /// which one was found.
    pub records: Map<Event, nat>,
}

impl CompetitorView {
    /// Whether the competitor is registered for `event`.
    pub open spec fn registered(self, event: Event) -> bool {
        self.events.contains(event)
    }

    /// Whether the competitor has a profile of earlier competitions.
    pub open spec fn has_profile(self) -> bool {
        self.wca_id is Some
    }

    /// The same competitor with `centis` as the record of `event`.
    pub open spec fn with_record(self, event: Event, centis: nat) -> CompetitorView {
        CompetitorView { records: self.records.insert(event, centis), ..self }
    }
}

/// `events` with every event kept where it first occurs and dropped where
/// it occurs again.
pub open spec fn without_repeats(events: Seq<Event>) -> Seq<Event>
    decreases events.len(),
{
    if events.len() == 0 {
        Seq::empty()
    } else {
        let before = without_repeats(events.drop_last());
        if before.contains(events.last()) {
            before
        } else {
            before.push(events.last())
        }
    }
}

/// Dropping the repeats leaves every event of the sequence, once.
pub proof fn lemma_without_repeats(events: Seq<Event>)
    ensures
        without_repeats(events).no_duplicates(),
        forall|event: Event| without_repeats(events).contains(event) <==> events.contains(event),
    decreases events.len(),
{
    let kept = without_repeats(events);
    if events.len() > 0 {
        let rest = events.drop_last();
        let before = without_repeats(rest);
        lemma_without_repeats(rest);
        assert forall|event: Event| kept.contains(event) <==> events.contains(event) by {
            if events.contains(event) {
                let i = choose|i: int| 0 <= i < events.len() && events[i] == event;
                if i < rest.len() {
                    assert(rest[i] == event);
                    assert(rest.contains(event));
                    assert(before.contains(event));
                    let k = choose|k: int| 0 <= k < before.len() && before[k] == event;
                    assert(kept[k] == event);
                } else if !before.contains(event) {
                    assert(kept[before.len() as int] == event);
                }
            }
            if kept.contains(event) {
                let k = choose|k: int| 0 <= k < kept.len() && kept[k] == event;
                if k < before.len() {
                    assert(before[k] == event);
                    assert(before.contains(event));
                    assert(rest.contains(event));
                    let i = choose|i: int| 0 <= i < rest.len() && rest[i] == event;
                    assert(events[i] == event);
                } else {
                    assert(events[events.len() - 1] == event);
                }
            }
        }
    }
}

/// One entry of the roster. No event occurs twice among those that the
/// competitor is registered for, and records are kept only of these.
#[derive(Debug)]
pub struct Competitor {
    name: String,
    wca_id: Option<String>,
    events: Vec<Event>,
    /// One place for each event of the catalog, in its order.
    personal_records: Vec<Option<Duration>>,
}

impl View for Competitor {
    type V = CompetitorView;

    closed spec fn view(&self) -> CompetitorView {
        CompetitorView {
            name: self.name@,
            wca_id: match self.wca_id {
                Some(id) => Some(id@),
                None => None,
            },
            events: self.events@,
            records: Map::new(
                |event: Event|
                    self.events@.contains(event) && event.spec_ordinal()
                        < self.personal_records.len()
                        && self.personal_records[event.spec_ordinal()] is Some,
                |event: Event| self.personal_records[event.spec_ordinal()]->0@,
            ),
        }
    }
}

impl Competitor {
    #[verifier::type_invariant]
    spec fn well_formed(&self) -> bool {
        &&& self.events@.no_duplicates()
        &&& self.personal_records.len() == EVENT_COUNT
        &&& forall|event: Event| #[trigger]
            self.personal_records[event.spec_ordinal()] is Some ==> self.events@.contains(event)
    }

    /// A competitor of whom no record is known yet, registered for `events`;
    /// an event that is named again counts once.
    pub fn new(name: String, wca_id: Option<String>, events: Vec<Event>) -> (competitor: Self)
        ensures
            competitor@.name == name@,
            competitor@.wca_id == match wca_id {
                Some(id) => Some(id@),
                None => None,
            },
            competitor@.events == without_repeats(events@),
            competitor@.records == Map::<Event, nat>::empty(),
    {
        let mut kept: Vec<Event> = Vec::new();
        let mut next: usize = 0;
        assert(events@.take(0) =~= Seq::<Event>::empty());
        while next < events.len()
            invariant
                next <= events.len(),
                kept@ == without_repeats(events@.take(next as int)),
            decreases events.len() - next,
        {
            assert(events@.take(next + 1).drop_last() =~= events@.take(next as int));
            let event = events[next];
            let mut seen = false;
            let mut k: usize = 0;
            while k < kept.len()
                invariant
                    k <= kept.len(),
                    seen <==> exists|q: int| 0 <= q < k && kept[q] == event,
                decreases kept.len() - k,
            {
                if kept[k] == event {
                    seen = true;
                }
                k += 1;
            }
            if !seen {
                kept.push(event);
            }
            next += 1;
        }
        assert(events@.take(events.len() as int) =~= events@);
        proof {
            lemma_without_repeats(events@);
        }
        let events = kept;
        let mut personal_records: Vec<Option<Duration>> = Vec::new();
        while personal_records.len() < EVENT_COUNT
            invariant
                personal_records.len() <= EVENT_COUNT,
                forall|i: int| 0 <= i < personal_records.len() ==> personal_records[i] is None,
            decreases EVENT_COUNT - personal_records.len(),
        {
            personal_records.push(None);
        }
        let competitor = Competitor { name, wca_id, events, personal_records };
        assert(competitor@.records =~= Map::<Event, nat>::empty());
        competitor
    }

    /// The name as the roster shows it.
    pub fn name(&self) -> (name: &str)
        ensures
            name@ == self@.name,
    {
        self.name.as_str()
    }

    /// The identifier of the competitor's profile, where there is one.
    pub fn wca_id(&self) -> (id: Option<&str>)
        ensures
            match id {
                Some(id) => self@.wca_id == Some(id@),
                None => self@.wca_id is None,
            },
    {
        match &self.wca_id {
            Some(id) => Some(id.as_str()),
            None => None,
        }
    }

    /// Whether the competitor has a profile of earlier competitions.
    pub fn has_profile(&self) -> (known: bool)
        ensures
            known == self@.has_profile(),
    {
        self.wca_id.is_some()
    }

    /// The events that the competitor is registered for, each once, in the
    /// order of the roster.
    pub fn events(&self) -> (events: &Vec<Event>)
        ensures
            events@ == self@.events,
            events@.no_duplicates(),
    {
        proof {
            use_type_invariant(self);
        }
        &self.events
    }

    /// Whether the competitor is registered for `event`.
    pub fn is_registered(&self, event: Event) -> (registered: bool)
        ensures
            registered == self@.registered(event),
    {
        let mut i: usize = 0;
        while i < self.events.len()
            invariant
                i <= self.events.len(),
                forall|k: int| 0 <= k < i ==> self.events[k] != event,
            decreases self.events.len() - i,
        {
            if self.events[i] == event {
                return true;
            }
            i += 1;
        }
        false
    }

    /// The personal record of `event`, where one was found.
    pub fn record(&self, event: Event) -> (record: Option<Duration>)
        ensures
            match record {
                Some(time) => self@.records.get(event) == Some(time@),
                None => self@.records.get(event) is None,
            },
            record is Some ==> self@.registered(event),
    {
        proof {
            use_type_invariant(self);
        }
        self.personal_records[event.ordinal()]
    }

    /// Keeps `time` as the record of `event` where the competitor is
    /// registered for it, in place of an earlier one, and says whether it did.
    pub fn set_record(&mut self, event: Event, time: Duration) -> (stored: bool)
        ensures
            stored == old(self)@.registered(event),
            stored ==> final(self)@ == old(self)@.with_record(event, time@),
            !stored ==> final(self)@ == old(self)@,
    {
        proof {
            use_type_invariant(&*self);
        }
        if !self.is_registered(event) {
            return false;
        }
        let place = event.ordinal();
        self.personal_records[place] = Some(time);
        proof {
            assert forall|other: Event| #[trigger]
                self.personal_records[other.spec_ordinal()] is Some implies self.events@.contains(
                other,
            ) by {
                lemma_ordinal_injective(other, event);
            }
            assert(self@.records =~= old(self)@.records.insert(event, time@)) by {
                assert forall|other: Event|
                    self@.records.contains_key(other) == old(self)@.records.insert(
                        event,
                        time@,
                    ).contains_key(other) by {
                    lemma_ordinal_injective(other, event);
                }
                assert forall|other: Event| self@.records.contains_key(other) implies self@.records[other]
                    == old(self)@.records.insert(event, time@)[other] by {
                    lemma_ordinal_injective(other, event);
                }
            }
            assert(self@ =~= old(self)@.with_record(event, time@));
        }
        true
    }
}

/// Records are kept only of events that the competitor is registered for.
pub proof fn lemma_records_within_events(competitor: Competitor, event: Event)
    ensures
        competitor@.records.contains_key(event) ==> competitor@.registered(event),
{
}

} // verus!
