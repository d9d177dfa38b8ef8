//! Looks the records of all competitors up, event by event, and keeps what
//! was found beside what failed.

use vstd::prelude::*;
use crate::competitor::{Competitor, CompetitorView};
use crate::duration::Duration;
use crate::event::Event;
use crate::source::RecordSource;
use crate::synthetic_source::{store_found, SYNTHETIC_BOUND, SYNTHETIC_LOWEST};
use crate::wcoerror::{WCOError, WCOErrorView};

verus! {

/// A record that could not be looked up.
#[derive(Debug)]
pub struct Failure {
    /// The place of the competitor in the roster.
    pub competitor: usize,
    /// The event of the record.
    pub event: Event,
    /// What went wrong.
    pub error: WCOError,
}

/// What a failure is to the contracts of this library.
pub struct FailureView {
    /// The place of the competitor in the roster.
    pub competitor: int,
    /// The event of the record.
    pub event: Event,
    /// What went wrong.
    pub error: WCOErrorView,
}

impl View for Failure {
    type V = FailureView;

    open spec fn view(&self) -> FailureView {
        FailureView { competitor: self.competitor as int, event: self.event, error: self.error@ }
    }
}

/// The competitors with the records that were found, and the failures met
/// on the way.
#[derive(Debug)]
pub struct EnrichedDataset {
    /// The competitors, in the order of the roster.
    pub competitors: Vec<Competitor>,
    /// The failures, in the order in which they were met.
    pub failures: Vec<Failure>,
}

/// The failures of a sequence, each by its view.
pub open spec fn failure_views(failures: Seq<Failure>) -> Seq<FailureView> {
    failures.map_values(|failure: Failure| failure@)
}

/// The record of `event` that a competitor has after `source` was asked
/// for it, where the competitor has a profile: what a remote source holds,
/// or else what the competitor had; for made-up records, any time from the
/// least made-up time to below the bound.
pub open spec fn is_record_after(
    source: RecordSource,
    position: int,
    before: CompetitorView,
    event: Event,
    record: Option<nat>,
) -> bool {
    match source {
        RecordSource::Synthetic => record matches Some(centis) && SYNTHETIC_LOWEST <= centis
            < SYNTHETIC_BOUND,
        _ => record == match source.remote_record(position, before, event) {
            Ok(Some(centis)) => Some(centis),
            _ => before.records.get(event),
        },
    }
}

/// Whether `after` is `before` once `source` was asked for the records of
/// the first `upto` of the competitor's events, the competitor standing at
/// `position` of the roster. Name, profile and events stay. A competitor
/// without a profile keeps the records as they were, and so does every
/// competitor for the events that were not asked for.
pub open spec fn enriched(
    source: RecordSource,
    position: int,
    before: CompetitorView,
    after: CompetitorView,
    upto: int,
) -> bool {
    &&& after.name == before.name
    &&& after.wca_id == before.wca_id
    &&& after.events == before.events
    &&& forall|event: Event|
        before.has_profile() && before.events.take(upto).contains(event) ==> is_record_after(
            source,
            position,
            before,
            event,
            #[trigger] after.records.get(event),
        )
    &&& forall|event: Event|
        !(before.has_profile() && before.events.take(upto).contains(event))
            ==> #[trigger] after.records.get(event) == before.records.get(event)
}

/// The failures that a remote source meets on the first `upto` events of
/// the competitor at `position` of the roster, in the order of the events.
pub open spec fn failures_of_competitor(
    source: RecordSource,
    position: int,
    competitor: CompetitorView,
    upto: int,
) -> Seq<FailureView>
    decreases upto,
{
    if upto <= 0 {
        Seq::empty()
    } else {
        let before = failures_of_competitor(source, position, competitor, upto - 1);
        let event = competitor.events[upto - 1];
        match source.remote_record(position, competitor, event) {
            Err(error) => before.push(FailureView { competitor: position, event, error }),
            Ok(_) => before,
        }
    }
}

/// The failures that a remote source meets on the first `upto` of
/// `competitors`, in the order of the roster and for each competitor in the
/// order of the events.
pub open spec fn failures_of(source: RecordSource, competitors: Seq<Competitor>, upto: int) -> Seq<
    FailureView,
>
    decreases upto,
{
    if upto <= 0 {
        Seq::empty()
    } else {
        failures_of(source, competitors, upto - 1) + failures_of_competitor(
            source,
            upto - 1,
            competitors[upto - 1]@,
            competitors[upto - 1]@.events.len() as int,
        )
    }
}

/// Keeps what was found as the record of `event` of `competitor`, who stands
/// at `position` of the roster, or keeps the failure: a record is stored, a
/// failure is put at the end of `failures` with the place and the event, and
/// nothing changes where nothing was found.
pub fn record_outcome(
    competitor: &mut Competitor,
    failures: &mut Vec<Failure>,
    position: usize,
    event: Event,
    found: Result<Option<Duration>, WCOError>,
)
    ensures
        match found {
            Ok(found) => {
                &&& final(failures)@ == old(failures)@
                &&& final(competitor)@ == if found is Some && old(competitor)@.has_profile()
                    && old(competitor)@.registered(event) {
                    old(competitor)@.with_record(event, found->0@)
                } else {
                    old(competitor)@
                }
            },
            Err(error) => {
                &&& final(competitor)@ == old(competitor)@
                &&& final(failures)@ == old(failures)@.push(
                    Failure { competitor: position, event, error },
                )
            },
        },
{
    match found {
        Ok(found) => {
            store_found(competitor, event, found);
        },
        Err(error) => {
            failures.push(Failure { competitor: position, event, error });
        },
    }
}

/// Looks up the record of every event of `competitor`, who stands at
/// `position` of the roster, once and in the order of the events.
fn enrich(
    competitor: &mut Competitor,
    failures: &mut Vec<Failure>,
    position: usize,
    source: &RecordSource,
)
    ensures
        enriched(
            *source,
            position as int,
            old(competitor)@,
            final(competitor)@,
            old(competitor)@.events.len() as int,
        ),
        *source is Synthetic ==> final(failures)@ == old(failures)@,
        *source !is Synthetic ==> failure_views(final(failures)@) == failure_views(old(failures)@)
            + failures_of_competitor(
            *source,
            position as int,
            old(competitor)@,
            old(competitor)@.events.len() as int,
        ),
{
    let ghost before = competitor@;
    let ghost failed = failures@;
    let count = competitor.events().len();
    let mut next: usize = 0;
    assert(before.events.take(0) =~= Seq::<Event>::empty());
    assert(failure_views(failed) + Seq::<FailureView>::empty() =~= failure_views(failed));
    while next < count
        invariant
            next <= count == before.events.len(),
            enriched(*source, position as int, before, competitor@, next as int),
            *source is Synthetic ==> failures@ == failed,
            *source !is Synthetic ==> failure_views(failures@) == failure_views(failed)
                + failures_of_competitor(*source, position as int, before, next as int),
        decreases count - next,
    {
        let event = competitor.events()[next];
        let found = source.fetch(position, competitor, event);
        let ghost current = competitor@;
        let ghost reported = failures@;
        let ghost outcome = found;
        record_outcome(competitor, failures, position, event, found);
        proof {
            let after = competitor@;
            let upto = next as int;
            assert(before.events.take(upto + 1) =~= before.events.take(upto).push(event));
            assert forall|other: Event|
                before.events.take(upto + 1).contains(other) <==> (before.events.take(
                    upto,
                ).contains(other) || other == event) by {
                if before.events.take(upto).contains(other) {
                    let k = choose|k: int|
                        0 <= k < before.events.take(upto).len() && before.events.take(upto)[k]
                            == other;
                    assert(before.events.take(upto + 1)[k] == other);
                }
                if other == event {
                    assert(before.events.take(upto + 1)[upto] == other);
                }
            }
            assert(before.events.contains(event)) by {
                assert(before.events[upto] == event);
            }
            assert(current.registered(event));
            if *source !is Synthetic {
                assert(source.remote_record(position as int, current, event)
                    == source.remote_record(position as int, before, event));
                match outcome {
                    Ok(_) => {},
                    Err(error) => {
                        assert(failure_views(failures@) =~= failure_views(reported).push(
                            FailureView { competitor: position as int, event, error: error@ },
                        ));
                    },
                }
            }
            assert forall|other: Event|
                before.has_profile() && before.events.take(upto + 1).contains(
                    other,
                ) implies is_record_after(
                *source,
                position as int,
                before,
                other,
                #[trigger] after.records.get(other),
            ) by {
                // What held of the record before this lookup carries over.
                let earlier = current.records.get(other);
                assert(other != event ==> after.records.get(other) == earlier);
            }
            assert forall|other: Event|
                !(before.has_profile() && before.events.take(upto + 1).contains(
                    other,
                )) implies #[trigger] after.records.get(other) == before.records.get(other) by {
                let earlier = current.records.get(other);
                assert(after.records.get(other) == earlier);
            }
        }
        next += 1;
    }
}

/// Looks up, in `source`, the record of every event of every competitor
/// once, and returns the competitors with what was found. A lookup that
/// fails is kept in the list of failures, with the place of the competitor
/// and the event, and the lookups go on.
pub fn run(competitors: Vec<Competitor>, source: &RecordSource) -> (dataset: EnrichedDataset)
    ensures
        dataset.competitors@.len() == competitors@.len(),
        forall|i: int|
            0 <= i < competitors@.len() ==> enriched(
                *source,
                i,
                competitors@[i]@,
                (#[trigger] dataset.competitors@[i])@,
                competitors@[i]@.events.len() as int,
            ),
        *source is Synthetic ==> dataset.failures@.len() == 0,
        *source !is Synthetic ==> failure_views(dataset.failures@) == failures_of(
            *source,
            competitors@,
            competitors@.len() as int,
        ),
{
    let ghost given = competitors@;
    let mut enriched_competitors: Vec<Competitor> = Vec::new();
    let mut failures: Vec<Failure> = Vec::new();
    assert(failure_views(failures@) =~= Seq::<FailureView>::empty());
    for competitor in roster: competitors
        invariant
            roster.seq() == given,
            enriched_competitors@.len() == roster.index(),
            forall|i: int|
                0 <= i < roster.index() ==> enriched(
                    *source,
                    i,
                    given[i]@,
                    (#[trigger] enriched_competitors@[i])@,
                    given[i]@.events.len() as int,
                ),
            *source is Synthetic ==> failures@.len() == 0,
            *source !is Synthetic ==> failure_views(failures@) == failures_of(
                *source,
                given,
                roster.index() as int,
            ),
    {
        let mut competitor = competitor;
        let position = enriched_competitors.len();
        enrich(&mut competitor, &mut failures, position, source);
        enriched_competitors.push(competitor);
    }
    EnrichedDataset { competitors: enriched_competitors, failures }
}

/// A competitor without a profile leaves every lookup as they entered it:
/// with the records they had, whatever the source and whatever the events.
pub proof fn lemma_no_profile_keeps_records(
    source: RecordSource,
    position: int,
    before: CompetitorView,
    after: CompetitorView,
    upto: int,
)
    requires
        !before.has_profile(),
        enriched(source, position, before, after, upto),
    ensures
        after == before,
{
    assert forall|event: Event| #[trigger]
        after.records.dom().contains(event) == before.records.dom().contains(event) by {
        assert(after.records.get(event) == before.records.get(event));
    }
    assert forall|event: Event| after.records.dom().contains(event) implies #[trigger] after.records[event]
        == before.records[event] by {
        assert(after.records.get(event) == before.records.get(event));
    }
    assert(after.records =~= before.records);
    assert(after =~= before);
}

} // verus!
