//! Made-up records for trying the report out without the network.

use vstd::prelude::*;
use rand::Rng;
use crate::competitor::Competitor;
use crate::duration::Duration;
use crate::event::Event;

verus! {

/// The least time that is made up, in hundredths of a second.
pub const SYNTHETIC_LOWEST: u64 = 700;

/// The bound below which every made-up time lies, in hundredths of a second.
pub const SYNTHETIC_BOUND: u64 = 4000;

/// Draws a number with `rand::thread_rng().gen_range(low..high)`, which
/// returns a value of the half-open range and panics on an empty one. Which
/// value comes is left open.
#[verifier::external_body]
fn random_below(low: u64, high: u64) -> (value: u64)
    requires
        low < high,
    ensures
        low <= value < high,
{
    rand::thread_rng().gen_range(low..high)
}

/// A made-up time of 7 to 39 whole seconds and 0 to 99 hundredths.
pub fn draw_time() -> (time: Duration)
    ensures
        SYNTHETIC_LOWEST <= time@ < SYNTHETIC_BOUND,
{
    let secs = random_below(7, 40);
    let hundredths = random_below(0, 100);
    Duration::from_centis(secs * 100 + hundredths)
}

/// Keeps `found` as the record of `event` of a competitor with a profile who
/// is registered for the event, and says whether it did. No record is ever
/// kept for a competitor without a profile.
pub fn store_found(competitor: &mut Competitor, event: Event, found: Option<Duration>) -> (stored:
    bool)
    ensures
        stored == (found is Some && old(competitor)@.has_profile() && old(competitor)@.registered(
            event,
        )),
        stored ==> final(competitor)@ == old(competitor)@.with_record(event, found->0@),
        !stored ==> final(competitor)@ == old(competitor)@,
{
    match found {
        Some(time) => if competitor.has_profile() {
            competitor.set_record(event, time)
        } else {
            false
        },
        None => false,
    }
}

/// Gives a competitor with a profile a made-up record of `event`, where the
/// competitor is registered for it. A competitor without a profile is left
/// as it is.
pub fn set_random_competitor_pr(competitor: &mut Competitor, event: Event)
    ensures
        old(competitor)@.has_profile() && old(competitor)@.registered(event) ==> exists|centis: nat|
            SYNTHETIC_LOWEST <= centis < SYNTHETIC_BOUND && final(competitor)@ == old(
                competitor
            )@.with_record(event, centis),
        !(old(competitor)@.has_profile() && old(competitor)@.registered(event)) ==> final(
            competitor
        )@ == old(competitor)@,
{
    if competitor.has_profile() {
        let time = draw_time();
        store_found(competitor, event, Some(time));
    }
}

} // verus!
