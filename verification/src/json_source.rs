//! Records from the JSON description of a person that the unofficial API
//! serves.

use vstd::prelude::*;
use vstd::string::*;
use crate::competitor::Competitor;
use crate::duration::Duration;
use crate::event::Event;
use crate::text::str_eq;

verus! {

/// One ranked result of a person.
#[derive(Debug, Clone, PartialEq, Eq)]
pub struct PR {
    /// The result in hundredths of a second.
    pub best: u32,
    /// The code of the event of the result.
    pub event_id: String,
}

/// The ranked results of a person.
#[derive(Debug, Clone, PartialEq, Eq)]
pub struct Rank {
    /// The best averages, one for each event with one.
    pub averages: Vec<PR>,
    /// The best single attempts, one for each event with one.
    pub singles: Vec<PR>,
}

/// What the API tells of a person.
#[derive(Debug, Clone, PartialEq, Eq)]
pub struct Person {
    /// The ranked results.
    pub rank: Rank,
}

/// The result of the first of `results` that is of the event with `code`.
pub open spec fn first_best(results: Seq<PR>, code: Seq<char>) -> Option<nat>
    decreases results.len(),
{
    if results.len() == 0 {
        None
    } else if results.first().event_id@ == code {
        Some(results.first().best as nat)
    } else {
        first_best(results.drop_first(), code)
    }
}

/// The record of `event` that `person` holds, in hundredths of a second: the
/// best average where the event is ranked by averages, else the best single
/// attempt.
pub open spec fn json_record(person: Person, event: Event) -> Option<nat> {
    first_best(
        if event.spec_use_average() {
            person.rank.averages@
        } else {
            person.rank.singles@
        },
        event.spec_code_name(),
    )
}

/// The address of the description of the person with the identifier `id`.
pub open spec fn unofficial_api_address(id: Seq<char>) -> Seq<char> {
    "https://raw.githubusercontent.com/robiningelbrecht/wca-rest-api/master/api/persons/"@ + id
        + ".json"@
}

/// The address of the description of the person with the identifier `id`.
pub fn unofficial_api_url(id: &str) -> (url: String)
    ensures
        url@ == unofficial_api_address(id@),
{
    let mut url = String::from_str(
        "https://raw.githubusercontent.com/robiningelbrecht/wca-rest-api/master/api/persons/",
    );
    url.append(id);
    url.append(".json");
    url
}

/// The record of `event` that the description of a person holds: the best
/// average where the event is ranked by averages, else the best single
/// attempt; none where the description has no entry of the event.
pub fn parse_pr_json(competitor_json: &Person, event: Event) -> (record: Option<Duration>)
    ensures
        match record {
            Some(time) => json_record(*competitor_json, event) == Some(time@),
            None => json_record(*competitor_json, event) is None,
        },
{
    let results = if event.use_average() {
        &competitor_json.rank.averages
    } else {
        &competitor_json.rank.singles
    };
    let code = event.code_name();
    let mut i: usize = 0;
    assert(results@.skip(0) =~= results@);
    while i < results.len()
        invariant
            i <= results.len(),
            code@ == event.spec_code_name(),
            json_record(*competitor_json, event) == first_best(results@, code@),
            first_best(results@, code@) == first_best(results@.skip(i as int), code@),
        decreases results.len() - i,
    {
        assert(results@.skip(i as int).drop_first() =~= results@.skip(i + 1));
        if str_eq(results[i].event_id.as_str(), code) {
            return Some(Duration::from_centis(results[i].best as u64));
        }
        i += 1;
    }
    None
}

/// Takes the record of `event` from the description of the competitor as a
/// person. A competitor without a profile, or one not registered for the
/// event, is left as it is, and so is one whose description has no entry of
/// the event.
pub fn retrieve_competitor_pr(competitor: &mut Competitor, event: Event, person: &Person)
    ensures
        final(competitor)@ == match json_record(*person, event) {
            Some(centis) => if old(competitor)@.has_profile() && old(competitor)@.registered(
                event,
            ) {
                old(competitor)@.with_record(event, centis)
            } else {
                old(competitor)@
            },
            None => old(competitor)@,
        },
{
    if competitor.has_profile() {
        if let Some(time) = parse_pr_json(person, event) {
            competitor.set_record(event, time);
        }
    }
}

} // verus!
