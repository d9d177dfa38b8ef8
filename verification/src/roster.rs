//! The roster page of a competition: its title and its competitors.

use vstd::prelude::*;
use vstd::string::*;
use regex::Regex;
use crate::competitor::{without_repeats, Competitor, CompetitorView};
use crate::event::{event_with_code, Event};
use crate::text::{trim, trimmed};
use crate::wcoerror::WCOError;

verus! {

/// One row of the roster as it stands on the page.
#[derive(Debug, Clone, PartialEq, Eq)]
pub struct RosterRow {
    /// The text of the name cell.
    pub name: String,
    /// The target of the first link of the name cell, where it holds one.
    pub profile_link: Option<String>,
    /// The classes of the icons in the cells after the name cell, in the order
    /// of the page.
    pub event_marks: Vec<String>,
}

/// What is read of the roster page of a competition.
#[derive(Debug, Clone, PartialEq, Eq)]
pub struct RosterPage {
    /// The text of each title heading of the page.
    pub titles: Vec<String>,
    /// The rows of the roster, in the order of the page.
    pub rows: Vec<RosterRow>,
}

/// What the capture group `group` of the regular expression `pattern` holds
/// at the first match of the pattern in `haystack`; none where the pattern is
/// no regular expression, where nothing matches, or where the group took no
/// part in the match.
pub uninterp spec fn regex_capture(pattern: Seq<char>, haystack: Seq<char>, group: int) -> Option<
    Seq<char>,
>;

/// Compiles `pattern` with `Regex::new`, searches `haystack` with
/// `Regex::captures` and takes the text of the group from `Captures::get`.
/// The three are taken to give the same answer whenever they are asked the
/// same; nothing more is claimed of what they match.
#[verifier::external_body]
fn first_capture(pattern: &str, haystack: &str, group: usize) -> (captured: Option<String>)
    ensures
        match captured {
            Some(text) => regex_capture(pattern@, haystack@, group as int) == Some(text@),
            None => regex_capture(pattern@, haystack@, group as int) is None,
        },
{
    let found = Regex::new(pattern).ok()?.captures(haystack)?.get(group)?;
    Some(found.as_str().to_owned())
}

/// The regular expression of a link to a profile; its first group is the
/// identifier: four digits, four capital letters and two digits.
pub open spec fn wca_id_pattern() -> Seq<char> {
    "/persons/([0-9]{4}[A-Z]{4}[0-9]{2})"@
}

/// The regular expression of the class of an event icon; its first group is
/// the code of the event.
pub open spec fn event_mark_pattern() -> Seq<char> {
    "event-(.+)"@
}

/// The identifier that a link to a profile holds.
pub open spec fn wca_id_of_link(link: Option<String>) -> Option<Seq<char>> {
    match link {
        Some(target) => regex_capture(wca_id_pattern(), target@, 1),
        None => None,
    }
}

/// The code of the first of `marks` that is an event icon of no event of the
/// catalog.
pub open spec fn first_unknown_code(marks: Seq<String>) -> Option<Seq<char>>
    decreases marks.len(),
{
    if marks.len() == 0 {
        None
    } else {
        match regex_capture(event_mark_pattern(), marks.first()@, 1) {
            Some(code) => if event_with_code(code) is None {
                Some(code)
            } else {
                first_unknown_code(marks.drop_first())
            },
            None => first_unknown_code(marks.drop_first()),
        }
    }
}

/// The events of those of `marks` that are event icons, in their order.
pub open spec fn marked_events(marks: Seq<String>) -> Seq<Event>
    decreases marks.len(),
{
    if marks.len() == 0 {
        Seq::empty()
    } else {
        let before = marked_events(marks.drop_last());
        match regex_capture(event_mark_pattern(), marks.last()@, 1) {
            Some(code) => match event_with_code(code) {
                Some(event) => before.push(event),
                None => before,
            },
            None => before,
        }
    }
}

/// The competitor that `row` describes: the name without the whitespace
/// around it, the identifier of the linked profile, the events of the icons,
/// each once, and no record.
pub open spec fn competitor_of_row(row: RosterRow) -> CompetitorView {
    CompetitorView {
        name: trimmed(row.name@),
        wca_id: wca_id_of_link(row.profile_link),
        events: without_repeats(marked_events(row.event_marks@)),
        records: Map::empty(),
    }
}

/// The title of the competition: the text of the one title heading of the
/// page, without the whitespace around it. A page with no title heading or
/// with several is refused with `StructuralParse`, which then carries their
/// number.
pub fn get_competition_title(page: &RosterPage) -> (title: Result<String, WCOError>)
    ensures
        match title {
            Ok(title) => page.titles@.len() == 1 && title@ == trimmed(page.titles@[0]@),
            Err(WCOError::StructuralParse(found)) => found != 1 && found == page.titles@.len(),
            Err(_) => false,
        },
{
    if page.titles.len() == 1 {
        Ok(String::from_str(trim(page.titles[0].as_str())))
    } else {
        Err(WCOError::StructuralParse(page.titles.len()))
    }
}

/// The identifier that a link to a profile holds.
pub fn parse_wca_id(profile_url: &str) -> (id: Option<String>)
    ensures
        match id {
            Some(id) => regex_capture(wca_id_pattern(), profile_url@, 1) == Some(id@),
            None => regex_capture(wca_id_pattern(), profile_url@, 1) is None,
        },
{
    first_capture("/persons/([0-9]{4}[A-Z]{4}[0-9]{2})", profile_url, 1)
}

/// The events of the event icons among `marks`, in their order. Classes
/// that are no event icon are passed over; an event icon of no event of the
/// catalog is refused with `UnknownEvent`, which then carries its code.
pub fn extract_events(marks: &Vec<String>) -> (events: Result<Vec<Event>, WCOError>)
    ensures
        match events {
            Ok(events) => first_unknown_code(marks@) is None && events@ == marked_events(marks@),
            Err(WCOError::UnknownEvent(code)) => first_unknown_code(marks@) == Some(code@),
            Err(_) => false,
        },
{
    let mut events: Vec<Event> = Vec::new();
    let mut i: usize = 0;
    assert(marks@.skip(0) =~= marks@);
    assert(marks@.take(0) =~= Seq::<String>::empty());
    while i < marks.len()
        invariant
            i <= marks.len(),
            first_unknown_code(marks@) == first_unknown_code(marks@.skip(i as int)),
            events@ == marked_events(marks@.take(i as int)),
        decreases marks.len() - i,
    {
        assert(marks@.skip(i as int).drop_first() =~= marks@.skip(i + 1));
        assert(marks@.take(i + 1).drop_last() =~= marks@.take(i as int));
        match first_capture("event-(.+)", marks[i].as_str(), 1) {
            Some(code) => match Event::try_from(code.as_str()) {
                Ok(event) => {
                    events.push(event);
                },
                Err(error) => {
                    return Err(error);
                },
            },
            None => {},
        }
        i += 1;
    }
    assert(marks@.take(marks.len() as int) =~= marks@);
    Ok(events)
}

/// The competitor that `row` describes.
pub fn parse_row(row: &RosterRow) -> (competitor: Result<Competitor, WCOError>)
    ensures
        match competitor {
            Ok(competitor) => first_unknown_code(row.event_marks@) is None && competitor@
                == competitor_of_row(*row),
            Err(WCOError::UnknownEvent(code)) => first_unknown_code(row.event_marks@) == Some(
                code@,
            ),
            Err(_) => false,
        },
{
    let name = String::from_str(trim(row.name.as_str()));
    let wca_id = match &row.profile_link {
        Some(target) => parse_wca_id(target.as_str()),
        None => None,
    };
    match extract_events(&row.event_marks) {
        Ok(events) => {
            let competitor = Competitor::new(name, wca_id, events);
            assert(competitor@ =~= competitor_of_row(*row));
            Ok(competitor)
        },
        Err(error) => Err(error),
    }
}

/// The competitors of the roster, one for each row and in the order of the
/// page; rows with the same name stay apart. The first event icon of no
/// event of the catalog is refused with `UnknownEvent`, which then carries
/// its code.
pub fn parse_competitors(page: &RosterPage) -> (competitors: Result<Vec<Competitor>, WCOError>)
    ensures
        match competitors {
            Ok(competitors) => {
                &&& competitors@.len() == page.rows@.len()
                &&& forall|i: int|
                    0 <= i < page.rows@.len() ==> first_unknown_code(
                        (#[trigger] page.rows@[i]).event_marks@,
                    ) is None && competitors@[i]@ == competitor_of_row(page.rows@[i])
            },
            Err(WCOError::UnknownEvent(code)) => exists|i: int|
                0 <= i < page.rows@.len() && first_unknown_code(
                    (#[trigger] page.rows@[i]).event_marks@,
                ) == Some(code@) && forall|j: int|
                    0 <= j < i ==> first_unknown_code((#[trigger] page.rows@[j]).event_marks@)
                        is None,
            Err(_) => false,
        },
{
    let mut competitors: Vec<Competitor> = Vec::new();
    let mut i: usize = 0;
    while i < page.rows.len()
        invariant
            i <= page.rows.len(),
            competitors@.len() == i,
            forall|j: int|
                0 <= j < i ==> first_unknown_code((#[trigger] page.rows@[j]).event_marks@)
                    is None && competitors@[j]@ == competitor_of_row(page.rows@[j]),
        decreases page.rows.len() - i,
    {
        match parse_row(&page.rows[i]) {
            Ok(competitor) => {
                competitors.push(competitor);
            },
            Err(error) => {
                return Err(error);
            },
        }
        i += 1;
    }
    Ok(competitors)
}

} // verus!
