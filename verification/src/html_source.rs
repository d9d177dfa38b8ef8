//! Records from the profile page of a person on the association's website.

use vstd::prelude::*;
use vstd::string::*;
use crate::competitor::Competitor;
use crate::duration::{parse_time, time_value, Duration};
use crate::event::Event;
use crate::text::str_eq;
use crate::wcoerror::WCOError;

verus! {

/// A link of a page: where it leads and what it shows.
#[derive(Debug, Clone, PartialEq, Eq)]
pub struct Anchor {
    /// The target of the link.
    pub href: String,
    /// The text of the link.
    pub text: String,
}

/// What is read of the profile page of a person: its links, in the order of
/// the page.
#[derive(Debug, Clone, PartialEq, Eq)]
pub struct ProfilePage {
    /// The links of the page.
    pub anchors: Vec<Anchor>,
}

/// The address of the profile page of the person with the identifier `id`.
pub open spec fn wca_profile_address(id: Seq<char>) -> Seq<char> {
    "https://www.worldcubeassociation.org/persons/"@ + id
}

/// The target of the link that shows a person's record of `event`: the
/// ranking of the event by averages where it is ranked so, else by single
/// attempts.
pub open spec fn ranking_path(event: Event) -> Seq<char> {
    "/results/rankings/"@ + event.spec_code_name() + if event.spec_use_average() {
        "/average"@
    } else {
        "/single"@
    }
}

/// The text of the first of `anchors` that leads to `target`.
pub open spec fn first_anchor_text(anchors: Seq<Anchor>, target: Seq<char>) -> Option<Seq<char>>
    decreases anchors.len(),
{
    if anchors.len() == 0 {
        None
    } else if anchors.first().href@ == target {
        Some(anchors.first().text@)
    } else {
        first_anchor_text(anchors.drop_first(), target)
    }
}

/// The address of the profile page of the person with the identifier `id`.
pub fn wca_profile_url(id: &str) -> (url: String)
    ensures
        url@ == wca_profile_address(id@),
{
    let mut url = String::from_str("https://www.worldcubeassociation.org/persons/");
    url.append(id);
    url
}

/// The target of the link that shows a person's record of `event`.
pub fn ranking_link(event: Event) -> (target: String)
    ensures
        target@ == ranking_path(event),
{
    let mut target = String::from_str("/results/rankings/");
    target.append(event.code_name());
    if event.use_average() {
        target.append("/average");
    } else {
        target.append("/single");
    }
    target
}

/// The text of the first link of `page` that leads to `target`.
pub fn find_anchor_text<'a>(page: &'a ProfilePage, target: &str) -> (text: Option<&'a str>)
    ensures
        match text {
            Some(text) => first_anchor_text(page.anchors@, target@) == Some(text@),
            None => first_anchor_text(page.anchors@, target@) is None,
        },
{
    let mut i: usize = 0;
    assert(page.anchors@.skip(0) =~= page.anchors@);
    while i < page.anchors.len()
        invariant
            i <= page.anchors.len(),
            first_anchor_text(page.anchors@, target@) == first_anchor_text(
                page.anchors@.skip(i as int),
                target@,
            ),
        decreases page.anchors.len() - i,
    {
        assert(page.anchors@.skip(i as int).drop_first() =~= page.anchors@.skip(i + 1));
        if str_eq(page.anchors[i].href.as_str(), target) {
            return Some(page.anchors[i].text.as_str());
        }
        i += 1;
    }
    None
}

/// Reads what a link found on a profile page shows as a record: no link, no
/// record; a link with a time, that record; a link with another text is
/// refused with `MalformedTime`, which then carries the text.
pub fn record_from_link(text: Option<&str>) -> (record: Result<Option<Duration>, WCOError>)
    ensures
        match record {
            Ok(None) => text is None,
            Ok(Some(time)) => text is Some && time_value(text->0@) == Some(time@),
            Err(WCOError::MalformedTime(refused)) => text is Some && time_value(text->0@) is None
                && refused@ == text->0@,
            Err(_) => false,
        },
{
    match text {
        None => Ok(None),
        Some(text) => match parse_time(text) {
            Ok(time) => Ok(Some(time)),
            Err(error) => Err(error),
        },
    }
}

/// The record of `event` that the profile page shows: the time in the first
/// link that leads to the ranking of the event. Without such a link there is
/// no record; a link that shows no time is refused with `MalformedTime`.
pub fn parse_pr_html(page: &ProfilePage, event: Event) -> (record: Result<
    Option<Duration>,
    WCOError,
>)
    ensures
        match (first_anchor_text(page.anchors@, ranking_path(event)), record) {
            (None, Ok(None)) => true,
            (Some(text), Ok(Some(time))) => time_value(text) == Some(time@),
            (Some(text), Err(WCOError::MalformedTime(refused))) => time_value(text) is None
                && refused@ == text,
            _ => false,
        },
{
    let target = ranking_link(event);
    record_from_link(find_anchor_text(page, target.as_str()))
}

/// Takes the record of `event` from the profile page of the competitor. A
/// competitor without a profile is left as it is and no failure is
/// reported; so is one not registered for the event, unless the page shows
/// no time where the record should be.
pub fn retrieve_competitor_pr_avg_html(
    competitor: &mut Competitor,
    event: Event,
    page: &ProfilePage,
) -> (done: Result<(), WCOError>)
    ensures
        !old(competitor)@.has_profile() ==> done is Ok && final(competitor)@ == old(competitor)@,
        old(competitor)@.has_profile() ==> match first_anchor_text(
            page.anchors@,
            ranking_path(event),
        ) {
            None => done is Ok && final(competitor)@ == old(competitor)@,
            Some(text) => match time_value(text) {
                Some(centis) => done is Ok && final(competitor)@ == if old(competitor)@.registered(
                    event,
                ) {
                    old(competitor)@.with_record(event, centis)
                } else {
                    old(competitor)@
                },
                None => done matches Err(WCOError::MalformedTime(refused)) && refused@ == text
                    && final(competitor)@ == old(competitor)@,
            },
        },
{
    if competitor.has_profile() {
        match parse_pr_html(page, event) {
            Ok(Some(time)) => {
                competitor.set_record(event, time);
            },
            Ok(None) => {},
            Err(error) => {
                return Err(error);
            },
        }
    }
    Ok(())
}

} // verus!
