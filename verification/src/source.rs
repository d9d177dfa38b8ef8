//! The sources of personal records: which one is used, what is asked of it
//! for a competitor, and what it answers for an event.

use vstd::prelude::*;
use vstd::string::*;
use crate::competitor::{Competitor, CompetitorView};
use crate::duration::{time_value, Duration};
use crate::event::Event;
use crate::html_source::{
    first_anchor_text, parse_pr_html, ranking_path, wca_profile_address, wca_profile_url,
    ProfilePage,
};
use crate::json_source::{
    json_record, parse_pr_json, unofficial_api_address, unofficial_api_url, Person,
};
use crate::synthetic_source::{draw_time, SYNTHETIC_BOUND, SYNTHETIC_LOWEST};
use crate::text::chars_of;
use crate::wcoerror::{WCOError, WCOErrorView};

verus! {

/// The choice of a source of records.
#[derive(Debug, Clone, Copy, PartialEq, Eq, Hash, Structural)]
pub enum Source {
    /// The JSON descriptions of persons of the unofficial API.
    UnofficialAPI,
    /// The profile pages of the association's website.
    WCAwebsite,
    /// Made-up records.
    Debug,
}

/// The code of `c` with a capital ASCII letter taken as the small one.
pub open spec fn lower_code(c: char) -> u32 {
    if 0x41 <= c as u32 <= 0x5a {
        (c as u32 + 0x20) as u32
    } else {
        c as u32
    }
}

/// Whether `text` is `name` up to the case of its ASCII letters, where
/// `name` holds no capital letter.
pub open spec fn names(text: Seq<char>, name: Seq<char>) -> bool {
    &&& text.len() == name.len()
    &&& forall|i: int| 0 <= i < text.len() ==> lower_code(#[trigger] text[i]) == name[i] as u32
}

/// Whether `chars` is `name` up to the case of its ASCII letters.
fn is_name(chars: &Vec<char>, name: &str) -> (same: bool)
    ensures
        same == names(chars@, name@),
{
    let wanted = chars_of(name);
    if chars.len() != wanted.len() {
        return false;
    }
    let mut i: usize = 0;
    while i < chars.len()
        invariant
            i <= chars.len(),
            chars.len() == wanted.len(),
            wanted@ == name@,
            forall|k: int| 0 <= k < i ==> lower_code(#[trigger] chars[k]) == wanted[k] as u32,
        decreases chars.len() - i,
    {
        let code: u32 = chars[i] as u32;
        let lowered: u32 = if 0x41 <= code && code <= 0x5a {
            code + 0x20
        } else {
            code
        };
        if lowered != wanted[i] as u32 {
            return false;
        }
        i += 1;
    }
    true
}

impl Source {
    /// The name of the source, in small letters.
    pub open spec fn spec_name(self) -> Seq<char> {
        match self {
            Source::UnofficialAPI => "unofficialapi"@,
            Source::WCAwebsite => "wcawebsite"@,
            Source::Debug => "debug"@,
        }
    }

    /// The source that `s` names, whatever the case of its letters. Any
    /// other text is refused with `UnknownSource`, which then carries the
    /// text.
    pub fn from_str(s: &str) -> (source: Result<Source, WCOError>)
        ensures
            match source {
                Ok(source) => names(s@, source.spec_name()),
                Err(error) => error@ == WCOErrorView::UnknownSource(s@) && forall|source: Source|
                    !names(s@, source.spec_name()),
            },
    {
        let chars = chars_of(s);
        if is_name(&chars, "wcawebsite") {
            Ok(Source::WCAwebsite)
        } else if is_name(&chars, "unofficialapi") {
            Ok(Source::UnofficialAPI)
        } else if is_name(&chars, "debug") {
            Ok(Source::Debug)
        } else {
            Err(WCOError::UnknownSource(String::from_str(s)))
        }
    }

    /// The address of what the source keeps of `competitor`: none where the
    /// competitor has no profile, and none for made-up records.
    pub open spec fn address_of(self, competitor: CompetitorView) -> Option<Seq<char>> {
        match (self, competitor.wca_id) {
            (Source::UnofficialAPI, Some(id)) => Some(unofficial_api_address(id)),
            (Source::WCAwebsite, Some(id)) => Some(wca_profile_address(id)),
            _ => None,
        }
    }

    /// The address to fetch for `competitor`, where the source keeps
    /// something of them.
    pub fn resource_url(&self, competitor: &Competitor) -> (url: Option<String>)
        ensures
            match url {
                Some(url) => self.address_of(competitor@) == Some(url@),
                None => self.address_of(competitor@) is None,
            },
    {
        match (self, competitor.wca_id()) {
            (Source::UnofficialAPI, Some(id)) => Some(unofficial_api_url(id)),
            (Source::WCAwebsite, Some(id)) => Some(wca_profile_url(id)),
            _ => None,
        }
    }
}

/// A source of records together with what it was found to hold: for a
/// remote source, the answer for each competitor of the roster, in its
/// order, or the reason why there is none.
#[derive(Debug)]
pub enum RecordSource {
    /// The JSON descriptions of persons.
    RemoteJson(Vec<Result<Person, String>>),
    /// The profile pages.
    RemoteHtml(Vec<Result<ProfilePage, String>>),
    /// Made-up records.
    Synthetic,
}

/// What was found when a record was looked up, in hundredths of a second,
/// or why nothing was found.
pub type Found = Result<Option<nat>, WCOErrorView>;

/// The reason given where a remote source holds no answer for a competitor.
pub open spec fn no_answer() -> Seq<char> {
    "no answer was fetched for this competitor"@
}

impl RecordSource {
    /// What a remote source holds as the record of `event` of the competitor
    /// at `position` of the roster. A competitor without a profile has no
    /// record. The answer of the source decides for the others: a description
    /// of a person by its entry of the event, a profile page by the time
    /// that its link to the ranking of the event shows; an answer that could
    /// not be had is a failure of retrieval, a link that shows no time a
    /// malformed time.
    pub open spec fn remote_record(
        self,
        position: int,
        competitor: CompetitorView,
        event: Event,
    ) -> Found {
        if !competitor.has_profile() {
            Ok(None)
        } else {
            match self {
                RecordSource::RemoteJson(answers) => if 0 <= position < answers@.len() {
                    match answers@[position] {
                        Ok(person) => Ok(json_record(person, event)),
                        Err(reason) => Err(WCOErrorView::Retrieval(reason@)),
                    }
                } else {
                    Err(WCOErrorView::Retrieval(no_answer()))
                },
                RecordSource::RemoteHtml(answers) => if 0 <= position < answers@.len() {
                    match answers@[position] {
                        Ok(page) => match first_anchor_text(page.anchors@, ranking_path(event)) {
                            Some(text) => match time_value(text) {
                                Some(centis) => Ok(Some(centis)),
                                None => Err(WCOErrorView::MalformedTime(text)),
                            },
                            None => Ok(None),
                        },
                        Err(reason) => Err(WCOErrorView::Retrieval(reason@)),
                    }
                } else {
                    Err(WCOErrorView::Retrieval(no_answer()))
                },
                RecordSource::Synthetic => Ok(None),
            }
        }
    }

    /// Looks up the record of `event` of the competitor at `position` of the
    /// roster. A competitor without a profile has none, whatever the source.
    /// A remote source answers as `remote_record` says; a made-up record
    /// lies between the least made-up time and the bound.
    pub fn fetch(&self, position: usize, competitor: &Competitor, event: Event) -> (found: Result<
        Option<Duration>,
        WCOError,
    >)
        ensures
            !competitor@.has_profile() ==> found == Ok::<Option<Duration>, WCOError>(None),
            self !is Synthetic ==> found_view(found) == self.remote_record(
                position as int,
                competitor@,
                event,
            ),
            self is Synthetic && competitor@.has_profile() ==> (found matches Ok(Some(time))
                && SYNTHETIC_LOWEST <= time@ < SYNTHETIC_BOUND),
    {
        if !competitor.has_profile() {
            return Ok(None);
        }
        match self {
            RecordSource::RemoteJson(answers) => {
                if position < answers.len() {
                    match &answers[position] {
                        Ok(person) => Ok(parse_pr_json(person, event)),
                        Err(reason) => Err(WCOError::Retrieval(reason.clone())),
                    }
                } else {
                    Err(
                        WCOError::Retrieval(
                            String::from_str("no answer was fetched for this competitor"),
                        ),
                    )
                }
            },
            RecordSource::RemoteHtml(answers) => {
                if position < answers.len() {
                    match &answers[position] {
                        Ok(page) => parse_pr_html(page, event),
                        Err(reason) => Err(WCOError::Retrieval(reason.clone())),
                    }
                } else {
                    Err(
                        WCOError::Retrieval(
                            String::from_str("no answer was fetched for this competitor"),
                        ),
                    )
                }
            },
            RecordSource::Synthetic => Ok(Some(draw_time())),
        }
    }
}

/// What `found` is to the contracts of this library.
pub open spec fn found_view(found: Result<Option<Duration>, WCOError>) -> Found {
    match found {
        Ok(Some(time)) => Ok(Some(time@)),
        Ok(None) => Ok(None),
        Err(error) => Err(error@),
    }
}

/// No source ever holds a record of a competitor without a profile.
pub proof fn lemma_no_profile_no_record(
    source: RecordSource,
    position: int,
    competitor: CompetitorView,
    event: Event,
)
    requires
        !competitor.has_profile(),
    ensures
        source.remote_record(position, competitor, event) == Ok::<Option<nat>, WCOErrorView>(None),
{
}

} // verus!
