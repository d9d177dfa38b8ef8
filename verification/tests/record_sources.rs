use wca_overview::competitor::Competitor;
use wca_overview::duration::Duration;
use wca_overview::event::Event;
use wca_overview::html_source::{
    find_anchor_text, parse_pr_html, ranking_link, record_from_link,
    retrieve_competitor_pr_avg_html, wca_profile_url, Anchor, ProfilePage,
};
use wca_overview::json_source::{
    parse_pr_json, retrieve_competitor_pr, unofficial_api_url, Person, Rank, PR,
};
use wca_overview::source::{RecordSource, Source};
use wca_overview::synthetic_source::{
    draw_time, set_random_competitor_pr, store_found, SYNTHETIC_BOUND, SYNTHETIC_LOWEST,
};
use wca_overview::wcoerror::WCOError;

const ALL_EVENTS: [Event; 17] = [
    Event::Ev333,
    Event::Ev222,
    Event::Ev444,
    Event::Ev555,
    Event::Ev666,
    Event::Ev777,
    Event::Ev333bf,
    Event::Ev333fm,
    Event::Ev333oh,
    Event::EvClock,
    Event::EvMinx,
    Event::EvPyram,
    Event::EvSkewb,
    Event::EvSq1,
    Event::Ev444bf,
    Event::Ev555bf,
    Event::Ev333mbf,
];

fn pr(event_id: &str, best: u32) -> PR {
    PR { best, event_id: event_id.to_string() }
}

fn person() -> Person {
    Person {
        rank: Rank {
            averages: vec![pr("222", 312), pr("333", 853), pr("333bf", 9000), pr("333", 1)],
            singles: vec![pr("333", 699), pr("333bf", 4512), pr("444bf", 4294967295)],
        },
    }
}

fn anchor(href: &str, text: &str) -> Anchor {
    Anchor { href: href.to_string(), text: text.to_string() }
}

fn page() -> ProfilePage {
    ProfilePage {
        anchors: vec![
            anchor("/", "Home"),
            anchor("/results/rankings/333/single", "6.99"),
            anchor("/results/rankings/333/average", "\n 8.53 \n"),
            anchor("/results/rankings/333/average", "9.99"),
            anchor("/results/rankings/333bf/single", "1:15.12"),
            anchor("/results/rankings/333bf/average", "1:30.00"),
            anchor("/results/rankings/minx/average", "DNF"),
        ],
    }
}

fn returner(events: &[Event]) -> Competitor {
    Competitor::new("Jane Doe".to_string(), Some("2015DOEJ01".to_string()), events.to_vec())
}

fn newcomer(events: &[Event]) -> Competitor {
    Competitor::new("New Comer".to_string(), None, events.to_vec())
}

#[test]
fn new_competitor_has_no_record() {
    let competitor = returner(&[Event::Ev333, Event::Ev222]);
    assert_eq!(competitor.name(), "Jane Doe");
    assert_eq!(competitor.wca_id(), Some("2015DOEJ01"));
    assert_eq!(competitor.events(), &vec![Event::Ev333, Event::Ev222]);
    for event in ALL_EVENTS {
        assert_eq!(competitor.record(event), None);
    }
}

#[test]
fn new_competitor_is_registered_once_for_each_event() {
    let competitor = returner(&[Event::Ev333, Event::Ev222, Event::Ev333, Event::Ev333, Event::Ev222]);
    assert_eq!(competitor.events(), &vec![Event::Ev333, Event::Ev222]);
    assert_eq!(newcomer(&[]).events(), &Vec::<Event>::new());
}

#[test]
fn records_are_kept_of_registered_events_only() {
    let mut competitor = returner(&[Event::Ev333]);
    assert!(competitor.set_record(Event::Ev333, Duration::from_centis(853)));
    assert!(!competitor.set_record(Event::Ev222, Duration::from_centis(312)));
    assert_eq!(competitor.record(Event::Ev333), Some(Duration::from_centis(853)));
    assert_eq!(competitor.record(Event::Ev222), None);
    assert!(competitor.set_record(Event::Ev333, Duration::from_centis(790)));
    assert_eq!(competitor.record(Event::Ev333), Some(Duration::from_centis(790)));
}

#[test]
fn addresses() {
    assert_eq!(
        unofficial_api_url("2015DOEJ01"),
        "https://raw.githubusercontent.com/robiningelbrecht/wca-rest-api/master/api/persons/2015DOEJ01.json"
    );
    assert_eq!(wca_profile_url("2015DOEJ01"), "https://www.worldcubeassociation.org/persons/2015DOEJ01");
    assert_eq!(ranking_link(Event::Ev333), "/results/rankings/333/average");
    assert_eq!(ranking_link(Event::Ev333bf), "/results/rankings/333bf/single");
    assert_eq!(ranking_link(Event::EvSq1), "/results/rankings/sq1/average");
}

#[test]
fn json_record_by_average_or_single() {
    let person = person();
    assert_eq!(parse_pr_json(&person, Event::Ev333), Some(Duration::from_centis(853)));
    assert_eq!(parse_pr_json(&person, Event::Ev222), Some(Duration::from_centis(312)));
    assert_eq!(parse_pr_json(&person, Event::Ev333bf), Some(Duration::from_centis(4512)));
    assert_eq!(parse_pr_json(&person, Event::Ev444bf), Some(Duration::from_centis(4294967295)));
    assert_eq!(parse_pr_json(&person, Event::Ev444bf).unwrap().as_secs(), 42949672);
}

#[test]
fn json_record_absent() {
    let person = person();
    assert_eq!(parse_pr_json(&person, Event::Ev444), None);
    assert_eq!(parse_pr_json(&person, Event::Ev555bf), None);
    let nobody = Person { rank: Rank { averages: vec![], singles: vec![] } };
    for event in ALL_EVENTS {
        assert_eq!(parse_pr_json(&nobody, event), None);
    }
}

#[test]
fn json_record_is_stored() {
    let mut competitor = returner(&[Event::Ev333, Event::Ev444]);
    retrieve_competitor_pr(&mut competitor, Event::Ev333, &person());
    retrieve_competitor_pr(&mut competitor, Event::Ev444, &person());
    retrieve_competitor_pr(&mut competitor, Event::Ev222, &person());
    assert_eq!(competitor.record(Event::Ev333), Some(Duration::from_centis(853)));
    assert_eq!(competitor.record(Event::Ev444), None);
    assert_eq!(competitor.record(Event::Ev222), None);
}

#[test]
fn html_link_text() {
    let page = page();
    assert_eq!(find_anchor_text(&page, "/results/rankings/333/average"), Some("\n 8.53 \n"));
    assert_eq!(find_anchor_text(&page, "/"), Some("Home"));
    assert_eq!(find_anchor_text(&page, "/results/rankings/333/averag"), None);
    assert_eq!(find_anchor_text(&ProfilePage { anchors: vec![] }, "/"), None);
}

#[test]
fn html_record_from_link() {
    assert_eq!(record_from_link(None), Ok(None));
    assert_eq!(record_from_link(Some(" 8.53 ")), Ok(Some(Duration::from_centis(853))));
    assert_eq!(record_from_link(Some("DNF")), Err(WCOError::MalformedTime("DNF".to_string())));
}

#[test]
fn html_record_by_average_or_single() {
    let page = page();
    assert_eq!(parse_pr_html(&page, Event::Ev333), Ok(Some(Duration::from_centis(853))));
    assert_eq!(parse_pr_html(&page, Event::Ev333bf), Ok(Some(Duration::from_centis(7512))));
}

#[test]
fn html_record_absent_is_no_failure() {
    assert_eq!(parse_pr_html(&page(), Event::Ev222), Ok(None));
    assert_eq!(parse_pr_html(&ProfilePage { anchors: vec![] }, Event::Ev333), Ok(None));
}

#[test]
fn html_record_malformed() {
    assert_eq!(parse_pr_html(&page(), Event::EvMinx), Err(WCOError::MalformedTime("DNF".to_string())));
}

#[test]
fn html_record_is_stored() {
    let mut competitor = returner(&[Event::Ev333, Event::EvMinx, Event::Ev222]);
    assert_eq!(retrieve_competitor_pr_avg_html(&mut competitor, Event::Ev333, &page()), Ok(()));
    assert_eq!(retrieve_competitor_pr_avg_html(&mut competitor, Event::Ev222, &page()), Ok(()));
    assert_eq!(
        retrieve_competitor_pr_avg_html(&mut competitor, Event::EvMinx, &page()),
        Err(WCOError::MalformedTime("DNF".to_string()))
    );
    assert_eq!(competitor.record(Event::Ev333), Some(Duration::from_centis(853)));
    assert_eq!(competitor.record(Event::Ev222), None);
    assert_eq!(competitor.record(Event::EvMinx), None);
}

#[test]
fn made_up_times_lie_in_their_range() {
    assert_eq!(SYNTHETIC_LOWEST, 700);
    assert_eq!(SYNTHETIC_BOUND, 4000);
    let mut seen_different = false;
    let first = draw_time();
    for _ in 0..2000 {
        let time = draw_time();
        assert!(time.as_secs() >= 7 && time.as_secs() < 40, "{:?}", time);
        assert!(time.subsec_centis() < 100);
        seen_different = seen_different || time != first;
    }
    assert!(seen_different);
}

#[test]
fn made_up_record_for_a_competitor_with_profile() {
    let mut competitor = returner(&[Event::Ev333, Event::Ev222]);
    set_random_competitor_pr(&mut competitor, Event::Ev333);
    let time = competitor.record(Event::Ev333).unwrap();
    assert!(Duration::from_centis(700).le(&time));
    assert!(time < Duration::from_centis(4000));
    assert_eq!(competitor.record(Event::Ev222), None);
    set_random_competitor_pr(&mut competitor, Event::Ev444);
    assert_eq!(competitor.record(Event::Ev444), None);
}

#[test]
fn store_found_keeps_nothing_without_profile_or_record() {
    let mut competitor = newcomer(&[Event::Ev333]);
    assert!(!store_found(&mut competitor, Event::Ev333, Some(Duration::from_centis(853))));
    assert_eq!(competitor.record(Event::Ev333), None);
    let mut competitor = returner(&[Event::Ev333]);
    assert!(!store_found(&mut competitor, Event::Ev333, None));
    assert!(!store_found(&mut competitor, Event::Ev222, Some(Duration::from_centis(853))));
    assert!(store_found(&mut competitor, Event::Ev333, Some(Duration::from_centis(853))));
    assert_eq!(competitor.record(Event::Ev333), Some(Duration::from_centis(853)));
}

#[test]
fn no_source_gives_a_record_to_a_competitor_without_profile() {
    let sources = [
        RecordSource::RemoteJson(vec![Ok(person())]),
        RecordSource::RemoteJson(vec![Err("unreachable".to_string())]),
        RecordSource::RemoteJson(vec![]),
        RecordSource::RemoteHtml(vec![Ok(page())]),
        RecordSource::RemoteHtml(vec![Err("unreachable".to_string())]),
        RecordSource::Synthetic,
    ];
    for source in sources.iter() {
        let mut competitor = newcomer(&ALL_EVENTS);
        for event in ALL_EVENTS {
            assert_eq!(source.fetch(0, &competitor, event), Ok(None));
        }
        for event in ALL_EVENTS {
            retrieve_competitor_pr(&mut competitor, event, &person());
            assert_eq!(retrieve_competitor_pr_avg_html(&mut competitor, event, &page()), Ok(()));
            set_random_competitor_pr(&mut competitor, event);
        }
        for event in ALL_EVENTS {
            assert_eq!(competitor.record(event), None);
        }
    }
}

#[test]
fn fetch_from_each_source() {
    let competitor = returner(&[Event::Ev333]);
    let json = RecordSource::RemoteJson(vec![Err("timed out".to_string()), Ok(person())]);
    assert_eq!(json.fetch(1, &competitor, Event::Ev333), Ok(Some(Duration::from_centis(853))));
    assert_eq!(json.fetch(1, &competitor, Event::Ev777), Ok(None));
    assert_eq!(json.fetch(0, &competitor, Event::Ev333), Err(WCOError::Retrieval("timed out".to_string())));
    assert_eq!(
        json.fetch(2, &competitor, Event::Ev333),
        Err(WCOError::Retrieval("no answer was fetched for this competitor".to_string()))
    );
    let html = RecordSource::RemoteHtml(vec![Ok(page()), Err("404".to_string())]);
    assert_eq!(html.fetch(0, &competitor, Event::Ev333bf), Ok(Some(Duration::from_centis(7512))));
    assert_eq!(html.fetch(0, &competitor, Event::Ev777), Ok(None));
    assert_eq!(html.fetch(0, &competitor, Event::EvMinx), Err(WCOError::MalformedTime("DNF".to_string())));
    assert_eq!(html.fetch(1, &competitor, Event::Ev333), Err(WCOError::Retrieval("404".to_string())));
    assert_eq!(
        html.fetch(usize::MAX, &competitor, Event::Ev333),
        Err(WCOError::Retrieval("no answer was fetched for this competitor".to_string()))
    );
    let time = RecordSource::Synthetic.fetch(9, &competitor, Event::Ev555).unwrap().unwrap();
    assert!(time.as_secs() >= 7 && time.as_secs() < 40);
}

#[test]
fn source_by_name() {
    assert_eq!(Source::from_str("wcawebsite"), Ok(Source::WCAwebsite));
    assert_eq!(Source::from_str("WCAwebsite"), Ok(Source::WCAwebsite));
    assert_eq!(Source::from_str("UnofficialAPI"), Ok(Source::UnofficialAPI));
    assert_eq!(Source::from_str("UNOFFICIALAPI"), Ok(Source::UnofficialAPI));
    assert_eq!(Source::from_str("debug"), Ok(Source::Debug));
    assert_eq!(Source::from_str("Debug"), Ok(Source::Debug));
}

#[test]
fn source_by_an_unknown_name_is_refused() {
    for name in ["", "web", "debug ", "debu", "debugg", "wca website", "dEbüg", "\u{212a}", "DEBUſ"] {
        assert_eq!(Source::from_str(name), Err(WCOError::UnknownSource(name.to_string())), "{:?}", name);
    }
}

#[test]
fn address_to_fetch() {
    let known = returner(&[]);
    let unknown = newcomer(&[]);
    assert_eq!(
        Source::UnofficialAPI.resource_url(&known),
        Some(unofficial_api_url("2015DOEJ01"))
    );
    assert_eq!(Source::WCAwebsite.resource_url(&known), Some(wca_profile_url("2015DOEJ01")));
    assert_eq!(Source::Debug.resource_url(&known), None);
    assert_eq!(Source::UnofficialAPI.resource_url(&unknown), None);
    assert_eq!(Source::WCAwebsite.resource_url(&unknown), None);
    assert_eq!(Source::Debug.resource_url(&unknown), None);
}
