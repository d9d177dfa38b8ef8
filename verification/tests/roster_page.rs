use wca_overview::event::Event;
use wca_overview::roster::{
    extract_events, get_competition_title, parse_competitors, parse_row, parse_wca_id, RosterPage,
    RosterRow,
};
use wca_overview::wcoerror::WCOError;

fn strings(texts: &[&str]) -> Vec<String> {
    texts.iter().map(|text| text.to_string()).collect()
}

fn row(name: &str, link: Option<&str>, marks: &[&str]) -> RosterRow {
    RosterRow {
        name: name.to_string(),
        profile_link: link.map(|target| target.to_string()),
        event_marks: strings(marks),
    }
}

#[test]
fn title_of_a_page_with_one_heading() {
    let page = RosterPage { titles: strings(&["\n  Dresden Open 2024  \n"]), rows: vec![] };
    assert_eq!(get_competition_title(&page), Ok("Dresden Open 2024".to_string()));
}

#[test]
fn title_of_a_page_without_heading_is_refused() {
    let page = RosterPage { titles: vec![], rows: vec![] };
    assert_eq!(get_competition_title(&page), Err(WCOError::StructuralParse(0)));
}

#[test]
fn title_of_a_page_with_several_headings_is_refused() {
    let page = RosterPage { titles: strings(&["Dresden Open 2024", "Schedule"]), rows: vec![] };
    assert_eq!(get_competition_title(&page), Err(WCOError::StructuralParse(2)));
    let page = RosterPage { titles: strings(&["A", "A", "A"]), rows: vec![] };
    assert_eq!(get_competition_title(&page), Err(WCOError::StructuralParse(3)));
}

#[test]
fn identifier_of_a_profile_link() {
    assert_eq!(parse_wca_id("/persons/2015ABCD01"), Some("2015ABCD01".to_string()));
    assert_eq!(
        parse_wca_id("https://www.worldcubeassociation.org/persons/2009ZEMD01?tab=records"),
        Some("2009ZEMD01".to_string())
    );
    assert_eq!(parse_wca_id("/persons/2015ABCD012"), Some("2015ABCD01".to_string()));
    assert_eq!(
        parse_wca_id("/persons/x/persons/2015ABCD01/persons/2016EFGH02"),
        Some("2015ABCD01".to_string())
    );
}

#[test]
fn links_that_hold_no_identifier() {
    for link in ["", "/persons/", "/persons/2015abcd01", "/persons/2015ABCD0", "/person/2015ABCD01", "/persons/215ABCD01", "2015ABCD01", "/persons/２０１５ABCD01"] {
        assert_eq!(parse_wca_id(link), None, "{:?}", link);
    }
}

#[test]
fn events_of_the_icons() {
    let marks = strings(&["cubing-icon", "event-333", "cubing-icon", "event-clock", "icon", "event-333mbf"]);
    assert_eq!(extract_events(&marks), Ok(vec![Event::Ev333, Event::EvClock, Event::Ev333mbf]));
    assert_eq!(extract_events(&vec![]), Ok(vec![]));
    assert_eq!(extract_events(&strings(&["cubing-icon", "event-", "event"])), Ok(vec![]));
}

#[test]
fn events_are_kept_as_often_as_they_are_marked() {
    let marks = strings(&["event-222", "event-333", "event-222"]);
    assert_eq!(extract_events(&marks), Ok(vec![Event::Ev222, Event::Ev333, Event::Ev222]));
}

#[test]
fn an_icon_of_an_unknown_event_is_refused() {
    let marks = strings(&["event-333", "event-magic", "event-mmagic"]);
    assert_eq!(extract_events(&marks), Err(WCOError::UnknownEvent("magic".to_string())));
    let marks = strings(&["event-333 "]);
    assert_eq!(extract_events(&marks), Err(WCOError::UnknownEvent("333 ".to_string())));
    let marks = strings(&["my-event-event-333"]);
    assert_eq!(extract_events(&marks), Err(WCOError::UnknownEvent("event-333".to_string())));
}

#[test]
fn competitor_of_a_row() {
    let competitor = parse_row(&row(
        "\n   Jane Doe\n ",
        Some("/persons/2015DOEJ01"),
        &["cubing-icon", "event-333", "cubing-icon", "event-333oh"],
    ))
    .unwrap();
    assert_eq!(competitor.name(), "Jane Doe");
    assert_eq!(competitor.wca_id(), Some("2015DOEJ01"));
    assert!(competitor.has_profile());
    assert_eq!(competitor.events(), &vec![Event::Ev333, Event::Ev333oh]);
    assert!(competitor.is_registered(Event::Ev333oh));
    assert!(!competitor.is_registered(Event::Ev222));
    assert_eq!(competitor.record(Event::Ev333), None);
}

#[test]
fn competitor_is_registered_once_for_an_event_marked_twice() {
    let competitor = parse_row(&row(
        "Jane Doe",
        None,
        &["event-222", "event-333", "event-222", "event-333", "event-clock"],
    ))
    .unwrap();
    assert_eq!(competitor.events(), &vec![Event::Ev222, Event::Ev333, Event::EvClock]);
}

#[test]
fn competitor_without_profile() {
    let competitor = parse_row(&row("New Comer", None, &["event-222"])).unwrap();
    assert_eq!(competitor.wca_id(), None);
    assert!(!competitor.has_profile());
    let competitor = parse_row(&row("Odd Link", Some("/users/17"), &["event-222"])).unwrap();
    assert_eq!(competitor.wca_id(), None);
}

#[test]
fn competitors_in_the_order_of_the_page_with_equal_names_kept() {
    let page = RosterPage {
        titles: strings(&["Open"]),
        rows: vec![
            row("Sam Lee", Some("/persons/2010LEES01"), &["event-333"]),
            row("Ann Roe", None, &["event-333", "event-pyram"]),
            row("Sam Lee", Some("/persons/2012LEES03"), &[]),
        ],
    };
    let competitors = parse_competitors(&page).unwrap();
    assert_eq!(competitors.len(), 3);
    assert_eq!(competitors[0].name(), "Sam Lee");
    assert_eq!(competitors[1].name(), "Ann Roe");
    assert_eq!(competitors[2].name(), "Sam Lee");
    assert_eq!(competitors[0].wca_id(), Some("2010LEES01"));
    assert_eq!(competitors[1].wca_id(), None);
    assert_eq!(competitors[2].wca_id(), Some("2012LEES03"));
    assert_eq!(competitors[1].events(), &vec![Event::Ev333, Event::EvPyram]);
    assert!(competitors[2].events().is_empty());
}

#[test]
fn competitors_of_a_page_with_an_unknown_event_are_refused() {
    let page = RosterPage {
        titles: strings(&["Open"]),
        rows: vec![
            row("Sam Lee", None, &["event-333"]),
            row("Ann Roe", None, &["event-333", "event-hexa"]),
            row("Joe Poe", None, &["event-octa"]),
        ],
    };
    assert_eq!(parse_competitors(&page).err(), Some(WCOError::UnknownEvent("hexa".to_string())));
}

#[test]
fn competitors_of_an_empty_page() {
    let page = RosterPage { titles: vec![], rows: vec![] };
    assert_eq!(parse_competitors(&page).unwrap().len(), 0);
}
