use wca_overview::aggregator::{record_outcome, run, Failure};
use wca_overview::competitor::Competitor;
use wca_overview::duration::{format_time, Duration};
use wca_overview::event::Event;
use wca_overview::folder::{create_foldername, folder_name_at, keep_alphanumeric, Timestamp};
use wca_overview::histogram::{bin, record_times};
use wca_overview::html_source::{Anchor, ProfilePage};
use wca_overview::json_source::{Person, Rank, PR};
use wca_overview::overview::{
    count_participants, count_records, count_returners, has_participants, offered_events,
    sort_events, summarize, EventSummary,
};
use wca_overview::ranking::rank_for_event;
use wca_overview::roster::{parse_competitors, RosterPage, RosterRow};
use wca_overview::source::RecordSource;
use wca_overview::wcoerror::WCOError;

fn row(name: &str, link: Option<&str>, marks: &[&str]) -> RosterRow {
    RosterRow {
        name: name.to_string(),
        profile_link: link.map(|target| target.to_string()),
        event_marks: marks.iter().map(|mark| mark.to_string()).collect(),
    }
}

fn person(averages: &[(&str, u32)], singles: &[(&str, u32)]) -> Person {
    let list = |entries: &[(&str, u32)]| -> Vec<PR> {
        entries.iter().map(|(event_id, best)| PR { best: *best, event_id: event_id.to_string() }).collect()
    };
    Person { rank: Rank { averages: list(averages), singles: list(singles) } }
}

fn three_competitors() -> Vec<Competitor> {
    let page = RosterPage {
        titles: vec!["Open".to_string()],
        rows: vec![
            row("No Profile", None, &["event-333"]),
            row("No Record", Some("/persons/2019NORE01"), &["event-333"]),
            row("Record Holder", Some("/persons/2015HOLD01"), &["event-333", "event-333bf"]),
        ],
    };
    parse_competitors(&page).unwrap()
}

#[test]
fn end_to_end_with_a_stub_in_place_of_the_source() {
    let source = RecordSource::RemoteJson(vec![
        Ok(person(&[("333", 999)], &[])),
        Ok(person(&[], &[])),
        Ok(person(&[("333", 853)], &[("333", 701)])),
    ]);
    let dataset = run(three_competitors(), &source);
    assert!(dataset.failures.is_empty());
    assert_eq!(dataset.competitors.len(), 3);
    let ranking = rank_for_event(&dataset.competitors, Event::Ev333);
    let names: Vec<&str> = ranking.order.iter().map(|place| dataset.competitors[*place].name()).collect();
    assert_eq!(names, vec!["Record Holder", "No Record", "No Profile"]);
    assert_eq!((ranking.with_record, ranking.without_record, ranking.without_profile), (1, 1, 1));
    let record = dataset.competitors[2].record(Event::Ev333).unwrap();
    assert_eq!(format_time(&record), "8.53");
    let bins = bin(&record_times(&dataset.competitors, Event::Ev333)).unwrap();
    assert_eq!(bins.lowest, 8);
    assert_eq!(bins.highest, 8);
    assert_eq!(bins.counts, vec![1]);
}

#[test]
fn run_keeps_failures_and_goes_on() {
    let page = |text: &str| ProfilePage {
        anchors: vec![
            Anchor { href: "/results/rankings/333/average".to_string(), text: text.to_string() },
            Anchor { href: "/results/rankings/333bf/single".to_string(), text: "1:15.12".to_string() },
        ],
    };
    let source = RecordSource::RemoteHtml(vec![
        Err("never asked".to_string()),
        Err("timed out".to_string()),
        Ok(page("DNF")),
    ]);
    let dataset = run(three_competitors(), &source);
    assert_eq!(dataset.competitors.len(), 3);
    assert_eq!(dataset.failures.len(), 2);
    let Failure { competitor, event, error } = &dataset.failures[0];
    assert_eq!((*competitor, *event), (1, Event::Ev333));
    assert_eq!(*error, WCOError::Retrieval("timed out".to_string()));
    let Failure { competitor, event, error } = &dataset.failures[1];
    assert_eq!((*competitor, *event), (2, Event::Ev333));
    assert_eq!(*error, WCOError::MalformedTime("DNF".to_string()));
    assert_eq!(dataset.competitors[2].record(Event::Ev333), None);
    assert_eq!(dataset.competitors[2].record(Event::Ev333bf), Some(Duration::from_centis(7512)));
    assert_eq!(dataset.competitors[0].record(Event::Ev333), None);
    assert_eq!(dataset.competitors[0].name(), "No Profile");
    assert_eq!(dataset.competitors[1].name(), "No Record");
    assert_eq!(dataset.competitors[2].name(), "Record Holder");
    assert_eq!(dataset.competitors[2].wca_id(), Some("2015HOLD01"));
    assert_eq!(dataset.competitors[2].events(), &vec![Event::Ev333, Event::Ev333bf]);
}

#[test]
fn run_with_answers_missing() {
    let dataset = run(three_competitors(), &RecordSource::RemoteJson(vec![]));
    assert_eq!(dataset.failures.len(), 3);
    let places: Vec<(usize, Event)> =
        dataset.failures.iter().map(|failure| (failure.competitor, failure.event)).collect();
    assert_eq!(places, vec![(1, Event::Ev333), (2, Event::Ev333), (2, Event::Ev333bf)]);
    for failure in dataset.failures.iter() {
        assert_eq!(
            failure.error,
            WCOError::Retrieval("no answer was fetched for this competitor".to_string())
        );
    }
}

#[test]
fn run_with_made_up_records() {
    let dataset = run(three_competitors(), &RecordSource::Synthetic);
    assert!(dataset.failures.is_empty());
    assert_eq!(dataset.competitors[0].record(Event::Ev333), None);
    for (place, event) in [(1, Event::Ev333), (2, Event::Ev333), (2, Event::Ev333bf)] {
        let time = dataset.competitors[place].record(event).unwrap();
        assert!(time.as_secs() >= 7 && time.as_secs() < 40);
    }
    assert_eq!(dataset.competitors[1].record(Event::Ev333bf), None);
    let ranking = rank_for_event(&dataset.competitors, Event::Ev333);
    assert_eq!(ranking.order.len(), 3);
    assert_eq!(ranking.order[2], 0);
    assert_eq!((ranking.with_record, ranking.without_record, ranking.without_profile), (2, 0, 1));
}

#[test]
fn run_on_an_empty_roster() {
    let dataset = run(vec![], &RecordSource::Synthetic);
    assert!(dataset.competitors.is_empty());
    assert!(dataset.failures.is_empty());
}

#[test]
fn outcome_of_one_lookup() {
    let mut competitors = three_competitors();
    let mut failures = Vec::new();
    let time = Duration::from_centis(853);
    record_outcome(&mut competitors[2], &mut failures, 2, Event::Ev333, Ok(Some(time)));
    record_outcome(&mut competitors[2], &mut failures, 2, Event::Ev333bf, Ok(None));
    record_outcome(&mut competitors[0], &mut failures, 0, Event::Ev333, Ok(Some(time)));
    record_outcome(&mut competitors[1], &mut failures, 1, Event::Ev222, Ok(Some(time)));
    assert!(failures.is_empty());
    assert_eq!(competitors[2].record(Event::Ev333), Some(time));
    assert_eq!(competitors[2].record(Event::Ev333bf), None);
    assert_eq!(competitors[0].record(Event::Ev333), None);
    assert_eq!(competitors[1].record(Event::Ev222), None);
    record_outcome(
        &mut competitors[1],
        &mut failures,
        1,
        Event::Ev333,
        Err(WCOError::Retrieval("timed out".to_string())),
    );
    assert_eq!(failures.len(), 1);
    assert_eq!(failures[0].competitor, 1);
    assert_eq!(failures[0].event, Event::Ev333);
    assert_eq!(failures[0].error, WCOError::Retrieval("timed out".to_string()));
    assert_eq!(competitors[1].record(Event::Ev333), None);
}

#[test]
fn figures_of_the_overview() {
    let source = RecordSource::RemoteJson(vec![
        Ok(person(&[], &[])),
        Ok(person(&[], &[])),
        Ok(person(&[("333", 853)], &[("333bf", 7512)])),
    ]);
    let dataset = run(three_competitors(), &source);
    assert_eq!(count_returners(&dataset.competitors), 2);
    assert_eq!(count_participants(&dataset.competitors, Event::Ev333), 3);
    assert_eq!(count_participants(&dataset.competitors, Event::Ev333bf), 1);
    assert_eq!(count_participants(&dataset.competitors, Event::Ev222), 0);
    assert_eq!(count_records(&dataset.competitors, Event::Ev333), 1);
    assert_eq!(count_records(&dataset.competitors, Event::Ev222), 0);
    let overview = summarize(&vec![Event::Ev333bf, Event::Ev222, Event::Ev333], &dataset.competitors);
    assert_eq!(overview.competitor_count, 3);
    assert_eq!(overview.event_count, 3);
    assert_eq!(overview.returner_count, 2);
    assert_eq!(overview.newcomer_count, 1);
    assert_eq!(
        overview.events,
        vec![
            EventSummary { event: Event::Ev333, participants: 3, records: 1 },
            EventSummary { event: Event::Ev222, participants: 0, records: 0 },
            EventSummary { event: Event::Ev333bf, participants: 1, records: 1 },
        ]
    );
}

#[test]
fn events_that_a_competition_offers() {
    let competitors = three_competitors();
    assert_eq!(offered_events(&competitors), vec![Event::Ev333, Event::Ev333bf]);
    assert!(has_participants(&competitors, Event::Ev333bf));
    assert!(!has_participants(&competitors, Event::Ev222));
    assert_eq!(offered_events(&vec![]), vec![]);
    let everything = vec![Competitor::new(
        "x".to_string(),
        None,
        vec![Event::Ev333mbf, Event::EvSq1, Event::Ev333, Event::EvSq1],
    )];
    assert_eq!(offered_events(&everything), vec![Event::Ev333, Event::EvSq1, Event::Ev333mbf]);
}

#[test]
fn events_in_the_order_of_the_catalog() {
    let events = vec![Event::Ev333mbf, Event::EvClock, Event::Ev333, Event::EvClock, Event::Ev222];
    assert_eq!(
        sort_events(&events),
        vec![Event::Ev333, Event::Ev222, Event::EvClock, Event::EvClock, Event::Ev333mbf]
    );
    let mut by_order = events.clone();
    by_order.sort();
    assert_eq!(sort_events(&events), by_order);
    assert_eq!(sort_events(&vec![]), vec![]);
}

#[test]
fn folder_names() {
    let now = Timestamp { year: 2024, month: 3, day: 7, hour: 9, minute: 5 };
    assert_eq!(
        folder_name_at("Dresden Open 2024!", &now, false),
        "DresdenOpen2024-2024_03_07__09_05"
    );
    assert_eq!(
        folder_name_at("Dresden Open 2024!", &now, true),
        "DresdenOpen2024-2024_03_07__09_05_DEBUG"
    );
    let now = Timestamp { year: -44, month: 12, day: 31, hour: 23, minute: 59 };
    assert_eq!(folder_name_at("Ünïcode Ωpen №5 ½", &now, false), "ÜnïcodeΩpen5½--44_12_31__23_59");
    assert_eq!(folder_name_at("", &now, true), "--44_12_31__23_59_DEBUG");
    let now = Timestamp { year: i32::MIN, month: 0, day: 100, hour: 0, minute: 7 };
    assert_eq!(folder_name_at("a/b", &now, false), "ab--2147483648_00_100__00_07");
}

#[test]
fn folder_name_of_now() {
    let name = create_foldername("Dresden Open 2024!", true);
    let parts: Vec<&str> = name.split(['-', '_']).collect();
    assert_eq!(parts.len(), 8, "{}", name);
    assert_eq!(parts[0], "DresdenOpen2024");
    assert!(parts[1].parse::<i32>().unwrap() >= 2024);
    let month = parts[2].parse::<u32>().unwrap();
    let day = parts[3].parse::<u32>().unwrap();
    assert_eq!(parts[4], "");
    let hour = parts[5].parse::<u32>().unwrap();
    let minute = parts[6].parse::<u32>().unwrap();
    assert!((1..=12).contains(&month) && (1..=31).contains(&day) && hour < 24 && minute < 60);
    for part in &parts[2..7] {
        assert!(part.is_empty() || part.len() == 2);
    }
    assert_eq!(parts[7], "DEBUG");
    assert!(!create_foldername("x", false).ends_with("_DEBUG"));
}

#[test]
fn letters_and_numbers_of_a_name() {
    assert_eq!(keep_alphanumeric("Cube-Days: Köln '24 (2nd)"), "CubeDaysKöln242nd");
    assert_eq!(keep_alphanumeric(" \t-_./\\"), "");
    for text in ["日本 Open ①", "x² + y²", "a_b", "٣٤", "🙂ok"] {
        let kept: String = text.chars().filter(|c| c.is_alphanumeric()).collect();
        assert_eq!(keep_alphanumeric(text), kept);
    }
}
