use wca_overview::competitor::Competitor;
use wca_overview::duration::Duration;
use wca_overview::event::Event;
use wca_overview::histogram::{bin, generate_plot_data, record_times};

fn times(centis: &[u64]) -> Vec<Duration> {
    centis.iter().map(|c| Duration::from_centis(*c)).collect()
}

fn competitor(id: Option<&str>, records: &[(Event, u64)]) -> Competitor {
    let events: Vec<Event> = records.iter().map(|(event, _)| *event).collect();
    let mut competitor = Competitor::new("x".to_string(), id.map(|id| id.to_string()), events);
    for (event, centis) in records {
        if *centis > 0 {
            competitor.set_record(*event, Duration::from_centis(*centis));
        }
    }
    competitor
}

#[test]
fn bins_of_nothing() {
    let bins = bin(&vec![]).unwrap();
    assert_eq!(bins.lowest, 0);
    assert_eq!(bins.highest, 0);
    assert_eq!(bins.counts, vec![0]);
    assert_eq!(bins.max_count(), 0);
}

#[test]
fn bins_of_seven_seven_nine() {
    let bins = bin(&times(&[700, 700, 900])).unwrap();
    assert_eq!(bins.lowest, 7);
    assert_eq!(bins.highest, 9);
    assert_eq!(bins.counts, vec![2, 0, 1]);
    assert_eq!(bins.max_count(), 2);
}

#[test]
fn bins_cut_hundredths_off() {
    let bins = bin(&times(&[799, 700, 800, 1099, 1000, 999])).unwrap();
    assert_eq!(bins.lowest, 7);
    assert_eq!(bins.highest, 10);
    assert_eq!(bins.counts, vec![2, 1, 1, 2]);
}

#[test]
fn bins_of_one_time() {
    let bins = bin(&times(&[853])).unwrap();
    assert_eq!((bins.lowest, bins.highest), (8, 8));
    assert_eq!(bins.counts, vec![1]);
    let bins = bin(&times(&[0])).unwrap();
    assert_eq!((bins.lowest, bins.highest), (0, 0));
    assert_eq!(bins.counts, vec![1]);
}

#[test]
fn bins_in_any_order_of_the_times() {
    let bins = bin(&times(&[900, 700, 6203, 700])).unwrap();
    assert_eq!((bins.lowest, bins.highest), (7, 62));
    assert_eq!(bins.counts.len(), 56);
    assert_eq!(bins.counts[0], 2);
    assert_eq!(bins.counts[2], 1);
    assert_eq!(bins.counts[55], 1);
    assert_eq!(bins.counts.iter().sum::<u64>(), 4);
}

#[test]
fn records_of_an_event_in_the_order_of_the_roster() {
    let roster = vec![
        competitor(Some("2010AAAA01"), &[(Event::Ev333, 900), (Event::Ev222, 300)]),
        competitor(None, &[(Event::Ev333, 0)]),
        competitor(Some("2010BBBB01"), &[(Event::Ev333, 700)]),
        competitor(Some("2010CCCC01"), &[(Event::Ev222, 450)]),
    ];
    assert_eq!(record_times(&roster, Event::Ev333), times(&[900, 700]));
    assert_eq!(record_times(&roster, Event::Ev222), times(&[300, 450]));
    assert_eq!(record_times(&roster, Event::Ev444), times(&[]));
}

#[test]
fn plot_data_of_an_event() {
    let roster = vec![
        competitor(Some("2010AAAA01"), &[(Event::Ev333, 900), (Event::Ev333bf, 6203)]),
        competitor(Some("2010BBBB01"), &[(Event::Ev333, 700)]),
        competitor(Some("2010CCCC01"), &[(Event::Ev333, 799)]),
    ];
    let data = generate_plot_data(&roster, &Event::Ev333).unwrap();
    assert_eq!(data.bins.lowest, 7);
    assert_eq!(data.bins.highest, 9);
    assert_eq!(data.bins.counts, vec![2, 0, 1]);
    assert_eq!(data.max_count, 2);
    assert_eq!(data.title, "3x3x3 Cube PR Average Histogram");
    assert_eq!(data.x_desc, "Solve time [s]");
    assert_eq!(data.y_desc, "Count");
    let data = generate_plot_data(&roster, &Event::Ev333bf).unwrap();
    assert_eq!(data.bins.counts, vec![1]);
    assert_eq!(data.title, "3x3x3 Blindfolded PR Single Histogram");
    let data = generate_plot_data(&roster, &Event::EvClock).unwrap();
    assert_eq!((data.bins.lowest, data.bins.highest, data.max_count), (0, 0, 0));
    assert_eq!(data.bins.counts, vec![0]);
    assert_eq!(data.title, "Clock PR Average Histogram");
}
