//! The distribution of the records of one event over whole seconds.

use vstd::prelude::*;
use vstd::string::*;
use crate::competitor::Competitor;
use crate::duration::Duration;
use crate::event::Event;

verus! {

/// The whole seconds of each of `durations`, what is left of a second cut
/// off.
pub open spec fn whole_seconds(durations: Seq<Duration>) -> Seq<nat> {
    durations.map_values(|time: Duration| time@ / 100)
}

/// How often `value` occurs in `seconds`.
pub open spec fn occurrences(seconds: Seq<nat>, value: int) -> nat
    decreases seconds.len(),
{
    if seconds.len() == 0 {
        0
    } else {
        occurrences(seconds.drop_last(), value) + if seconds.last() == value {
            1nat
        } else {
            0nat
        }
    }
}

/// Whether two of `seconds` lie so far apart that no vector can hold a
/// counter for every second between them.
pub open spec fn too_wide(seconds: Seq<nat>) -> bool {
    exists|i: int, j: int|
        0 <= i < seconds.len() && 0 <= j < seconds.len() && #[trigger] seconds[j]
            - #[trigger] seconds[i] >= usize::MAX
}

/// Counters of times, one for each whole second from the lowest to the
/// highest that was seen.
#[derive(Debug)]
pub struct HistogramBins {
    /// The second that the first counter stands for.
    pub lowest: u64,
    /// The second that the last counter stands for.
    pub highest: u64,
    /// The counters, from `lowest` to `highest`.
    pub counts: Vec<u64>,
}

impl HistogramBins {
    /// Whether these are the counters of `seconds`: they reach from the least
    /// to the greatest of them, or hold the one second 0 where there are
    /// none, and each counter says how often its second occurs.
    pub open spec fn counts_of(self, seconds: Seq<nat>) -> bool {
        &&& self.counts@.len() == self.highest - self.lowest + 1
        &&& seconds.len() == 0 ==> self.lowest == 0 && self.highest == 0
        &&& seconds.len() > 0 ==> seconds.contains(self.lowest as nat) && seconds.contains(
            self.highest as nat,
        )
        &&& forall|i: int|
            0 <= i < seconds.len() ==> self.lowest <= #[trigger] seconds[i] <= self.highest
        &&& forall|k: int|
            0 <= k < self.counts@.len() ==> #[trigger] self.counts@[k] == occurrences(
                seconds,
                self.lowest + k,
            )
    }

    /// The greatest of the counters.
    pub fn max_count(&self) -> (most: u64)
        ensures
            forall|k: int| 0 <= k < self.counts@.len() ==> self.counts@[k] <= most,
            self.counts@.len() > 0 ==> self.counts@.contains(most),
            self.counts@.len() == 0 ==> most == 0,
    {
        let mut most: u64 = 0;
        let mut k: usize = 0;
        while k < self.counts.len()
            invariant
                k <= self.counts.len(),
                forall|q: int| 0 <= q < k ==> self.counts@[q] <= most,
                k > 0 ==> self.counts@.contains(most),
                k == 0 ==> most == 0,
            decreases self.counts.len() - k,
        {
            if k == 0 || self.counts[k] > most {
                most = self.counts[k];
            }
            k += 1;
        }
        most
    }
}

/// A value occurs in a sequence at most as often as the sequence is long.
proof fn lemma_occurrences_bound(seconds: Seq<nat>, value: int)
    ensures
        occurrences(seconds, value) <= seconds.len(),
    decreases seconds.len(),
{
    if seconds.len() > 0 {
        lemma_occurrences_bound(seconds.drop_last(), value);
    }
}

/// Counts `durations` by their whole seconds. Without any, the result is
/// the one counter of second 0, at zero. There is no result where two of the
/// times lie `usize::MAX` seconds or more apart.
pub fn bin(durations: &Vec<Duration>) -> (bins: Option<HistogramBins>)
    ensures
        match bins {
            Some(bins) => bins.counts_of(whole_seconds(durations@)) && !too_wide(
                whole_seconds(durations@),
            ),
            None => too_wide(whole_seconds(durations@)),
        },
{
    let ghost seconds = whole_seconds(durations@);
    let total = durations.len();
    let mut lowest: u64 = 0;
    let mut highest: u64 = 0;
    let mut i: usize = 0;
    while i < total
        invariant
            i <= total == durations.len(),
            seconds == whole_seconds(durations@),
            i == 0 ==> lowest == 0 && highest == 0,
            i > 0 ==> seconds.take(i as int).contains(lowest as nat) && seconds.take(
                i as int,
            ).contains(highest as nat),
            forall|k: int| 0 <= k < i ==> lowest <= #[trigger] seconds[k] <= highest,
        decreases total - i,
    {
        let secs = durations[i].as_secs();
        let ghost before = seconds.take(i as int);
        let ghost after = seconds.take(i + 1);
        assert(seconds[i as int] == secs);
        assert(after[i as int] == secs);
        proof {
            if i > 0 {
                let a = choose|a: int| 0 <= a < before.len() && before[a] == lowest as nat;
                assert(after[a] == lowest as nat);
                let b = choose|b: int| 0 <= b < before.len() && before[b] == highest as nat;
                assert(after[b] == highest as nat);
            }
        }
        if i == 0 || secs < lowest {
            lowest = secs;
        }
        if i == 0 || secs > highest {
            highest = secs;
        }
        i += 1;
    }
    assert(seconds.take(total as int) =~= seconds);
    if highest - lowest >= usize::MAX as u64 {
        proof {
            let a = choose|a: int| 0 <= a < seconds.len() && seconds[a] == lowest as nat;
            let b = choose|b: int| 0 <= b < seconds.len() && seconds[b] == highest as nat;
            assert(seconds[b] - seconds[a] >= usize::MAX);
        }
        return None;
    }
    let span: usize = (highest - lowest) as usize + 1;
    let mut counts: Vec<u64> = Vec::new();
    while counts.len() < span
        invariant
            counts.len() <= span,
            forall|k: int| 0 <= k < counts.len() ==> counts[k] == 0,
        decreases span - counts.len(),
    {
        counts.push(0);
    }
    let mut i: usize = 0;
    assert(seconds.take(0) =~= Seq::<nat>::empty());
    while i < total
        invariant
            i <= total == durations.len(),
            seconds == whole_seconds(durations@),
            counts.len() == span == highest - lowest + 1,
            forall|k: int| 0 <= k < seconds.len() ==> lowest <= #[trigger] seconds[k] <= highest,
            forall|k: int|
                0 <= k < counts.len() ==> #[trigger] counts[k] == occurrences(
                    seconds.take(i as int),
                    lowest + k,
                ),
        decreases total - i,
    {
        let secs = durations[i].as_secs();
        assert(seconds[i as int] == secs);
        let at: usize = (secs - lowest) as usize;
        proof {
            lemma_occurrences_bound(seconds.take(i as int), lowest + at);
            assert(seconds.take(i + 1).drop_last() =~= seconds.take(i as int));
        }
        let raised: u64 = counts[at] + 1;
        counts[at] = raised;
        i += 1;
    }
    assert(seconds.take(total as int) =~= seconds);
    let bins = HistogramBins { lowest, highest, counts };
    proof {
        assert forall|a: int, b: int|
            0 <= a < seconds.len() && 0 <= b < seconds.len() implies #[trigger] seconds[b]
            - #[trigger] seconds[a] < usize::MAX by {}
    }
    Some(bins)
}

/// The records of `event` among `competitors`, in hundredths of a second and
/// in the order of the roster.
pub open spec fn records_of(competitors: Seq<Competitor>, event: Event) -> Seq<nat>
    decreases competitors.len(),
{
    if competitors.len() == 0 {
        Seq::empty()
    } else {
        let before = records_of(competitors.drop_last(), event);
        match competitors.last()@.records.get(event) {
            Some(centis) => before.push(centis),
            None => before,
        }
    }
}

/// The records of `event` that are known of `competitors`, in the order of
/// the roster.
pub fn record_times(competitors: &Vec<Competitor>, event: Event) -> (times: Vec<Duration>)
    ensures
        times@.map_values(|time: Duration| time@) == records_of(competitors@, event),
{
    let mut times: Vec<Duration> = Vec::new();
    let mut i: usize = 0;
    assert(competitors@.take(0) =~= Seq::<Competitor>::empty());
    while i < competitors.len()
        invariant
            i <= competitors.len(),
            times@.map_values(|time: Duration| time@) == records_of(
                competitors@.take(i as int),
                event,
            ),
        decreases competitors.len() - i,
    {
        let ghost before = times@;
        assert(competitors@.take(i + 1).drop_last() =~= competitors@.take(i as int));
        match competitors[i].record(event) {
            Some(time) => {
                times.push(time);
                assert(times@.map_values(|time: Duration| time@) =~= before.map_values(
                    |time: Duration| time@,
                ).push(time@));
            },
            None => {},
        }
        i += 1;
    }
    assert(competitors@.take(competitors.len() as int) =~= competitors@);
    times
}

/// What a histogram of the records of one event shows.
#[derive(Debug)]
pub struct PlotData {
    /// The counters of the records by whole seconds.
    pub bins: HistogramBins,
    /// The greatest of the counters.
    pub max_count: u64,
    /// The heading of the plot.
    pub title: String,
    /// The description of the horizontal axis.
    pub x_desc: String,
    /// The description of the vertical axis.
    pub y_desc: String,
}

/// The heading of the histogram of `event`.
pub open spec fn plot_title(event: Event) -> Seq<char> {
    event.spec_pretty_name() + " PR "@ + if event.spec_use_average() {
        "Average"@
    } else {
        "Single"@
    } + " Histogram"@
}

/// Gathers what the histogram of the records of `event` among `competitors`
/// shows: the counters of the records by whole seconds, the greatest
/// counter, the heading and the descriptions of the axes. There is no result
/// where two records lie `usize::MAX` seconds or more apart.
pub fn generate_plot_data(competitors: &Vec<Competitor>, event: &Event) -> (data: Option<
    PlotData,
>)
    ensures
        match data {
            Some(data) => {
                &&& data.bins.counts_of(
                    whole_seconds_of_centis(records_of(competitors@, *event)),
                )
                &&& data.bins.counts@.contains(data.max_count)
                &&& forall|k: int|
                    0 <= k < data.bins.counts@.len() ==> data.bins.counts@[k] <= data.max_count
                &&& data.title@ == plot_title(*event)
                &&& data.x_desc@ == "Solve time [s]"@
                &&& data.y_desc@ == "Count"@
            },
            None => too_wide(whole_seconds_of_centis(records_of(competitors@, *event))),
        },
{
    let times = record_times(competitors, *event);
    assert(whole_seconds(times@) =~= whole_seconds_of_centis(records_of(competitors@, *event)));
    match bin(&times) {
        None => None,
        Some(bins) => {
            let max_count = bins.max_count();
            let mut title = String::from_str(event.pretty_name());
            title.append(" PR ");
            if event.use_average() {
                title.append("Average");
            } else {
                title.append("Single");
            }
            title.append(" Histogram");
            Some(
                PlotData {
                    bins,
                    max_count,
                    title,
                    x_desc: String::from_str("Solve time [s]"),
                    y_desc: String::from_str("Count"),
                },
            )
        },
    }
}

/// The whole seconds of times given in hundredths of a second.
pub open spec fn whole_seconds_of_centis(centis: Seq<nat>) -> Seq<nat> {
    centis.map_values(|time: nat| time / 100)
}

} // verus!
