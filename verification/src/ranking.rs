//! The order in which the participants of one event are presented: those
//! with a record from the fastest to the slowest, then those with a profile
//! but no record, then those without a profile.

use vstd::prelude::*;
use crate::competitor::{Competitor, CompetitorView};
use crate::event::Event;

verus! {

/// The group that a participant of an event belongs to.
#[derive(Debug, Clone, Copy, PartialEq, Eq, Hash, Structural)]
pub enum Classification {
    /// Has a profile and a record of the event.
    HasRecord,
    /// Has a profile, but no record of the event.
    NoRecord,
    /// Has no profile.
    NoProfile,
}

impl Classification {
    /// The place of the group in the presentation.
    pub open spec fn place(self) -> int {
        match self {
            Classification::HasRecord => 0,
            Classification::NoRecord => 1,
            Classification::NoProfile => 2,
        }
    }
}

/// The group of `competitor` among the participants of `event`; none where
/// the competitor is not registered for it.
pub open spec fn classification(competitor: CompetitorView, event: Event) -> Option<
    Classification,
> {
    if !competitor.registered(event) {
        None
    } else if !competitor.has_profile() {
        Some(Classification::NoProfile)
    } else if competitor.records.contains_key(event) {
        Some(Classification::HasRecord)
    } else {
        Some(Classification::NoRecord)
    }
}

/// How many of `competitors` are registered for `event`.
pub open spec fn registered_count(competitors: Seq<Competitor>, event: Event) -> nat
    decreases competitors.len(),
{
    if competitors.len() == 0 {
        0
    } else {
        registered_count(competitors.drop_last(), event) + if competitors.last()@.registered(
            event,
        ) {
            1nat
        } else {
            0nat
        }
    }
}

/// How many of `competitors` belong to `group` among the participants of
/// `event`.
pub open spec fn group_count(
    competitors: Seq<Competitor>,
    event: Event,
    group: Classification,
) -> nat
    decreases competitors.len(),
{
    if competitors.len() == 0 {
        0
    } else {
        group_count(competitors.drop_last(), event, group) + if classification(
            competitors.last()@,
            event,
        ) == Some(group) {
            1nat
        } else {
            0nat
        }
    }
}

/// Whether the participant at `first` of the roster is presented before the
/// one at `second`: by group, among those with a record by the faster
/// record, and otherwise by the place in the roster.
pub open spec fn ranks_before(
    competitors: Seq<Competitor>,
    event: Event,
    first: int,
    second: int,
) -> bool {
    let a = competitors[first]@;
    let b = competitors[second]@;
    match (classification(a, event), classification(b, event)) {
        (Some(group_a), Some(group_b)) => {
            ||| group_a.place() < group_b.place()
            ||| group_a == group_b && group_a == Classification::HasRecord && a.records[event]
                < b.records[event]
            ||| group_a == group_b && (group_a == Classification::HasRecord ==> a.records[event]
                == b.records[event]) && first < second
        },
        _ => false,
    }
}

/// The participants of one event in the order of presentation.
#[derive(Debug)]
pub struct Ranking {
    /// The places in the roster of the participants, in the order of
    /// presentation.
    pub order: Vec<usize>,
    /// How many participants have a record; they come first.
    pub with_record: usize,
    /// How many participants have a profile but no record; they come next.
    pub without_record: usize,
    /// How many participants have no profile; they come last.
    pub without_profile: usize,
}

impl Ranking {
    /// The group of the participant at `at` of the presentation.
    pub open spec fn group_at(self, at: int) -> Classification {
        if at < self.with_record {
            Classification::HasRecord
        } else if at < self.with_record + self.without_record {
            Classification::NoRecord
        } else {
            Classification::NoProfile
        }
    }

    /// Whether this is the presentation of the participants of `event` among
    /// `competitors`: it holds each of them once, the three groups one after
    /// the other, and every participant before all that rank after it.
    pub open spec fn ranks(self, competitors: Seq<Competitor>, event: Event) -> bool {
        &&& self.order@.len() == self.with_record + self.without_record + self.without_profile
        &&& self.with_record == group_count(competitors, event, Classification::HasRecord)
        &&& self.without_record == group_count(competitors, event, Classification::NoRecord)
        &&& self.without_profile == group_count(competitors, event, Classification::NoProfile)
        &&& forall|k: int|
            0 <= k < self.order@.len() ==> (#[trigger] self.order@[k]) < competitors.len()
                && classification(competitors[self.order@[k] as int]@, event) == Some(
                self.group_at(k),
            )
        &&& forall|i: int|
            0 <= i < competitors.len() && (#[trigger] competitors[i])@.registered(event)
                ==> self.order@.contains(i as usize)
        &&& forall|a: int, b: int|
            0 <= a < b < self.order@.len() ==> ranks_before(
                competitors,
                event,
                #[trigger] self.order@[a] as int,
                #[trigger] self.order@[b] as int,
            )
    }
}

/// Whether `list` holds, in the order of the roster, the places of those
/// among the first `upto` competitors that belong to `group`.
spec fn is_group_list(
    competitors: Seq<Competitor>,
    event: Event,
    group: Classification,
    upto: int,
    list: Seq<usize>,
) -> bool {
    &&& list.len() == group_count(competitors.take(upto), event, group)
    &&& forall|k: int|
        0 <= k < list.len() ==> (#[trigger] list[k]) < upto && classification(
            competitors[list[k] as int]@,
            event,
        ) == Some(group)
    &&& forall|a: int, b: int| 0 <= a < b < list.len() ==> #[trigger] list[a] < #[trigger] list[b]
    &&& forall|i: int|
        0 <= i < upto && classification((#[trigger] competitors[i])@, event) == Some(group)
            ==> list.contains(i as usize)
}

/// Whether `place` is one of the first `upto` entries of `list`.
spec fn among(place: usize, list: Seq<usize>, upto: int) -> bool {
    exists|j: int| 0 <= j < upto && list[j] == place
}

/// Counting the members of a group among one competitor more.
proof fn lemma_group_count_step(
    competitors: Seq<Competitor>,
    event: Event,
    group: Classification,
    upto: int,
)
    requires
        0 <= upto < competitors.len(),
    ensures
        group_count(competitors.take(upto + 1), event, group) == group_count(
            competitors.take(upto),
            event,
            group,
        ) + if classification(competitors[upto]@, event) == Some(group) {
            1nat
        } else {
            0nat
        },
{
    assert(competitors.take(upto + 1).drop_last() =~= competitors.take(upto));
}

/// A group list stays one when a competitor of another group, or one not
/// registered, is looked at.
proof fn lemma_group_list_skip(
    competitors: Seq<Competitor>,
    event: Event,
    group: Classification,
    upto: int,
    list: Seq<usize>,
)
    requires
        0 <= upto < competitors.len(),
        is_group_list(competitors, event, group, upto, list),
        classification(competitors[upto]@, event) != Some(group),
    ensures
        is_group_list(competitors, event, group, upto + 1, list),
{
    lemma_group_count_step(competitors, event, group, upto);
}

/// A group list stays one when the place of a next member is put at its end.
proof fn lemma_group_list_push(
    competitors: Seq<Competitor>,
    event: Event,
    group: Classification,
    upto: int,
    list: Seq<usize>,
)
    requires
        0 <= upto < competitors.len(),
        upto <= usize::MAX,
        is_group_list(competitors, event, group, upto, list),
        classification(competitors[upto]@, event) == Some(group),
    ensures
        is_group_list(competitors, event, group, upto + 1, list.push(upto as usize)),
{
    lemma_group_count_step(competitors, event, group, upto);
    let next = list.push(upto as usize);
    assert forall|i: int|
        0 <= i < upto + 1 && classification((#[trigger] competitors[i])@, event) == Some(
            group,
        ) implies next.contains(i as usize) by {
        if i < upto {
            assert(list.contains(i as usize));
            let k = choose|k: int| 0 <= k < list.len() && list[k] == i as usize;
            assert(next[k] == i as usize);
        } else {
            assert(next[list.len() as int] == i as usize);
        }
    }
}

/// The number of members of a group is at most the number of competitors.
proof fn lemma_group_count_bound(competitors: Seq<Competitor>, event: Event, group: Classification)
    ensures
        group_count(competitors, event, group) <= competitors.len(),
    decreases competitors.len(),
{
    if competitors.len() > 0 {
        lemma_group_count_bound(competitors.drop_last(), event, group);
    }
}

/// The group of `competitor` among the participants of `event`; none where
/// the competitor is not registered for it. Every participant belongs to
/// exactly one group.
pub fn classify(competitor: &Competitor, event: Event) -> (group: Option<Classification>)
    ensures
        group == classification(competitor@, event),
{
    if !competitor.is_registered(event) {
        None
    } else if !competitor.has_profile() {
        Some(Classification::NoProfile)
    } else if competitor.record(event).is_some() {
        Some(Classification::HasRecord)
    } else {
        Some(Classification::NoRecord)
    }
}

/// Whether the record of `event` of the competitor at `first` is slower than
/// that of the competitor at `second`.
fn slower(competitors: &Vec<Competitor>, event: Event, first: usize, second: usize) -> (slower:
    bool)
    requires
        first < competitors.len(),
        second < competitors.len(),
        competitors[first as int]@.records.contains_key(event),
        competitors[second as int]@.records.contains_key(event),
    ensures
        slower == (competitors[first as int]@.records[event]
            > competitors[second as int]@.records[event]),
{
    match (competitors[first].record(event), competitors[second].record(event)) {
        (Some(a), Some(b)) => !a.le(&b),
        _ => false,
    }
}

/// The places of `timed` from the fastest record of `event` to the slowest,
/// equal records in the order of the roster.
fn sort_by_record(competitors: &Vec<Competitor>, event: Event, timed: &Vec<usize>) -> (sorted: Vec<
    usize,
>)
    requires
        is_group_list(
            competitors@,
            event,
            Classification::HasRecord,
            competitors.len() as int,
            timed@,
        ),
    ensures
        sorted.len() == timed.len(),
        forall|k: int| 0 <= k < sorted.len() ==> timed@.contains(#[trigger] sorted[k]),
        forall|k: int| 0 <= k < timed.len() ==> sorted@.contains(#[trigger] timed[k]),
        forall|a: int, b: int|
            0 <= a < b < sorted.len() ==> ranks_before(
                competitors@,
                event,
                #[trigger] sorted[a] as int,
                #[trigger] sorted[b] as int,
            ),
{
    let mut sorted: Vec<usize> = Vec::new();
    let mut next: usize = 0;
    while next < timed.len()
        invariant
            next <= timed.len(),
            sorted.len() == next,
            is_group_list(
                competitors@,
                event,
                Classification::HasRecord,
                competitors.len() as int,
                timed@,
            ),
            forall|k: int| 0 <= k < sorted.len() ==> among(#[trigger] sorted[k], timed@, next as int),
            forall|j: int| 0 <= j < next ==> sorted@.contains(#[trigger] timed[j]),
            forall|a: int, b: int|
                0 <= a < b < sorted.len() ==> ranks_before(
                    competitors@,
                    event,
                    #[trigger] sorted[a] as int,
                    #[trigger] sorted[b] as int,
                ),
        decreases timed.len() - next,
    {
        let entry = timed[next];
        let mut at: usize = sorted.len();
        while at > 0 && slower(competitors, event, sorted[at - 1], entry)
            invariant
                at <= sorted.len(),
                next < timed.len(),
                entry == timed[next as int],
                sorted.len() == next,
                is_group_list(
                    competitors@,
                    event,
                    Classification::HasRecord,
                    competitors.len() as int,
                    timed@,
                ),
                forall|k: int|
                    0 <= k < sorted.len() ==> among(#[trigger] sorted[k], timed@, next as int),
                forall|q: int|
                    at <= q < sorted.len() ==> ranks_before(
                        competitors@,
                        event,
                        entry as int,
                        #[trigger] sorted[q] as int,
                    ),
            decreases at,
        {
            at -= 1;
        }
        let ghost before = sorted@;
        proof {
            // The entry comes later in the roster than all that were placed.
            assert forall|k: int| 0 <= k < before.len() implies (#[trigger] before[k])
                < entry by {
                assert(among(before[k], timed@, next as int));
                let j = choose|j: int| 0 <= j < next && timed@[j] == before[k];
                assert(timed@[j] < timed@[next as int]);
            }
            assert forall|q: int| 0 <= q < at implies ranks_before(
                competitors@,
                event,
                #[trigger] before[q] as int,
                entry as int,
            ) by {
                let last = before[at - 1];
                assert(last < entry);
                if q < at - 1 {
                    assert(ranks_before(competitors@, event, before[q] as int, last as int));
                }
                assert(before[q] < entry);
            }
        }
        sorted.insert(at, entry);
        proof {
            let after = sorted@;
            assert forall|a: int, b: int| 0 <= a < b < after.len() implies ranks_before(
                competitors@,
                event,
                #[trigger] after[a] as int,
                #[trigger] after[b] as int,
            ) by {
                if a < at && b > at {
                    assert(after[a] == before[a]);
                    assert(after[b] == before[b - 1]);
                } else if a < at && b < at {
                    assert(after[a] == before[a]);
                    assert(after[b] == before[b]);
                } else if a > at {
                    assert(after[a] == before[a - 1]);
                    assert(after[b] == before[b - 1]);
                } else if b == at {
                    assert(after[a] == before[a]);
                } else {
                    assert(after[b] == before[b - 1]);
                }
            }
            assert forall|k: int| 0 <= k < after.len() implies among(
                #[trigger] after[k],
                timed@,
                next + 1,
            ) by {
                if k < at {
                    assert(after[k] == before[k]);
                    assert(among(before[k], timed@, next as int));
                    let j = choose|j: int| 0 <= j < next && timed@[j] == before[k];
                    assert(timed@[j] == after[k]);
                } else if k == at {
                    assert(timed@[next as int] == after[k]);
                } else {
                    assert(after[k] == before[k - 1]);
                    assert(among(before[k - 1], timed@, next as int));
                    let j = choose|j: int| 0 <= j < next && timed@[j] == before[k - 1];
                    assert(timed@[j] == after[k]);
                }
            }
            assert forall|j: int| 0 <= j < next + 1 implies after.contains(
                #[trigger] timed[j],
            ) by {
                if j < next {
                    assert(before.contains(timed[j]));
                    let k = choose|k: int| 0 <= k < before.len() && before[k] == timed[j];
                    if k < at {
                        assert(after[k] == timed[j]);
                    } else {
                        assert(after[k + 1] == timed[j]);
                    }
                } else {
                    assert(after[at as int] == timed[j]);
                }
            }
        }
        next += 1;
    }
    proof {
        assert forall|k: int| 0 <= k < sorted.len() implies timed@.contains(
            #[trigger] sorted[k],
        ) by {
            assert(among(sorted[k], timed@, next as int));
            let j = choose|j: int| 0 <= j < next && timed@[j] == sorted[k];
            assert(timed@[j] == sorted[k]);
        }
    }
    sorted
}

/// Ranks the participants of `event` among `competitors`: first those with a
/// record, from the fastest to the slowest and with equal records in the
/// order of the roster, then those with a profile but no record, then those
/// without a profile, both in the order of the roster.
pub fn rank_for_event(competitors: &Vec<Competitor>, event: Event) -> (ranking: Ranking)
    ensures
        ranking.ranks(competitors@, event),
        ranking.order@.len() == registered_count(competitors@, event),
{
    let mut timed: Vec<usize> = Vec::new();
    let mut untimed: Vec<usize> = Vec::new();
    let mut unknown: Vec<usize> = Vec::new();
    let total = competitors.len();
    let mut i: usize = 0;
    assert(competitors@.take(0) =~= Seq::<Competitor>::empty());
    while i < total
        invariant
            i <= total == competitors.len(),
            is_group_list(competitors@, event, Classification::HasRecord, i as int, timed@),
            is_group_list(competitors@, event, Classification::NoRecord, i as int, untimed@),
            is_group_list(competitors@, event, Classification::NoProfile, i as int, unknown@),
        decreases total - i,
    {
        let group = classify(&competitors[i], event);
        proof {
            let cs = competitors@;
            let at = i as int;
            if group == Some(Classification::HasRecord) {
                lemma_group_list_push(cs, event, Classification::HasRecord, at, timed@);
            } else {
                lemma_group_list_skip(cs, event, Classification::HasRecord, at, timed@);
            }
            if group == Some(Classification::NoRecord) {
                lemma_group_list_push(cs, event, Classification::NoRecord, at, untimed@);
            } else {
                lemma_group_list_skip(cs, event, Classification::NoRecord, at, untimed@);
            }
            if group == Some(Classification::NoProfile) {
                lemma_group_list_push(cs, event, Classification::NoProfile, at, unknown@);
            } else {
                lemma_group_list_skip(cs, event, Classification::NoProfile, at, unknown@);
            }
        }
        match group {
            Some(Classification::HasRecord) => timed.push(i),
            Some(Classification::NoRecord) => untimed.push(i),
            Some(Classification::NoProfile) => unknown.push(i),
            None => {},
        }
        i += 1;
    }
    assert(competitors@.take(total as int) =~= competitors@);
    proof {
        lemma_group_count_bound(competitors@, event, Classification::HasRecord);
        lemma_group_count_bound(competitors@, event, Classification::NoRecord);
        lemma_group_count_bound(competitors@, event, Classification::NoProfile);
        lemma_groups_partition(competitors@, event);
        lemma_registered_count_bound(competitors@, event);
    }
    let mut order = sort_by_record(competitors, event, &timed);
    let with_record = order.len();
    let without_record = untimed.len();
    let without_profile = unknown.len();
    let ghost first = order@;
    let ghost second = untimed@;
    let ghost third = unknown@;
    order.append(&mut untimed);
    order.append(&mut unknown);
    let ranking = Ranking { order, with_record, without_record, without_profile };
    proof {
        let cs = competitors@;
        let all = ranking.order@;
        assert(all =~= first + second + third);
        assert forall|k: int| 0 <= k < all.len() implies (#[trigger] all[k]) < cs.len()
            && classification(cs[all[k] as int]@, event) == Some(ranking.group_at(k)) by {
            if k < first.len() {
                assert(all[k] == first[k]);
                assert(timed@.contains(first[k]));
            } else if k < first.len() + second.len() {
                assert(all[k] == second[k - first.len()]);
            } else {
                assert(all[k] == third[k - first.len() - second.len()]);
            }
        }
        assert forall|i: int|
            0 <= i < cs.len() && (#[trigger] cs[i])@.registered(event) implies all.contains(
            i as usize,
        ) by {
            let group = classification(cs[i]@, event)->0;
            if group == Classification::HasRecord {
                assert(timed@.contains(i as usize));
                let j = choose|j: int| 0 <= j < timed@.len() && timed@[j] == i as usize;
                assert(first.contains(timed[j]));
                let k = choose|k: int| 0 <= k < first.len() && first[k] == i as usize;
                assert(all[k] == i as usize);
            } else if group == Classification::NoRecord {
                assert(second.contains(i as usize));
                let k = choose|k: int| 0 <= k < second.len() && second[k] == i as usize;
                assert(all[first.len() + k] == i as usize);
            } else {
                assert(third.contains(i as usize));
                let k = choose|k: int| 0 <= k < third.len() && third[k] == i as usize;
                assert(all[first.len() + second.len() + k] == i as usize);
            }
        }
        assert forall|a: int, b: int| 0 <= a < b < all.len() implies ranks_before(
            cs,
            event,
            #[trigger] all[a] as int,
            #[trigger] all[b] as int,
        ) by {
            assert(classification(cs[all[a] as int]@, event) == Some(ranking.group_at(a)));
            assert(classification(cs[all[b] as int]@, event) == Some(ranking.group_at(b)));
            if b < first.len() {
                assert(all[a] == first[a]);
                assert(all[b] == first[b]);
            } else if a >= first.len() && b < first.len() + second.len() {
                assert(all[a] == second[a - first.len()]);
                assert(all[b] == second[b - first.len()]);
            } else if a >= first.len() + second.len() {
                assert(all[a] == third[a - first.len() - second.len()]);
                assert(all[b] == third[b - first.len() - second.len()]);
            }
        }
    }
    ranking
}

/// The number of registered competitors is at most the number of
/// competitors.
proof fn lemma_registered_count_bound(competitors: Seq<Competitor>, event: Event)
    ensures
        registered_count(competitors, event) <= competitors.len(),
    decreases competitors.len(),
{
    if competitors.len() > 0 {
        lemma_registered_count_bound(competitors.drop_last(), event);
    }
}

/// The three groups part the participants of an event: every competitor
/// registered for it belongs to exactly one of them, so their sizes add up
/// to the number of participants.
pub proof fn lemma_groups_partition(competitors: Seq<Competitor>, event: Event)
    ensures
        forall|i: int|
            0 <= i < competitors.len() ==> ((#[trigger] competitors[i])@.registered(event)
                <==> classification(competitors[i]@, event) is Some),
        registered_count(competitors, event) == group_count(
            competitors,
            event,
            Classification::HasRecord,
        ) + group_count(competitors, event, Classification::NoRecord) + group_count(
            competitors,
            event,
            Classification::NoProfile,
        ),
    decreases competitors.len(),
{
    if competitors.len() > 0 {
        lemma_groups_partition(competitors.drop_last(), event);
    }
}

/// A presentation holds every participant once: it is as long as the event
/// has participants, and no place of the roster occurs twice in it.
pub proof fn lemma_ranking_holds_each_once(
    ranking: Ranking,
    competitors: Seq<Competitor>,
    event: Event,
)
    requires
        ranking.ranks(competitors, event),
    ensures
        ranking.order@.len() == registered_count(competitors, event),
        ranking.order@.no_duplicates(),
{
    lemma_groups_partition(competitors, event);
    let order = ranking.order@;
    assert forall|a: int, b: int| 0 <= a < order.len() && 0 <= b < order.len() && a != b implies order[a]
        != order[b] by {
        if a < b {
            assert(ranks_before(competitors, event, order[a] as int, order[b] as int));
        } else {
            assert(ranks_before(competitors, event, order[b] as int, order[a] as int));
        }
    }
}

/// Two presentations of the participants of one event agree on their first
/// `upto` places.
proof fn lemma_rankings_agree_upto(
    one: Ranking,
    other: Ranking,
    competitors: Seq<Competitor>,
    event: Event,
    upto: int,
)
    requires
        one.ranks(competitors, event),
        other.ranks(competitors, event),
        0 <= upto <= one.order@.len(),
    ensures
        one.order@.len() == other.order@.len(),
        forall|k: int| 0 <= k < upto ==> one.order@[k] == other.order@[k],
    decreases upto,
{
    let a = one.order@;
    let b = other.order@;
    if upto > 0 {
        lemma_rankings_agree_upto(one, other, competitors, event, upto - 1);
        let k = upto - 1;
        // Each of the two participants at this place stands somewhere in the
        // other presentation, and not before this place.
        assert(competitors[a[k] as int]@.registered(event));
        assert(b.contains(a[k]));
        let j = choose|j: int| 0 <= j < b.len() && b[j] == a[k];
        assert(competitors[b[k] as int]@.registered(event));
        assert(a.contains(b[k]));
        let i = choose|i: int| 0 <= i < a.len() && a[i] == b[k];
        if j < k {
            assert(ranks_before(competitors, event, a[j] as int, a[k] as int));
        }
        if i < k {
            assert(ranks_before(competitors, event, b[i] as int, b[k] as int));
        }
        if j > k {
            assert(ranks_before(competitors, event, b[k] as int, b[j] as int));
            if i > k {
                assert(ranks_before(competitors, event, a[k] as int, a[i] as int));
            }
        }
    }
}

/// The presentation of the participants of an event is determined: two
/// rankings of the same competitors for the same event hold the same places
/// in the same order.
pub proof fn lemma_ranking_unique(
    one: Ranking,
    other: Ranking,
    competitors: Seq<Competitor>,
    event: Event,
)
    requires
        one.ranks(competitors, event),
        other.ranks(competitors, event),
    ensures
        one.order@ == other.order@,
        one.with_record == other.with_record,
        one.without_record == other.without_record,
        one.without_profile == other.without_profile,
{
    lemma_rankings_agree_upto(one, other, competitors, event, one.order@.len() as int);
    assert(one.order@ =~= other.order@);
}

/// Among the participants with a record, none is presented before a faster
/// one: the record of each is at most that of the next.
pub proof fn lemma_ranking_records_ascend(
    ranking: Ranking,
    competitors: Seq<Competitor>,
    event: Event,
    at: int,
)
    requires
        ranking.ranks(competitors, event),
        0 <= at,
        at + 1 < ranking.with_record,
    ensures
        competitors[ranking.order@[at] as int]@.records[event]
            <= competitors[ranking.order@[at + 1] as int]@.records[event],
{
    let order = ranking.order@;
    assert(ranks_before(competitors, event, order[at] as int, order[at + 1] as int));
    assert(classification(competitors[order[at] as int]@, event) == Some(ranking.group_at(at)));
    assert(classification(competitors[order[at + 1] as int]@, event) == Some(
        ranking.group_at(at + 1),
    ));
}

} // verus!
