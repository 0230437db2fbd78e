//! The statistics store: per encounter and window, the damage samples of
//! each class, the number of healers per encounter and the clear times; and
//! the figures drawn from them.

use crate::bidir_map::BidirMap;
use crate::class::Class;
use crate::class::CLASS_COUNT;
use crate::model::class_buckets;
use crate::model::class_samples;
use crate::model::class_values;
use crate::model::record_lists;
use crate::model::StatsLists;
use crate::model::healer_tally;
use crate::model::histogram_of;
use crate::model::trimmed;
use crate::model::member_class;
use crate::model::member_dps;
use crate::model::record_stats;
use crate::model::stepped;
use crate::model::StatsModel;
use crate::order::decile_index;
use crate::order::decile_u32;
use crate::order::decile_u64;
use crate::order::lemma_in_order_u32;
use crate::order::lemma_in_order_u64;
use crate::order::median_index;
use crate::order::median_u32;
use crate::order::median_u64;
use crate::order::sort_u32;
use crate::order::sort_u64;
use crate::parse::StatsLog;
use crate::text::decimal;
use crate::text::decimal_digits;
use crate::text::hyphenated;
use crate::text::join_hyphen;
use crate::text::parse_u32;
use std::collections::HashMap;
use vstd::multiset::Multiset;
use vstd::prelude::*;

verus! {

/// An encounter's identity: the dungeon and the boss fought in it.
#[derive(Clone, Copy, Debug, PartialEq, Eq, Structural, Hash)]
pub struct Fight {
    pub area_id: u32,
    pub boss_id: u32,
}

impl Fight {
    /// The fight against a boss of a dungeon.
    pub fn new(area_id: u32, boss_id: u32) -> (r: Fight)
        ensures
            r.area_id == area_id,
            r.boss_id == boss_id,
    {
        Fight { area_id, boss_id }
    }

    /// The text of the fight in report paths: dungeon and boss joined by a
    /// hyphen.
    pub fn to_str(&self) -> (r: String)
        ensures
            r@ == hyphenated(
                decimal_digits(self.area_id as nat),
                decimal_digits(self.boss_id as nat),
            ),
    {
        let area = decimal(self.area_id as u128);
        let boss = decimal(self.boss_id as u128);
        join_hyphen(area.as_str(), boss.as_str())
    }
}

/// The bucket of a damage value: the value rounded down to a multiple of
/// the step.
pub fn stepped_dps(dps: u32, step: u32) -> (r: u32)
    requires
        step > 0,
    ensures
        r == stepped(dps, step),
        r <= dps,
        r % step == 0,
        dps - r < step,
{
    let q = dps / step;
    assert(q * step <= dps && (q * step) % (step as int) == 0 && dps - q * step < step)
        by (nonlinear_arith)
        requires
            q == dps / step,
            step > 0,
    ;
    q * step
}

/// The counts of a histogram, by bucket.
pub open spec fn counts_of(histogram: Map<u32, usize>) -> Map<u32, nat> {
    Map::new(|k: u32| histogram.contains_key(k), |k: u32| histogram[k] as nat)
}

/// What a sample set holds: the raw damage values and the buckets they were
/// counted under, both without regard to order.
pub struct SampleModel {
    pub samples: Multiset<u32>,
    pub buckets: Multiset<u32>,
}

/// The damage samples of one class in one window: the raw values in the
/// order in which they came, and a histogram that counts them by bucket.
pub struct DataDetails {
    dps: Vec<u32>,
    stepped_dps: HashMap<u32, usize>,
}

impl View for DataDetails {
    type V = SampleModel;

    closed spec fn view(&self) -> SampleModel {
        SampleModel {
            samples: self.dps@.to_multiset(),
            buckets: Multiset::from_map(counts_of(self.stepped_dps@)),
        }
    }
}

impl DataDetails {
    /// The invariant of a sample set: the counts of its histogram add up to
    /// the number of its raw values, and no bucket is counted zero times.
    pub closed spec fn wf(&self) -> bool {
        &&& self@.buckets.len() == self.dps@.len()
        &&& forall|k: u32| #[trigger]
            self.stepped_dps@.contains_key(k) ==> self.stepped_dps@[k] >= 1
    }

    /// The raw values, in the order in which they came.
    pub closed spec fn raw(&self) -> Seq<u32> {
        self.dps@
    }

    /// The histogram: for each bucket that was counted, how often.
    pub closed spec fn histogram(&self) -> Map<u32, usize> {
        self.stepped_dps@
    }

    /// An empty sample set.
    pub fn new() -> (r: DataDetails)
        ensures
            r.wf(),
            r@.samples == Multiset::<u32>::empty(),
            r@.buckets == Multiset::<u32>::empty(),
            r.raw() == Seq::<u32>::empty(),
    {
        broadcast use vstd::std_specs::hash::group_hash_axioms;
        broadcast use vstd::multiset::group_multiset_axioms;

        broadcast use vstd::seq_lib::group_to_multiset_ensures;

        let r = DataDetails { dps: Vec::new(), stepped_dps: HashMap::new() };
        proof {
            lemma_counts(r.stepped_dps@);
            assert(r@.buckets =~= Multiset::<u32>::empty());
            assert(r@.samples.len() == 0);
            assert(r@.samples =~= Multiset::<u32>::empty());
        }
        r
    }

    /// Adds a raw value and counts it under a bucket.
    pub fn add(&mut self, new_dps: u32, new_stepped: u32)
        requires
            old(self).wf(),
        ensures
            final(self).wf(),
            final(self)@.samples == old(self)@.samples.insert(new_dps),
            final(self)@.buckets == old(self)@.buckets.insert(new_stepped),
            final(self).raw() == old(self).raw().push(new_dps),
    {
        broadcast use vstd::std_specs::hash::group_hash_axioms;
        broadcast use vstd::multiset::group_multiset_axioms;
        broadcast use vstd::seq_lib::group_to_multiset_ensures;

        let ghost before = self.stepped_dps@;
        proof {
            lemma_counts(before);
        }
        self.dps.push(new_dps);
        let held_now = self.dps.len();
        let current: usize = match self.stepped_dps.get(&new_stepped) {
            Some(count) => *count,
            None => 0,
        };
        proof {
            let held = old(self)@.buckets;
            assert(current == held.count(new_stepped));
            vstd::multiset::axiom_count_le_len(held, new_stepped);
            assert(held.len() == old(self).dps@.len());
            assert(held_now == old(self).dps@.len() + 1);
        }
        self.stepped_dps.insert(new_stepped, current + 1);
        proof {
            let after = self.stepped_dps@;
            lemma_counts(after);
            assert(Multiset::from_map(counts_of(after)) =~= Multiset::from_map(
                counts_of(before),
            ).insert(new_stepped));
        }
    }

    /// The number of raw values.
    pub fn len(&self) -> (n: usize)
        ensures
            n == self@.samples.len(),
            n == self.raw().len(),
    {
        broadcast use vstd::seq_lib::group_to_multiset_ensures;

        self.dps.len()
    }

    /// How often a bucket was counted.
    pub fn count(&self, bucket: u32) -> (n: usize)
        ensures
            n == self@.buckets.count(bucket),
    {
        broadcast use vstd::std_specs::hash::group_hash_axioms;

        proof {
            lemma_counts(self.stepped_dps@);
        }
        match self.stepped_dps.get(&bucket) {
            Some(count) => *count,
            None => 0,
        }
    }

    /// The raw values, in the order in which they came.
    pub fn dps(&self) -> (r: &Vec<u32>)
        ensures
            r@ == self.raw(),
            r@.to_multiset() == self@.samples,
    {
        &self.dps
    }

    /// The histogram: for each bucket that was counted, how often.
    pub fn stepped_dps(&self) -> (r: &HashMap<u32, usize>)
        ensures
            r@ == self.histogram(),
            Multiset::from_map(counts_of(r@)) == self@.buckets,
    {
        &self.stepped_dps
    }
}

/// A histogram read as a multiset holds each bucket as often as the
/// histogram counts it.
pub proof fn lemma_counts(histogram: Map<u32, usize>)
    requires
        histogram.dom().finite(),
    ensures
        forall|k: u32| #[trigger]
            Multiset::from_map(counts_of(histogram)).count(k) == (if histogram.contains_key(k) {
                histogram[k] as nat
            } else {
                0
            }),
{
    broadcast use vstd::multiset::group_multiset_axioms;

    let counts = counts_of(histogram);
    assert(counts.dom() =~= histogram.dom());
    assert forall|k: u32| #[trigger]
        Multiset::from_map(counts).count(k) == (if histogram.contains_key(k) {
            histogram[k] as nat
        } else {
            0
        }) by {
        if histogram.contains_key(k) {
            vstd::multiset::axiom_multiset_contained(counts, k);
        } else {
            vstd::multiset::axiom_multiset_new_not_contained(counts, k);
        }
    }
}

/// The histogram of a sample set is that of its buckets: it holds each
/// bucket that was counted, with its count, and no other.
pub proof fn lemma_histogram_pinned(details: DataDetails)
    requires
        details.wf(),
    ensures
        details.histogram() == histogram_of(details@.buckets),
{
    broadcast use vstd::std_specs::hash::group_hash_axioms;

    let held = details.histogram();
    lemma_counts(held);
    assert forall|k: u32| #[trigger]
        held.contains_key(k) == histogram_of(details@.buckets).contains_key(k) by {
        assert(details@.buckets.count(k) == (if held.contains_key(k) {
            held[k] as nat
        } else {
            0
        }));
    }
    assert(held =~= histogram_of(details@.buckets));
}

/// The healer histogram of a collection of healer counts: position `t`
/// holds the number of times `t` occurs, and the last position is counted.
pub open spec fn healers_of(healers: Multiset<int>) -> Seq<usize> {
    choose|histogram: Seq<usize>|
        trimmed(histogram) && Multiset::from_map(healer_counts(histogram)) == healers
}

/// A healer histogram without a position more than it needs is the healer
/// histogram of what it counts: a collection of healer counts has one.
pub proof fn lemma_healers_of(histogram: Seq<usize>)
    requires
        trimmed(histogram),
    ensures
        healers_of(Multiset::from_map(healer_counts(histogram))) == histogram,
{
    let healers = Multiset::from_map(healer_counts(histogram));
    let other = healers_of(healers);
    assert(trimmed(other) && Multiset::from_map(healer_counts(other)) == healers);
    lemma_healer_counts(histogram);
    lemma_healer_counts(other);
    if histogram.len() < other.len() {
        let t = other.len() - 1;
        assert(healers.count(t) == other[t] as nat);
        assert(healers.count(t) == 0);
    } else if other.len() < histogram.len() {
        let t = histogram.len() - 1;
        assert(healers.count(t) == histogram[t] as nat);
        assert(healers.count(t) == 0);
    }
    assert forall|t: int| 0 <= t < histogram.len() implies histogram[t] == other[t] by {
        assert(healers.count(t) == histogram[t] as nat);
        assert(healers.count(t) == other[t] as nat);
    }
    assert(histogram =~= other);
}

/// The counts of a sample set's histogram add up to the number of its raw
/// values.
pub proof fn lemma_histogram_total(details: DataDetails)
    requires
        details.wf(),
    ensures
        Multiset::from_map(counts_of(details.histogram())).len() == details.raw().len(),
        details@.buckets.len() == details@.samples.len(),
{
    broadcast use vstd::seq_lib::group_to_multiset_ensures;

}

/// The counts of a healer histogram, by number of healers: position `t` of
/// the histogram counts the encounters with `t` healers.
pub open spec fn healer_counts(histogram: Seq<usize>) -> Map<int, nat> {
    Map::new(
        |t: int| 0 <= t < histogram.len() && histogram[t] > 0,
        |t: int| histogram[t] as nat,
    )
}

/// A healer histogram read as a multiset holds each number of healers as
/// often as the histogram counts it.
pub proof fn lemma_healer_counts(histogram: Seq<usize>)
    ensures
        forall|t: int| #[trigger]
            Multiset::from_map(healer_counts(histogram)).count(t) == (if 0 <= t
                < histogram.len() {
                histogram[t] as nat
            } else {
                0
            }),
{
    let counts = healer_counts(histogram);
    let range = vstd::set_lib::set_int_range(0, histogram.len() as int);
    vstd::set_lib::lemma_int_range(0, histogram.len() as int);
    assert(counts.dom().subset_of(range));
    vstd::set_lib::lemma_len_subset(counts.dom(), range);
    assert forall|t: int| #[trigger]
        Multiset::from_map(counts).count(t) == (if 0 <= t < histogram.len() {
            histogram[t] as nat
        } else {
            0
        }) by {
        if counts.dom().contains(t) {
            vstd::multiset::axiom_multiset_contained(counts, t);
        } else {
            vstd::multiset::axiom_multiset_new_not_contained(counts, t);
        }
    }
}

/// Counts one more encounter with `tally` healers.
fn count_healers(histogram: &mut Vec<usize>, tally: usize, bound: usize)
    requires
        Multiset::from_map(healer_counts(old(histogram)@)).len() < bound,
    ensures
        Multiset::from_map(healer_counts(final(histogram)@)) == Multiset::from_map(
            healer_counts(old(histogram)@),
        ).insert(tally as int),
        trimmed(old(histogram)@) ==> trimmed(final(histogram)@),
{
    broadcast use vstd::multiset::group_multiset_axioms;

    let ghost before = histogram@;
    while histogram.len() <= tally
        invariant
            histogram@.len() >= before.len(),
            forall|t: int| 0 <= t < before.len() ==> histogram@[t] == before[t],
            forall|t: int| before.len() <= t < histogram@.len() ==> histogram@[t] == 0,
            histogram@.len() == before.len() || histogram@.len() <= tally + 1,
        decreases tally + 1 - histogram.len(),
    {
        histogram.push(0);
    }
    let current = histogram[tally];
    proof {
        lemma_healer_counts(before);
        let held = Multiset::from_map(healer_counts(before));
        assert(current == held.count(tally as int));
        vstd::multiset::axiom_count_le_len(held, tally as int);
    }
    histogram.set(tally, current + 1);
    proof {
        lemma_healer_counts(histogram@);
        assert(Multiset::from_map(healer_counts(histogram@)) =~= Multiset::from_map(
            healer_counts(before),
        ).insert(tally as int));
    }
}

/// The statistics of one encounter in one window: the damage samples of each
/// class, how many encounters had how many healers, and the clear time of
/// each encounter.
pub struct DungeonData {
    members: Vec<DataDetails>,
    healers_number: Vec<usize>,
    clear_time: Vec<u64>,
}

impl View for DungeonData {
    type V = StatsModel;

    closed spec fn view(&self) -> StatsModel {
        StatsModel {
            samples: Map::new(|c: Class| true, |c: Class| self.members@[c.rank()]@.samples),
            buckets: Map::new(|c: Class| true, |c: Class| self.members@[c.rank()]@.buckets),
            healers: Multiset::from_map(healer_counts(self.healers_number@)),
            clear_times: self.clear_time@.to_multiset(),
        }
    }
}

impl DungeonData {
    /// The invariant of a window's statistics: every class has its sample
    /// set, each sample set keeps its own invariant, and the healer
    /// histogram counts every encounter once.
    pub closed spec fn wf(&self) -> bool {
        &&& self.members@.len() == CLASS_COUNT
        &&& forall|i: int| 0 <= i < CLASS_COUNT ==> (#[trigger] self.members@[i]).wf()
        &&& self@.healers.len() == self.clear_time@.len()
        &&& trimmed(self.healers_number@)
    }

    /// The healer histogram: position `t` counts the encounters with `t`
    /// healers.
    pub closed spec fn healer_histogram(&self) -> Seq<usize> {
        self.healers_number@
    }

    /// The histogram of a class: for each bucket that was counted, how
    /// often.
    pub closed spec fn histogram(&self, class: Class) -> Map<u32, usize> {
        self.members@[class.rank()].histogram()
    }

    /// The clear times, in the order in which they came.
    pub closed spec fn clear_times(&self) -> Seq<u64> {
        self.clear_time@
    }

    /// The raw damage values of a class, in the order in which they came.
    pub closed spec fn raw(&self, class: Class) -> Seq<u32> {
        self.members@[class.rank()].raw()
    }

    /// The lists of the statistics, in the order in which records came: the
    /// raw damage values of every class, and the clear times.
    pub open spec fn lists(&self) -> StatsLists {
        StatsLists {
            raw: Map::new(|c: Class| true, |c: Class| self.raw(c)),
            clear_times: self.clear_times(),
        }
    }

    /// The sample set of a class.
    pub fn details(&self, class: Class) -> (r: &DataDetails)
        requires
            self.wf(),
        ensures
            r.wf(),
            r@.samples == self@.samples[class],
            r@.buckets == self@.buckets[class],
            r.raw() == self.raw(class),
            r.histogram() == self.histogram(class),
            r.histogram() == histogram_of(self@.buckets[class]),
    {
        proof {
            lemma_histogram_pinned(self.members@[class.rank()]);
        }
        &self.members[class.index()]
    }

    /// The clear times, in the order in which they came.
    pub fn clear_time(&self) -> (r: &Vec<u64>)
        ensures
            r@ == self.clear_times(),
            r@.to_multiset() == self@.clear_times,
    {
        &self.clear_time
    }

    /// The healer histogram: position `t` counts the encounters with `t`
    /// healers.
    pub fn healers_number(&self) -> (r: &Vec<usize>)
        ensures
            r@ == self.healer_histogram(),
            Multiset::from_map(healer_counts(r@)) == self@.healers,
            self.wf() ==> r@ == healers_of(self@.healers),
    {
        proof {
            if self.wf() {
                lemma_healers_of(self.healers_number@);
            }
        }
        &self.healers_number
    }

    /// The statistics of no encounter.
    pub fn new() -> (r: DungeonData)
        ensures
            r.wf(),
            r@ == StatsModel::empty(),
            r.lists() == StatsLists::empty(),
    {
        broadcast use vstd::multiset::group_multiset_axioms;
        broadcast use vstd::seq_lib::group_to_multiset_ensures;

        let mut members: Vec<DataDetails> = Vec::new();
        let mut i: usize = 0;
        while i < CLASS_COUNT
            invariant
                i <= CLASS_COUNT,
                members@.len() == i,
                forall|j: int|
                    0 <= j < i ==> (#[trigger] members@[j]).wf() && members@[j]@.samples
                        == Multiset::<u32>::empty() && members@[j]@.buckets == Multiset::<
                        u32,
                    >::empty() && members@[j].raw() == Seq::<u32>::empty(),
            decreases CLASS_COUNT - i,
        {
            members.push(DataDetails::new());
            i += 1;
        }
        let r = DungeonData { members, healers_number: Vec::new(), clear_time: Vec::new() };
        proof {
            lemma_healer_counts(r.healers_number@);
            assert(r@.healers =~= Multiset::<int>::empty());
            assert(r@.clear_times.len() == 0);
            assert(r@.clear_times =~= Multiset::<u64>::empty());
            assert forall|c: Class| #[trigger]
                r@.samples[c] == Multiset::<u32>::empty() && r@.buckets[c] == Multiset::<
                    u32,
                >::empty() by {
                crate::class::lemma_rank_at(c, 0);
            }
            assert(r@.samples =~= StatsModel::empty().samples);
            assert(r@.buckets =~= StatsModel::empty().buckets);
            assert forall|c: Class| #[trigger] r.lists().raw[c] == Seq::<u32>::empty() by {
                crate::class::lemma_rank_at(c, 0);
            }
            assert(r.lists().raw =~= StatsLists::empty().raw);
            assert(r.lists().clear_times =~= StatsLists::empty().clear_times);
        }
        r
    }
}

/// The damage values of one class grow by one participant at a time.
pub proof fn lemma_class_step(
    members: Seq<crate::parse::MemberModel>,
    catalog: Map<Seq<char>, Class>,
    step: u32,
    class: Class,
    i: int,
)
    requires
        0 <= i < members.len(),
    ensures
        class_samples(members.take(i + 1), catalog, class) == (if member_class(
            members[i],
            catalog,
        ) == Some(class) {
            class_samples(members.take(i), catalog, class).insert(member_dps(members[i]))
        } else {
            class_samples(members.take(i), catalog, class)
        }),
        class_buckets(members.take(i + 1), catalog, step, class) == (if member_class(
            members[i],
            catalog,
        ) == Some(class) {
            class_buckets(members.take(i), catalog, step, class).insert(
                stepped(member_dps(members[i]), step),
            )
        } else {
            class_buckets(members.take(i), catalog, step, class)
        }),
        healer_tally(members.take(i + 1), catalog) == healer_tally(members.take(i), catalog) + (
        match member_class(members[i], catalog) {
            Some(c) => if c.healer() {
                1nat
            } else {
                0nat
            },
            None => 0nat,
        }),
        healer_tally(members.take(i), catalog) <= i,
        class_values(members.take(i + 1), catalog, class) == (if member_class(
            members[i],
            catalog,
        ) == Some(class) {
            class_values(members.take(i), catalog, class).push(member_dps(members[i]))
        } else {
            class_values(members.take(i), catalog, class)
        }),
    decreases i,
{
    assert(members.take(i + 1).drop_last() =~= members.take(i));
    assert(members.take(i + 1).last() == members[i]);
    if i > 0 {
        lemma_class_step(members, catalog, step, class, i - 1);
    }
}

impl DungeonData {
    /// Adds one record to the statistics: its clear time, the damage of
    /// every participant whose class name the catalog knows, under that
    /// class, and one count of its number of healers. A damage text that is
    /// no number counts as zero.
    pub fn record(&mut self, stat: &StatsLog, class_map: &BidirMap, dps_steps: u32)
        requires
            old(self).wf(),
            dps_steps > 0,
        ensures
            final(self).wf(),
            final(self)@ == old(self)@.plus(
                record_stats(stat@, class_map@.first_second, dps_steps),
            ),
            final(self).lists() == old(self).lists().followed_by(
                record_lists(stat@, class_map@.first_second),
            ),
    {
        broadcast use vstd::multiset::group_multiset_axioms;
        broadcast use vstd::seq_lib::group_to_multiset_ensures;

        let ghost catalog = class_map@.first_second;
        let ghost people = stat@.members;
        let ghost start = *old(self);
        self.clear_time.push(stat.content.fight_duration);
        let encounters = self.clear_time.len();
        let mut healers: usize = 0;
        let mut i: usize = 0;
        proof {
            assert forall|c: Class|
                (#[trigger] self.members@[c.rank()]).raw() == start.members@[c.rank()].raw()
                    + class_values(people.take(0), catalog, c) by {
                assert(start.members@[c.rank()].raw() + Seq::<u32>::empty()
                    =~= start.members@[c.rank()].raw());
            }
            assert forall|c: Class|
                (#[trigger] self.members@[c.rank()])@.samples == start.members@[c.rank()]@.samples.add(
                    class_samples(people.take(0), catalog, c),
                ) && self.members@[c.rank()]@.buckets == start.members@[c.rank()]@.buckets.add(
                    class_buckets(people.take(0), catalog, dps_steps, c),
                ) by {
                assert(start.members@[c.rank()]@.samples.add(Multiset::<u32>::empty())
                    =~= start.members@[c.rank()]@.samples);
                assert(start.members@[c.rank()]@.buckets.add(Multiset::<u32>::empty())
                    =~= start.members@[c.rank()]@.buckets);
            }
        }
        while i < stat.content.members.len()
            invariant
                i <= stat.content.members.len(),
                dps_steps > 0,
                catalog == class_map@.first_second,
                people == stat@.members,
                start.wf(),
                self.members@.len() == CLASS_COUNT,
                forall|j: int| 0 <= j < CLASS_COUNT ==> (#[trigger] self.members@[j]).wf(),
                self.healers_number@ == start.healers_number@,
                self.clear_time@ == start.clear_time@.push(stat.content.fight_duration),
                healers == healer_tally(people.take(i as int), catalog),
                healers <= i,
                forall|c: Class|
                    (#[trigger] self.members@[c.rank()]).raw() == start.members@[c.rank()].raw()
                        + class_values(people.take(i as int), catalog, c),
                forall|c: Class|
                    (#[trigger] self.members@[c.rank()])@.samples
                        == start.members@[c.rank()]@.samples.add(
                        class_samples(people.take(i as int), catalog, c),
                    ) && self.members@[c.rank()]@.buckets
                        == start.members@[c.rank()]@.buckets.add(
                        class_buckets(people.take(i as int), catalog, dps_steps, c),
                    ),
            decreases stat.content.members.len() - i,
        {
            let member = &stat.content.members[i];
            let ghost held = self.members@;
            assert(people[i as int] == member@);
            match class_map.get_by_first(member.player_class.as_str()) {
                Some(class) => {
                    let dps: u32 = match parse_u32(member.player_dps.as_str()) {
                        Some(v) => v,
                        None => 0,
                    };
                    let bucket = stepped_dps(dps, dps_steps);
                    if class.is_healer() {
                        healers += 1;
                    }
                    let at = class.index();
                    let details = &mut self.members[at];
                    details.add(dps, bucket);
                    proof {
                        assert forall|c: Class|
                            (#[trigger] self.members@[c.rank()]).raw() == start.members@[c.rank()].raw()
                                + class_values(people.take(i as int + 1), catalog, c) by {
                            lemma_class_step(people, catalog, dps_steps, c, i as int);
                            crate::class::lemma_rank_at(c, 0);
                            let base = start.members@[c.rank()].raw();
                            let v0 = class_values(people.take(i as int), catalog, c);
                            assert(held[c.rank()].raw() == base + v0);
                            if c == *class {
                                assert((base + v0).push(dps) =~= base + v0.push(dps));
                            } else {
                                assert(c.rank() != class.rank());
                                assert(self.members@[c.rank()] == held[c.rank()]);
                            }
                        }
                        assert forall|c: Class|
                            (#[trigger] self.members@[c.rank()])@.samples
                                == start.members@[c.rank()]@.samples.add(
                                class_samples(people.take(i as int + 1), catalog, c),
                            ) && self.members@[c.rank()]@.buckets
                                == start.members@[c.rank()]@.buckets.add(
                                class_buckets(people.take(i as int + 1), catalog, dps_steps, c),
                            ) by {
                            lemma_class_step(people, catalog, dps_steps, c, i as int);
                            crate::class::lemma_rank_at(c, 0);
                            let was = held[c.rank()]@;
                            let base = start.members@[c.rank()]@;
                            let s0 = class_samples(people.take(i as int), catalog, c);
                            let b0 = class_buckets(people.take(i as int), catalog, dps_steps, c);
                            assert(was.samples == base.samples.add(s0));
                            assert(was.buckets == base.buckets.add(b0));
                            if c == *class {
                                assert(base.samples.add(s0).insert(dps) =~= base.samples.add(
                                    s0.insert(dps),
                                ));
                                assert(base.buckets.add(b0).insert(bucket) =~= base.buckets.add(
                                    b0.insert(bucket),
                                ));
                            } else {
                                assert(c.rank() != class.rank());
                                assert(self.members@[c.rank()] == held[c.rank()]);
                            }
                        }
                        lemma_class_step(people, catalog, dps_steps, *class, i as int);
                    }
                },
                None => {
                    proof {
                        assert forall|c: Class|
                            (#[trigger] self.members@[c.rank()]).raw() == start.members@[c.rank()].raw()
                                + class_values(people.take(i as int + 1), catalog, c) by {
                            lemma_class_step(people, catalog, dps_steps, c, i as int);
                        }
                        assert forall|c: Class|
                            (#[trigger] self.members@[c.rank()])@.samples
                                == start.members@[c.rank()]@.samples.add(
                                class_samples(people.take(i as int + 1), catalog, c),
                            ) && self.members@[c.rank()]@.buckets
                                == start.members@[c.rank()]@.buckets.add(
                                class_buckets(people.take(i as int + 1), catalog, dps_steps, c),
                            ) by {
                            lemma_class_step(people, catalog, dps_steps, c, i as int);
                        }
                        lemma_class_step(people, catalog, dps_steps, Class::Archer, i as int);
                    }
                },
            }
            i += 1;
        }
        proof {
            assert(people.take(i as int) =~= people);
            assert(Multiset::from_map(healer_counts(self.healers_number@)).len()
                == start.clear_time@.len());
        }
        count_healers(&mut self.healers_number, healers, encounters);
        proof {
            let added = record_stats(stat@, catalog, dps_steps);
            let target = start@.plus(added);
            assert(self@.healers =~= target.healers);
            assert(self@.clear_times =~= target.clear_times);
            assert forall|c: Class| #[trigger]
                self@.samples[c] == target.samples[c] && self@.buckets[c]
                    == target.buckets[c] by {
                assert(self.members@[c.rank()]@.samples == start.members@[c.rank()]@.samples.add(
                    class_samples(people, catalog, c),
                ));
            }
            assert(self@.samples =~= target.samples);
            assert(self@.buckets =~= target.buckets);
            let appended = start.lists().followed_by(record_lists(stat@, catalog));
            assert forall|c: Class| #[trigger] self.lists().raw[c] == appended.raw[c] by {
                assert(self.members@[c.rank()].raw() == start.members@[c.rank()].raw()
                    + class_values(people, catalog, c));
            }
            assert(self.lists().raw =~= appended.raw);
            assert(self.lists().clear_times =~= appended.clear_times);
        }
    }
}

/// The figures of one class in one window.
pub struct ExportClass {
    pub count: usize,
    pub dps_median: u32,
    pub dps_percentile_90: u32,
    pub stepped_dps: HashMap<u32, usize>,
}

/// The figures of one window: those of each class that has samples, in the
/// order of the classes; the healer histogram, whose position `t` counts the
/// encounters with `t` healers; and the median and ninth decile of the clear
/// times.
pub struct ExportResult {
    pub class: Vec<(Class, ExportClass)>,
    pub healers_number: Vec<usize>,
    pub clear_time_median: u64,
    pub clear_time_percentile_90: u64,
}

impl ExportResult {
    /// Figures that name no class and count no encounter.
    pub fn new() -> (r: ExportResult)
        ensures
            r.class@.len() == 0,
            r.healers_number@.len() == 0,
            r.clear_time_median == 0,
            r.clear_time_percentile_90 == 0,
    {
        ExportResult {
            class: Vec::new(),
            healers_number: Vec::new(),
            clear_time_median: 0,
            clear_time_percentile_90: 0,
        }
    }
}

/// Why a window has no figures.
#[derive(Clone, Copy, Debug, PartialEq, Eq, Structural)]
pub enum ExportError {
    /// The statistics hold no encounter.
    NoEncounter,
}

/// Whether the figures of a class are those of its samples and buckets: the
/// number of samples, their median and ninth decile, and the histogram of
/// the buckets, which holds each bucket that occurs with its count and no
/// other.
pub open spec fn class_figures(
    figures: ExportClass,
    samples: Multiset<u32>,
    buckets: Multiset<u32>,
) -> bool {
    &&& figures.count == samples.len()
    &&& figures.count > 0
    &&& figures.dps_median == median_u32(samples)
    &&& figures.dps_percentile_90 == decile_u32(samples)
    &&& Multiset::from_map(counts_of(figures.stepped_dps@)) == buckets
    &&& figures.stepped_dps@ == histogram_of(buckets)
}

/// Whether figures are those of a window's statistics, for the classes that
/// a catalog lists: the classes with figures are the listed classes that have
/// samples, each once and in the order of the classes.
pub open spec fn summarizes(
    result: ExportResult,
    stats: StatsModel,
    listed: Map<Class, Seq<char>>,
) -> bool {
    &&& result.clear_time_median == median_u64(stats.clear_times)
    &&& result.clear_time_percentile_90 == decile_u64(stats.clear_times)
    &&& Multiset::from_map(healer_counts(result.healers_number@)) == stats.healers
    &&& result.healers_number@ == healers_of(stats.healers)
    &&& forall|i: int, j: int|
        0 <= i < j < result.class@.len() ==> (#[trigger] result.class@[i]).0.rank() < (
        #[trigger] result.class@[j]).0.rank()
    &&& forall|c: Class|
        (exists|i: int| 0 <= i < result.class@.len() && (#[trigger] result.class@[i]).0 == c) <==> (
        listed.contains_key(c) && stats.samples[c].len() > 0)
    &&& forall|i: int|
        0 <= i < result.class@.len() ==> class_figures(
            (#[trigger] result.class@[i]).1,
            stats.samples[result.class@[i].0],
            stats.buckets[result.class@[i].0],
        )
}

/// Whether figures hold the histograms of the statistics as they stood:
/// the healer histogram, and for each class with figures the histogram of
/// its buckets.
pub open spec fn handed_on(result: ExportResult, stats: DungeonData) -> bool {
    &&& result.healers_number@ == stats.healer_histogram()
    &&& forall|i: int|
        0 <= i < result.class@.len() ==> (#[trigger] result.class@[i]).1.stepped_dps@
            == stats.histogram(result.class@[i].0)
}

/// The figures of one sample set that is not empty.
fn class_export(details: DataDetails) -> (r: ExportClass)
    requires
        details.wf(),
        details@.samples.len() > 0,
    ensures
        class_figures(r, details@.samples, details@.buckets),
        r.stepped_dps@ == details.histogram(),
{
    broadcast use vstd::seq_lib::group_to_multiset_ensures;

    proof {
        lemma_histogram_pinned(details);
    }
    let ghost model = details@;
    let DataDetails { dps, stepped_dps } = details;
    let mut values = dps;
    sort_u32(&mut values);
    proof {
        lemma_in_order_u32(values@);
        assert(values@.to_multiset().len() == values@.len());
    }
    let count = values.len();
    ExportClass {
        count,
        dps_median: values[median_index(count)],
        dps_percentile_90: values[decile_index(count)],
        stepped_dps,
    }
}

/// The figures of a window's statistics, for the classes that a catalog
/// lists. Medians and ninth deciles are read from the ascending order of the
/// values, at half and at nine tenths of their number, rounded down. A class
/// without samples has no figures; statistics that hold no encounter have
/// none at all.
pub fn export(raw_data: DungeonData, class_map: &BidirMap) -> (r: Result<ExportResult, ExportError>)
    requires
        raw_data.wf(),
    ensures
        match r {
            Ok(result) => raw_data@.encounters() > 0 && summarizes(
                result,
                raw_data@,
                class_map@.second_first,
            ) && handed_on(result, raw_data),
            Err(e) => e == ExportError::NoEncounter && raw_data@.encounters() == 0,
        },
{
    broadcast use vstd::seq_lib::group_to_multiset_ensures;

    let ghost stats = raw_data@;
    let ghost listed = class_map@.second_first;
    let DungeonData { members, healers_number, clear_time } = raw_data;
    let ghost sets = members@;
    proof {
        lemma_healers_of(healers_number@);
    }
    let mut times = clear_time;
    assert(times@.to_multiset().len() == times@.len());
    if times.len() == 0 {
        return Err(ExportError::NoEncounter);
    }
    sort_u64(&mut times);
    proof {
        lemma_in_order_u64(times@);
        assert(times@.to_multiset().len() == times@.len());
    }
    let encounters = times.len();
    let clear_time_median = times[median_index(encounters)];
    let clear_time_percentile_90 = times[decile_index(encounters)];
    let mut class: Vec<(Class, ExportClass)> = Vec::new();
    let mut at: usize = 0;
    for details in it: members.into_iter()
        invariant
            it.seq() == sets,
            sets.len() == CLASS_COUNT,
            at == it.index(),
            forall|j: int| 0 <= j < CLASS_COUNT ==> (#[trigger] sets[j]).wf(),
            forall|c: Class|
                #![trigger stats.samples[c]]
                stats.samples[c] == sets[c.rank()]@.samples && stats.buckets[c]
                    == sets[c.rank()]@.buckets,
            listed == class_map@.second_first,
            forall|i: int| 0 <= i < class@.len() ==> (#[trigger] class@[i]).0.rank() < at,
            forall|i: int, j: int|
                0 <= i < j < class@.len() ==> (#[trigger] class@[i]).0.rank() < (
                #[trigger] class@[j]).0.rank(),
            forall|c: Class|
                (exists|i: int| 0 <= i < class@.len() && (#[trigger] class@[i]).0 == c) <==> (
                c.rank() < at && listed.contains_key(c) && stats.samples[c].len() > 0),
            forall|i: int|
                0 <= i < class@.len() ==> class_figures(
                    (#[trigger] class@[i]).1,
                    stats.samples[class@[i].0],
                    stats.buckets[class@[i].0],
                ),
            forall|i: int|
                0 <= i < class@.len() ==> (#[trigger] class@[i]).1.stepped_dps@
                    == sets[class@[i].0.rank()].histogram(),
    {
        let ghost before = class@;
        let ghost added = false;
        match Class::from_index(at) {
            Some(c) => {
                assert(details == sets[c.rank()]);
                assert(stats.samples[c] == details@.samples);
                if details.len() > 0 && class_map.get_by_second(&c).is_some() {
                    let figures = class_export(details);
                    class.push((c, figures));
                    proof {
                        added = true;
                    }
                }
                proof {
                    assert forall|k: Class|
                        (exists|i: int|
                            0 <= i < class@.len() && (#[trigger] class@[i]).0 == k) <==> (k.rank()
                            < at + 1 && listed.contains_key(k) && stats.samples[k].len() > 0) by {
                        crate::class::lemma_rank_at(k, at as int);
                        if exists|i: int| 0 <= i < class@.len() && (#[trigger] class@[i]).0 == k {
                            let i = choose|i: int|
                                0 <= i < class@.len() && (#[trigger] class@[i]).0 == k;
                            if i < before.len() {
                                assert(before[i].0 == k);
                            }
                        }
                        if k.rank() < at + 1 && listed.contains_key(k) && stats.samples[k].len()
                            > 0 {
                            if k.rank() < at {
                                let i = choose|i: int|
                                    0 <= i < before.len() && (#[trigger] before[i]).0 == k;
                                assert(class@[i].0 == k);
                            } else {
                                assert(k == c);
                                assert(added);
                                assert(class@[class@.len() - 1].0 == k);
                            }
                        }
                    }
                }
            },
            None => {},
        }
        at += 1;
    }
    let ghost figures = class@;
    let mut result = ExportResult::new();
    result.class = class;
    result.healers_number = healers_number;
    result.clear_time_median = clear_time_median;
    result.clear_time_percentile_90 = clear_time_percentile_90;
    proof {
        assert(at == CLASS_COUNT);
        assert(result.class@ == figures);
        assert forall|c: Class|
            (exists|i: int| 0 <= i < result.class@.len() && (#[trigger] result.class@[i]).0 == c)
                <==> (listed.contains_key(c) && stats.samples[c].len() > 0) by {
            crate::class::lemma_rank_at(c, 0);
        }
    }
    Ok(result)
}

} // verus!
