//! The mathematical model of the statistics store: what a window's
//! statistics hold, what one record adds to them, and what merging records
//! into a store yields. Contracts and laws are stated over this model.

use crate::class::Class;
use crate::parse::MemberModel;
use crate::parse::RecordModel;
use crate::text::u32_text;
use crate::window::resolved;
use crate::window::LabelModel;
use crate::window::ResolverModel;
use vstd::multiset::Multiset;
use vstd::prelude::*;

verus! {

/// The bucket of a damage value: the value rounded down to a multiple of
/// the step.
pub open spec fn stepped(dps: u32, step: u32) -> u32
    recommends
        step > 0,
{
    ((dps / step) * step) as u32
}

/// The statistics of one encounter in one window, without regard to the
/// order in which records came: per class the raw damage values and the
/// buckets they were counted under, the number of healers of each encounter,
/// and the clear time of each encounter.
pub struct StatsModel {
    pub samples: Map<Class, Multiset<u32>>,
    pub buckets: Map<Class, Multiset<u32>>,
    pub healers: Multiset<int>,
    pub clear_times: Multiset<u64>,
}

impl StatsModel {
    /// The statistics of no encounter.
    pub open spec fn empty() -> StatsModel {
        StatsModel {
            samples: Map::new(|c: Class| true, |c: Class| Multiset::<u32>::empty()),
            buckets: Map::new(|c: Class| true, |c: Class| Multiset::<u32>::empty()),
            healers: Multiset::empty(),
            clear_times: Multiset::empty(),
        }
    }

    /// Whether the statistics speak of every class.
    pub open spec fn complete(self) -> bool {
        forall|c: Class| #[trigger] self.samples.contains_key(c) && self.buckets.contains_key(c)
    }

    /// The statistics of two sets of encounters taken together.
    pub open spec fn plus(self, other: StatsModel) -> StatsModel {
        StatsModel {
            samples: Map::new(|c: Class| true, |c: Class| self.samples[c].add(other.samples[c])),
            buckets: Map::new(|c: Class| true, |c: Class| self.buckets[c].add(other.buckets[c])),
            healers: self.healers.add(other.healers),
            clear_times: self.clear_times.add(other.clear_times),
        }
    }

    /// The number of encounters that the statistics hold.
    pub open spec fn encounters(self) -> nat {
        self.clear_times.len()
    }
}

/// The class of a participant: the one that the catalog gives for the
/// participant's class name, if it gives one.
pub open spec fn member_class(member: MemberModel, catalog: Map<Seq<char>, Class>) -> Option<
    Class,
> {
    if catalog.contains_key(member.class_name) {
        Some(catalog[member.class_name])
    } else {
        None
    }
}

/// The damage of a participant: the number that its damage text denotes, or
/// zero where the text denotes no number that fits 32 bits.
pub open spec fn member_dps(member: MemberModel) -> u32 {
    match u32_text(member.dps) {
        Some(v) => v,
        None => 0,
    }
}

/// The damage values of the participants of one class.
pub open spec fn class_samples(
    members: Seq<MemberModel>,
    catalog: Map<Seq<char>, Class>,
    class: Class,
) -> Multiset<u32>
    decreases members.len(),
{
    if members.len() == 0 {
        Multiset::empty()
    } else {
        let rest = class_samples(members.drop_last(), catalog, class);
        if member_class(members.last(), catalog) == Some(class) {
            rest.insert(member_dps(members.last()))
        } else {
            rest
        }
    }
}

/// The buckets of the damage values of the participants of one class.
pub open spec fn class_buckets(
    members: Seq<MemberModel>,
    catalog: Map<Seq<char>, Class>,
    step: u32,
    class: Class,
) -> Multiset<u32>
    decreases members.len(),
{
    if members.len() == 0 {
        Multiset::empty()
    } else {
        let rest = class_buckets(members.drop_last(), catalog, step, class);
        if member_class(members.last(), catalog) == Some(class) {
            rest.insert(stepped(member_dps(members.last()), step))
        } else {
            rest
        }
    }
}

/// The number of participants whose class is a healer's.
pub open spec fn healer_tally(members: Seq<MemberModel>, catalog: Map<Seq<char>, Class>) -> nat
    decreases members.len(),
{
    if members.len() == 0 {
        0
    } else {
        let rest = healer_tally(members.drop_last(), catalog);
        match member_class(members.last(), catalog) {
            Some(class) => if class.healer() {
                rest + 1
            } else {
                rest
            },
            None => rest,
        }
    }
}

/// What one record adds to the statistics of its window: the damage of
/// every participant of a known class under that class, one count of its
/// number of healers, and its clear time.
pub open spec fn record_stats(
    record: RecordModel,
    catalog: Map<Seq<char>, Class>,
    step: u32,
) -> StatsModel {
    StatsModel {
        samples: Map::new(
            |c: Class| true,
            |c: Class| class_samples(record.members, catalog, c),
        ),
        buckets: Map::new(
            |c: Class| true,
            |c: Class| class_buckets(record.members, catalog, step, c),
        ),
        healers: Multiset::singleton(healer_tally(record.members, catalog) as int),
        clear_times: Multiset::singleton(record.fight_duration),
    }
}

/// The damage values of the participants of one class, in the order of the
/// participants.
pub open spec fn class_values(
    members: Seq<MemberModel>,
    catalog: Map<Seq<char>, Class>,
    class: Class,
) -> Seq<u32>
    decreases members.len(),
{
    if members.len() == 0 {
        Seq::empty()
    } else {
        let rest = class_values(members.drop_last(), catalog, class);
        if member_class(members.last(), catalog) == Some(class) {
            rest.push(member_dps(members.last()))
        } else {
            rest
        }
    }
}

/// The lists of one encounter in one window, in the order in which records
/// came: per class the raw damage values, and the clear times.
pub struct StatsLists {
    pub raw: Map<Class, Seq<u32>>,
    pub clear_times: Seq<u64>,
}

impl StatsLists {
    /// The lists of no encounter.
    pub open spec fn empty() -> StatsLists {
        StatsLists {
            raw: Map::new(|c: Class| true, |c: Class| Seq::<u32>::empty()),
            clear_times: Seq::empty(),
        }
    }

    /// These lists, each followed by the list of the other.
    pub open spec fn followed_by(self, other: StatsLists) -> StatsLists {
        StatsLists {
            raw: Map::new(|c: Class| true, |c: Class| self.raw[c] + other.raw[c]),
            clear_times: self.clear_times + other.clear_times,
        }
    }
}

/// What one record appends to the lists of its window: the damage of its
/// participants of each known class, in their order, and its clear time.
pub open spec fn record_lists(record: RecordModel, catalog: Map<Seq<char>, Class>) -> StatsLists {
    StatsLists {
        raw: Map::new(|c: Class| true, |c: Class| class_values(record.members, catalog, c)),
        clear_times: seq![record.fight_duration],
    }
}

/// The histogram of a collection of buckets: each bucket that occurs, with
/// the number of times it occurs, and no other.
pub open spec fn histogram_of(buckets: Multiset<u32>) -> Map<u32, usize> {
    Map::new(|k: u32| buckets.count(k) > 0, |k: u32| buckets.count(k) as usize)
}

/// Whether a healer histogram ends with a number of healers that was
/// counted: it has no position more than it needs.
pub open spec fn trimmed(histogram: Seq<usize>) -> bool {
    histogram.len() == 0 || histogram.last() > 0
}

/// What the statistics of a store are filed under: the encounter, the
/// region and the window.
pub struct StoreKey {
    pub area_id: u32,
    pub boss_id: u32,
    pub region: Seq<char>,
    pub label: LabelModel,
}

/// The key that a record is filed under, if its timestamp falls into a
/// window of its region.
pub open spec fn record_key(record: RecordModel, resolver: ResolverModel) -> Option<StoreKey> {
    match resolved(resolver, record.region(), record.timestamp) {
        Some(label) => Some(
            StoreKey {
                area_id: record.area_id,
                boss_id: record.boss_id,
                region: record.region(),
                label,
            },
        ),
        None => None,
    }
}

/// The statistics that a store holds under a key: those of no encounter
/// where it holds none.
pub open spec fn stats_at(store: Map<StoreKey, StatsModel>, key: StoreKey) -> StatsModel {
    if store.contains_key(key) {
        store[key]
    } else {
        StatsModel::empty()
    }
}

/// A store after one record was merged into it. A record whose timestamp
/// falls into no window leaves the store as it is; any other is added to the
/// statistics under its key.
pub open spec fn merged(
    store: Map<StoreKey, StatsModel>,
    record: RecordModel,
    catalog: Map<Seq<char>, Class>,
    resolver: ResolverModel,
    step: u32,
) -> Map<StoreKey, StatsModel> {
    match record_key(record, resolver) {
        Some(key) => store.insert(
            key,
            stats_at(store, key).plus(record_stats(record, catalog, step)),
        ),
        None => store,
    }
}

/// A store after a batch of records was merged into it, one after the
/// other.
pub open spec fn merged_all(
    store: Map<StoreKey, StatsModel>,
    records: Seq<RecordModel>,
    catalog: Map<Seq<char>, Class>,
    resolver: ResolverModel,
    step: u32,
) -> Map<StoreKey, StatsModel>
    decreases records.len(),
{
    if records.len() == 0 {
        store
    } else {
        merged(
            merged_all(store, records.drop_last(), catalog, resolver, step),
            records.last(),
            catalog,
            resolver,
            step,
        )
    }
}

/// The lists that a store holds under a key: those of no encounter where it
/// holds none.
pub open spec fn lists_at(store: Map<StoreKey, StatsLists>, key: StoreKey) -> StatsLists {
    if store.contains_key(key) {
        store[key]
    } else {
        StatsLists::empty()
    }
}

/// The lists of a store after one record was merged into it: the record's
/// values come after those that the lists of its window held before, and
/// every other list stays as it is.
pub open spec fn listed(
    store: Map<StoreKey, StatsLists>,
    record: RecordModel,
    catalog: Map<Seq<char>, Class>,
    resolver: ResolverModel,
) -> Map<StoreKey, StatsLists> {
    match record_key(record, resolver) {
        Some(key) => store.insert(key, lists_at(store, key).followed_by(record_lists(record, catalog))),
        None => store,
    }
}

/// The lists of a store after a batch of records was merged into it, one
/// after the other.
pub open spec fn listed_all(
    store: Map<StoreKey, StatsLists>,
    records: Seq<RecordModel>,
    catalog: Map<Seq<char>, Class>,
    resolver: ResolverModel,
) -> Map<StoreKey, StatsLists>
    decreases records.len(),
{
    if records.len() == 0 {
        store
    } else {
        listed(
            listed_all(store, records.drop_last(), catalog, resolver),
            records.last(),
            catalog,
            resolver,
        )
    }
}

} // verus!
