//! The statistics store: the statistics of every encounter, region and
//! window that a record was filed under, and the merging of records into it.

use crate::bidir_map::BidirMap;
use crate::model::listed;
use crate::model::listed_all;
use crate::model::lists_at;
use crate::model::merged;
use crate::model::merged_all;
use crate::model::record_key;
use crate::model::stats_at;
use crate::model::StatsLists;
use crate::model::StatsModel;
use crate::model::StoreKey;
use crate::parse::batch_model;
use crate::parse::StatsLog;
use crate::process::DungeonData;
use crate::process::Fight;
use crate::text::prefix_before_dot;
use crate::window::label_model;
use crate::window::WindowLabel;
use crate::window::WindowResolver;
use vstd::prelude::*;

verus! {

/// The statistics filed under one encounter, region and window.
pub struct StoreEntry {
    pub fight: Fight,
    pub region: String,
    pub label: WindowLabel,
    pub stats: DungeonData,
}

impl StoreEntry {
    /// The key that the entry is filed under.
    pub open spec fn key(&self) -> StoreKey {
        StoreKey {
            area_id: self.fight.area_id,
            boss_id: self.fight.boss_id,
            region: self.region@,
            label: self.label@,
        }
    }
}

/// Whether no two entries of a list are filed under the same key.
pub open spec fn keys_distinct(entries: Seq<StoreEntry>) -> bool {
    forall|i: int, j: int|
        0 <= i < j < entries.len() ==> (#[trigger] entries[i]).key() != (#[trigger] entries[j]).key()
}

/// Whether a list of entries holds a key.
pub open spec fn holds_key(entries: Seq<StoreEntry>, key: StoreKey) -> bool {
    exists|i: int| 0 <= i < entries.len() && (#[trigger] entries[i]).key() == key
}

/// The position of a key in a list of entries that holds it.
pub open spec fn position_of(entries: Seq<StoreEntry>, key: StoreKey) -> int {
    choose|i: int| 0 <= i < entries.len() && (#[trigger] entries[i]).key() == key
}

/// What a list of entries holds: under each key the statistics filed under
/// it.
pub open spec fn table(entries: Seq<StoreEntry>) -> Map<StoreKey, StatsModel> {
    Map::new(
        |key: StoreKey| holds_key(entries, key),
        |key: StoreKey| entries[position_of(entries, key)].stats@,
    )
}

/// An entry's statistics are what the table holds under its key.
pub proof fn lemma_table_at(entries: Seq<StoreEntry>, i: int)
    requires
        keys_distinct(entries),
        0 <= i < entries.len(),
    ensures
        table(entries).contains_key(entries[i].key()),
        table(entries)[entries[i].key()] == entries[i].stats@,
        position_of(entries, entries[i].key()) == i,
{
    let key = entries[i].key();
    let p = position_of(entries, key);
    assert(holds_key(entries, key));
    if p < i {
        assert(entries[p].key() != entries[i].key());
    } else if i < p {
        assert(entries[i].key() != entries[p].key());
    }
}

/// Replacing the statistics of an entry replaces what the table holds under
/// its key, and nothing else.
pub proof fn lemma_table_update(entries: Seq<StoreEntry>, i: int, entry: StoreEntry)
    requires
        keys_distinct(entries),
        0 <= i < entries.len(),
        entry.key() == entries[i].key(),
    ensures
        keys_distinct(entries.update(i, entry)),
        table(entries.update(i, entry)) == table(entries).insert(entry.key(), entry.stats@),
{
    let after = entries.update(i, entry);
    assert forall|a: int, b: int| 0 <= a < b < after.len() implies (#[trigger] after[a]).key() != (
    #[trigger] after[b]).key() by {
        assert(after[a].key() == entries[a].key());
        assert(after[b].key() == entries[b].key());
    }
    let target = table(entries).insert(entry.key(), entry.stats@);
    assert forall|key: StoreKey| #[trigger] table(after).contains_key(key) == target.contains_key(
        key,
    ) by {
        if holds_key(after, key) {
            let p = position_of(after, key);
            assert(entries[p].key() == key);
        }
        if holds_key(entries, key) {
            let p = position_of(entries, key);
            assert(after[p].key() == key);
        }
        if key == entry.key() {
            assert(after[i].key() == key);
        }
    }
    assert forall|key: StoreKey| #[trigger] table(after).contains_key(key) implies table(
        after,
    )[key] == target[key] by {
        let p = position_of(after, key);
        lemma_table_at(after, p);
        if p == i {
        } else {
            assert(entries[p].key() == key);
            lemma_table_at(entries, p);
            lemma_table_at(entries, i);
        }
    }
    assert(table(after) =~= target);
}

/// Adding an entry under a new key adds its statistics to the table, and
/// changes nothing else.
pub proof fn lemma_table_push(entries: Seq<StoreEntry>, entry: StoreEntry)
    requires
        keys_distinct(entries),
        !holds_key(entries, entry.key()),
    ensures
        keys_distinct(entries.push(entry)),
        table(entries.push(entry)) == table(entries).insert(entry.key(), entry.stats@),
{
    let after = entries.push(entry);
    assert forall|a: int, b: int| 0 <= a < b < after.len() implies (#[trigger] after[a]).key() != (
    #[trigger] after[b]).key() by {
        assert(after[a] == entries[a]);
        if b < entries.len() {
            assert(after[b] == entries[b]);
        } else {
            assert(after[b] == entry);
            if entries[a].key() == entry.key() {
                assert(holds_key(entries, entry.key()));
            }
        }
    }
    let target = table(entries).insert(entry.key(), entry.stats@);
    assert forall|key: StoreKey| #[trigger] table(after).contains_key(key) == target.contains_key(
        key,
    ) by {
        if holds_key(after, key) {
            let p = position_of(after, key);
            if p < entries.len() {
                assert(entries[p].key() == key);
            }
        }
        if holds_key(entries, key) {
            let p = position_of(entries, key);
            assert(after[p].key() == key);
        }
        if key == entry.key() {
            assert(after[entries.len() as int].key() == key);
        }
    }
    assert forall|key: StoreKey| #[trigger] table(after).contains_key(key) implies table(
        after,
    )[key] == target[key] by {
        let p = position_of(after, key);
        lemma_table_at(after, p);
        if p < entries.len() {
            assert(entries[p].key() == key);
            lemma_table_at(entries, p);
        }
    }
    assert(table(after) =~= target);
}

/// What a list of entries holds in order of arrival: under each key the
/// lists filed under it.
pub open spec fn lists_table(entries: Seq<StoreEntry>) -> Map<StoreKey, StatsLists> {
    Map::new(
        |key: StoreKey| holds_key(entries, key),
        |key: StoreKey| entries[position_of(entries, key)].stats.lists(),
    )
}

/// An entry's lists are what the table of lists holds under its key.
pub proof fn lemma_lists_at(entries: Seq<StoreEntry>, i: int)
    requires
        keys_distinct(entries),
        0 <= i < entries.len(),
    ensures
        lists_table(entries).contains_key(entries[i].key()),
        lists_table(entries)[entries[i].key()] == entries[i].stats.lists(),
{
    lemma_table_at(entries, i);
}

/// Replacing the statistics of an entry replaces the lists held under its
/// key, and no others.
pub proof fn lemma_lists_update(entries: Seq<StoreEntry>, i: int, entry: StoreEntry)
    requires
        keys_distinct(entries),
        0 <= i < entries.len(),
        entry.key() == entries[i].key(),
    ensures
        lists_table(entries.update(i, entry)) == lists_table(entries).insert(
            entry.key(),
            entry.stats.lists(),
        ),
{
    let after = entries.update(i, entry);
    let target = lists_table(entries).insert(entry.key(), entry.stats.lists());
    lemma_table_update(entries, i, entry);
    assert forall|key: StoreKey| #[trigger]
        lists_table(after).contains_key(key) == target.contains_key(key) by {
        assert(table(after).contains_key(key) == table(entries).insert(
            entry.key(),
            entry.stats@,
        ).contains_key(key));
    }
    assert forall|key: StoreKey| #[trigger] lists_table(after).contains_key(key) implies lists_table(
        after,
    )[key] == target[key] by {
        let p = position_of(after, key);
        lemma_table_at(after, p);
        if p != i {
            assert(entries[p].key() == key);
            lemma_table_at(entries, p);
            lemma_table_at(entries, i);
        }
    }
    assert(lists_table(after) =~= target);
}

/// Adding an entry under a new key adds its lists, and changes no others.
pub proof fn lemma_lists_push(entries: Seq<StoreEntry>, entry: StoreEntry)
    requires
        keys_distinct(entries),
        !holds_key(entries, entry.key()),
    ensures
        lists_table(entries.push(entry)) == lists_table(entries).insert(
            entry.key(),
            entry.stats.lists(),
        ),
{
    let after = entries.push(entry);
    let target = lists_table(entries).insert(entry.key(), entry.stats.lists());
    lemma_table_push(entries, entry);
    assert forall|key: StoreKey| #[trigger]
        lists_table(after).contains_key(key) == target.contains_key(key) by {
        assert(table(after).contains_key(key) == table(entries).insert(
            entry.key(),
            entry.stats@,
        ).contains_key(key));
    }
    assert forall|key: StoreKey| #[trigger] lists_table(after).contains_key(key) implies lists_table(
        after,
    )[key] == target[key] by {
        let p = position_of(after, key);
        lemma_table_at(after, p);
        if p < entries.len() {
            assert(entries[p].key() == key);
            lemma_table_at(entries, p);
        }
    }
    assert(lists_table(after) =~= target);
}

/// The keys of a list of entries, in order.
pub open spec fn entry_keys(entries: Seq<StoreEntry>) -> Seq<StoreKey> {
    Seq::new(entries.len(), |i: int| entries[i].key())
}

/// The keys of a store after one record was merged into it: the key of the
/// record comes last where it is new, and the others stay as they are.
pub open spec fn keys_after(
    keys: Seq<StoreKey>,
    record: crate::parse::RecordModel,
    resolver: crate::window::ResolverModel,
) -> Seq<StoreKey> {
    match record_key(record, resolver) {
        Some(key) => if keys.contains(key) {
            keys
        } else {
            keys.push(key)
        },
        None => keys,
    }
}

/// The keys of a store after a batch of records was merged into it: the
/// keys in the order in which they first came.
pub open spec fn keys_after_all(
    keys: Seq<StoreKey>,
    records: Seq<crate::parse::RecordModel>,
    resolver: crate::window::ResolverModel,
) -> Seq<StoreKey>
    decreases records.len(),
{
    if records.len() == 0 {
        keys
    } else {
        keys_after(keys_after_all(keys, records.drop_last(), resolver), records.last(), resolver)
    }
}

/// The statistics store.
pub struct GlobalData {
    entries: Vec<StoreEntry>,
}

impl View for GlobalData {
    type V = Map<StoreKey, StatsModel>;

    closed spec fn view(&self) -> Map<StoreKey, StatsModel> {
        table(self.entries@)
    }
}

impl GlobalData {
    /// The invariant of the store: no two entries are filed under the same
    /// key, and the statistics of each entry keep their own invariant.
    pub closed spec fn wf(&self) -> bool {
        &&& keys_distinct(self.entries@)
        &&& forall|i: int| 0 <= i < self.entries@.len() ==> (#[trigger] self.entries@[i]).stats.wf()
    }

    /// The entries of the store, in the order in which their keys first
    /// came.
    pub closed spec fn listing(&self) -> Seq<StoreEntry> {
        self.entries@
    }

    /// The lists of the store, in the order in which records came: under
    /// each key the raw damage values of every class and the clear times.
    pub closed spec fn lists(&self) -> Map<StoreKey, StatsLists> {
        lists_table(self.entries@)
    }

    /// An empty store.
    pub fn new() -> (r: GlobalData)
        ensures
            r.wf(),
            r@ == Map::<StoreKey, StatsModel>::empty(),
            r.lists() == Map::<StoreKey, StatsLists>::empty(),
            r.listing().len() == 0,
    {
        let r = GlobalData { entries: Vec::new() };
        assert(r@ =~= Map::<StoreKey, StatsModel>::empty());
        assert(r.lists() =~= Map::<StoreKey, StatsLists>::empty());
        r
    }

    /// The number of entries of the store.
    pub fn len(&self) -> (n: usize)
        ensures
            n == self.listing().len(),
    {
        self.entries.len()
    }

    /// The entry at a position.
    pub fn entry(&self, at: usize) -> (r: &StoreEntry)
        requires
            at < self.listing().len(),
        ensures
            *r == self.listing()[at as int],
            self.wf() ==> r.stats.wf(),
            self@.contains_key(r.key()),
            self.wf() ==> self@[r.key()] == r.stats@,
            self.wf() ==> self.lists()[r.key()] == r.stats.lists(),
    {
        proof {
            assert(holds_key(self.entries@, self.entries@[at as int].key()));
            if self.wf() {
                lemma_table_at(self.entries@, at as int);
                lemma_lists_at(self.entries@, at as int);
            }
        }
        &self.entries[at]
    }

    /// The entries of the store: each holds the statistics that the store
    /// holds under its key, and no two share a key.
    pub fn into_entries(self) -> (r: Vec<StoreEntry>)
        ensures
            r@ == self.listing(),
            table(r@) == self@,
            lists_table(r@) == self.lists(),
            self.wf() ==> keys_distinct(r@) && forall|i: int|
                0 <= i < r@.len() ==> (#[trigger] r@[i]).stats.wf(),
    {
        self.entries
    }

    /// The position of the entry filed under an encounter, a region and a
    /// window, if there is one.
    fn find(&self, fight: Fight, region: &str, label: &WindowLabel) -> (r: Option<usize>)
        ensures
            match r {
                Some(at) => at < self.entries@.len() && self.entries@[at as int].key() == (
                StoreKey {
                    area_id: fight.area_id,
                    boss_id: fight.boss_id,
                    region: region@,
                    label: label@,
                }),
                None => !holds_key(
                    self.entries@,
                    StoreKey {
                        area_id: fight.area_id,
                        boss_id: fight.boss_id,
                        region: region@,
                        label: label@,
                    },
                ),
            },
    {
        let ghost key = StoreKey {
            area_id: fight.area_id,
            boss_id: fight.boss_id,
            region: region@,
            label: label@,
        };
        let mut i: usize = 0;
        while i < self.entries.len()
            invariant
                i <= self.entries.len(),
                key == (StoreKey {
                    area_id: fight.area_id,
                    boss_id: fight.boss_id,
                    region: region@,
                    label: label@,
                }),
                forall|j: int| 0 <= j < i ==> (#[trigger] self.entries@[j]).key() != key,
            decreases self.entries.len() - i,
        {
            let entry = &self.entries[i];
            if entry.fight.area_id == fight.area_id && entry.fight.boss_id == fight.boss_id
                && entry.region.as_str().eq(region) && entry.label.same(label) {
                return Some(i);
            }
            i += 1;
        }
        None
    }

    /// The statistics filed under an encounter, a region and a window, if
    /// the store holds any.
    pub fn get(&self, fight: Fight, region: &str, label: &WindowLabel) -> (r: Option<&DungeonData>)
        ensures
            match r {
                Some(stats) => self@.contains_key(
                    StoreKey {
                        area_id: fight.area_id,
                        boss_id: fight.boss_id,
                        region: region@,
                        label: label@,
                    },
                ) && (self.wf() ==> stats.wf() && stats@ == self@[StoreKey {
                    area_id: fight.area_id,
                    boss_id: fight.boss_id,
                    region: region@,
                    label: label@,
                }] && stats.lists() == self.lists()[StoreKey {
                    area_id: fight.area_id,
                    boss_id: fight.boss_id,
                    region: region@,
                    label: label@,
                }]),
                None => !self@.contains_key(
                    StoreKey {
                        area_id: fight.area_id,
                        boss_id: fight.boss_id,
                        region: region@,
                        label: label@,
                    },
                ),
            },
    {
        match self.find(fight, region, label) {
            Some(at) => {
                proof {
                    assert(holds_key(self.entries@, self.entries@[at as int].key()));
                    if self.wf() {
                        lemma_table_at(self.entries@, at as int);
                        lemma_lists_at(self.entries@, at as int);
                    }
                }
                Some(&self.entries[at].stats)
            },
            None => None,
        }
    }

    /// Merges one record into the store. A record whose timestamp falls into
    /// no window of its region leaves the store as it is.
    pub fn merge(
        &mut self,
        stat: &StatsLog,
        dps_steps: u32,
        class_map: &BidirMap,
        resolver: &WindowResolver,
    )
        requires
            old(self).wf(),
            dps_steps > 0,
        ensures
            final(self).wf(),
            final(self)@ == merged(
                old(self)@,
                stat@,
                class_map@.first_second,
                resolver@,
                dps_steps,
            ),
            final(self).lists() == listed(
                old(self).lists(),
                stat@,
                class_map@.first_second,
                resolver@,
            ),
            entry_keys(final(self).listing()) == keys_after(
                entry_keys(old(self).listing()),
                stat@,
                resolver@,
            ),
    {
        let region = prefix_before_dot(stat.directory.as_str());
        let resolved = resolver.resolve(region, stat.content.timestamp);
        assert(label_model(resolved) == crate::window::resolved(
            resolver@,
            stat@.region(),
            stat@.timestamp,
        ));
        match resolved {
            None => {},
            Some(label) => {
                let fight = Fight::new(stat.content.area_id, stat.content.boss_id);
                let ghost key = record_key(stat@, resolver@)->0;
                let ghost before = self.entries@;
                proof {
                    if holds_key(before, key) {
                        let p = position_of(before, key);
                        assert(entry_keys(before)[p] == key);
                    }
                    if entry_keys(before).contains(key) {
                        let p = choose|p: int|
                            0 <= p < entry_keys(before).len() && entry_keys(before)[p] == key;
                        assert(before[p].key() == key);
                    }
                }
                let at: usize = match self.find(fight, region, &label) {
                    Some(at) => at,
                    None => {
                        let entry = StoreEntry {
                            fight,
                            region: region.to_owned(),
                            label,
                            stats: DungeonData::new(),
                        };
                        proof {
                            lemma_table_push(before, entry);
                            lemma_lists_push(before, entry);
                        }
                        self.entries.push(entry);
                        self.entries.len() - 1
                    },
                };
                let ghost held = self.entries@;
                proof {
                    lemma_table_at(held, at as int);
                    assert(held[at as int].stats@ == stats_at(table(before), key)) by {
                        if holds_key(before, key) {
                            lemma_table_at(before, at as int);
                        }
                    }
                    lemma_lists_at(held, at as int);
                    assert(held[at as int].stats.lists() == lists_at(lists_table(before), key)) by {
                        if holds_key(before, key) {
                            lemma_lists_at(before, at as int);
                        }
                    }
                }
                let entry = &mut self.entries[at];
                entry.stats.record(stat, class_map, dps_steps);
                proof {
                    let after = self.entries@;
                    assert(after =~= held.update(at as int, after[at as int]));
                    lemma_table_update(held, at as int, after[at as int]);
                    assert(table(after) =~= table(before).insert(key, after[at as int].stats@));
                    lemma_lists_update(held, at as int, after[at as int]);
                    assert(lists_table(after) =~= lists_table(before).insert(
                        key,
                        after[at as int].stats.lists(),
                    ));
                    assert(entry_keys(after) =~= entry_keys(held));
                    assert(entry_keys(held) =~= keys_after(entry_keys(before), stat@, resolver@));
                    assert forall|i: int| 0 <= i < after.len() implies (#[trigger] after[i]).stats.wf() by {
                        if i != at {
                            assert(after[i] == held[i]);
                            if i < before.len() {
                                assert(held[i] == before[i]);
                            }
                        }
                    }
                }
            },
        }
    }
}

/// Merges a batch of records into the store, one after the other. Records
/// whose timestamp falls into no window of their region are passed over.
pub fn store(
    contents: Vec<StatsLog>,
    dps_steps: u32,
    data: &mut GlobalData,
    class_map: &BidirMap,
    resolver: &WindowResolver,
)
    requires
        old(data).wf(),
        dps_steps > 0,
    ensures
        final(data).wf(),
        final(data)@ == merged_all(
            old(data)@,
            batch_model(contents@),
            class_map@.first_second,
            resolver@,
            dps_steps,
        ),
        final(data).lists() == listed_all(
            old(data).lists(),
            batch_model(contents@),
            class_map@.first_second,
            resolver@,
        ),
        entry_keys(final(data).listing()) == keys_after_all(
            entry_keys(old(data).listing()),
            batch_model(contents@),
            resolver@,
        ),
{
    let ghost all = batch_model(contents@);
    let ghost catalog = class_map@.first_second;
    let mut i: usize = 0;
    assert(all.take(0) =~= Seq::<crate::parse::RecordModel>::empty());
    while i < contents.len()
        invariant
            i <= contents.len(),
            dps_steps > 0,
            all == batch_model(contents@),
            catalog == class_map@.first_second,
            data.wf(),
            data@ == merged_all(old(data)@, all.take(i as int), catalog, resolver@, dps_steps),
            data.lists() == listed_all(old(data).lists(), all.take(i as int), catalog, resolver@),
            entry_keys(data.listing()) == keys_after_all(
                entry_keys(old(data).listing()),
                all.take(i as int),
                resolver@,
            ),
        decreases contents.len() - i,
    {
        proof {
            assert(all.take(i as int + 1).drop_last() =~= all.take(i as int));
            assert(all.take(i as int + 1).last() == contents@[i as int]@);
        }
        data.merge(&contents[i], dps_steps, class_map, resolver);
        i += 1;
    }
    assert(all.take(i as int) =~= all);
}

} // verus!
