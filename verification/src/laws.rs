//! Laws of the store: merging records gives the same statistics in whatever
//! order they are merged, every state of a store is balanced, merging only
//! appends to the lists of a store, and the figures of a window are a
//! function of its statistics.

use crate::class::Class;
use crate::model::class_buckets;
use crate::model::class_samples;
use crate::model::listed;
use crate::model::listed_all;
use crate::model::StatsLists;
use crate::model::merged;
use crate::model::merged_all;
use crate::model::record_key;
use crate::model::record_stats;
use crate::model::stats_at;
use crate::model::StatsModel;
use crate::model::StoreKey;
use crate::parse::MemberModel;
use crate::process::summarizes;
use crate::process::ExportResult;
use crate::parse::RecordModel;
use crate::window::ResolverModel;
use vstd::prelude::*;

verus! {

/// Adding two sets of statistics to a third gives the same whichever is
/// added first.
pub proof fn lemma_plus_commutes(base: StatsModel, a: StatsModel, b: StatsModel)
    ensures
        base.plus(a).plus(b) == base.plus(b).plus(a),
{
    broadcast use vstd::multiset::group_multiset_axioms;

    let left = base.plus(a).plus(b);
    let right = base.plus(b).plus(a);
    assert forall|c: Class| #[trigger] left.samples[c] == right.samples[c] by {
        assert(base.samples[c].add(a.samples[c]).add(b.samples[c]) =~= base.samples[c].add(
            b.samples[c],
        ).add(a.samples[c]));
    }
    assert forall|c: Class| #[trigger] left.buckets[c] == right.buckets[c] by {
        assert(base.buckets[c].add(a.buckets[c]).add(b.buckets[c]) =~= base.buckets[c].add(
            b.buckets[c],
        ).add(a.buckets[c]));
    }
    assert(left.samples =~= right.samples);
    assert(left.buckets =~= right.buckets);
    assert(left.healers =~= right.healers);
    assert(left.clear_times =~= right.clear_times);
}

/// Merging two records into a store gives the same store whichever is
/// merged first.
pub proof fn lemma_merge_commutes(
    store: Map<StoreKey, StatsModel>,
    a: RecordModel,
    b: RecordModel,
    catalog: Map<Seq<char>, Class>,
    resolver: ResolverModel,
    step: u32,
)
    ensures
        merged(merged(store, a, catalog, resolver, step), b, catalog, resolver, step) == merged(
            merged(store, b, catalog, resolver, step),
            a,
            catalog,
            resolver,
            step,
        ),
{
    let left = merged(merged(store, a, catalog, resolver, step), b, catalog, resolver, step);
    let right = merged(merged(store, b, catalog, resolver, step), a, catalog, resolver, step);
    match (record_key(a, resolver), record_key(b, resolver)) {
        (Some(ka), Some(kb)) => {
            let sa = record_stats(a, catalog, step);
            let sb = record_stats(b, catalog, step);
            if ka == kb {
                lemma_plus_commutes(stats_at(store, ka), sa, sb);
            }
            assert(left =~= right);
        },
        _ => {},
    }
}

/// Merging the records `a`, `b` and then `c` gives the same store as
/// merging `c`, `a` and then `b`.
pub proof fn lemma_merge_order(
    store: Map<StoreKey, StatsModel>,
    a: RecordModel,
    b: RecordModel,
    c: RecordModel,
    catalog: Map<Seq<char>, Class>,
    resolver: ResolverModel,
    step: u32,
)
    ensures
        merged_all(
            merged_all(store, seq![a, b], catalog, resolver, step),
            seq![c],
            catalog,
            resolver,
            step,
        ) == merged_all(
            merged_all(store, seq![c, a], catalog, resolver, step),
            seq![b],
            catalog,
            resolver,
            step,
        ),
{
    reveal_with_fuel(merged_all, 3);
    assert(seq![a, b].drop_last() =~= seq![a]);
    assert(seq![c, a].drop_last() =~= seq![c]);
    assert(seq![a].drop_last() =~= Seq::<RecordModel>::empty());
    assert(seq![b].drop_last() =~= Seq::<RecordModel>::empty());
    assert(seq![c].drop_last() =~= Seq::<RecordModel>::empty());
    let sa = merged(store, a, catalog, resolver, step);
    let sc = merged(store, c, catalog, resolver, step);
    assert(merged_all(store, seq![a], catalog, resolver, step) == sa);
    assert(merged_all(store, seq![c], catalog, resolver, step) == sc);
    lemma_merge_commutes(sa, b, c, catalog, resolver, step);
    lemma_merge_commutes(store, a, c, catalog, resolver, step);
}

/// Merging a batch is merging all its records but one, and then that one.
pub proof fn lemma_merge_last(
    store: Map<StoreKey, StatsModel>,
    records: Seq<RecordModel>,
    at: int,
    catalog: Map<Seq<char>, Class>,
    resolver: ResolverModel,
    step: u32,
)
    requires
        0 <= at < records.len(),
    ensures
        merged_all(store, records, catalog, resolver, step) == merged(
            merged_all(store, records.remove(at), catalog, resolver, step),
            records[at],
            catalog,
            resolver,
            step,
        ),
    decreases records.len(),
{
    if at == records.len() - 1 {
        assert(records.remove(at) =~= records.drop_last());
    } else {
        let front = records.drop_last();
        let last = records.last();
        lemma_merge_last(store, front, at, catalog, resolver, step);
        let rest = merged_all(store, front.remove(at), catalog, resolver, step);
        lemma_merge_commutes(rest, front[at], last, catalog, resolver, step);
        assert(records.remove(at).drop_last() =~= front.remove(at));
        assert(records.remove(at).last() == last);
    }
}

/// Merging two batches that hold the same records, in whatever order, gives
/// the same store.
pub proof fn lemma_merge_any_order(
    store: Map<StoreKey, StatsModel>,
    first: Seq<RecordModel>,
    second: Seq<RecordModel>,
    catalog: Map<Seq<char>, Class>,
    resolver: ResolverModel,
    step: u32,
)
    requires
        first.to_multiset() == second.to_multiset(),
    ensures
        merged_all(store, first, catalog, resolver, step) == merged_all(
            store,
            second,
            catalog,
            resolver,
            step,
        ),
    decreases second.len(),
{
    broadcast use vstd::multiset::group_multiset_axioms;
    broadcast use vstd::seq_lib::group_to_multiset_ensures;

    first.to_multiset_ensures();
    second.to_multiset_ensures();
    assert(first.len() == second.len());
    if second.len() == 0 {
        assert(first =~= second);
    } else {
        let last = second.last();
        assert(second.contains(last));
        assert(first.to_multiset().count(last) > 0);
        assert(first.contains(last));
        let at = choose|at: int| 0 <= at < first.len() && first[at] == last;
        lemma_merge_last(store, first, at, catalog, resolver, step);
        assert(second.drop_last() =~= second.remove(second.len() - 1));
        assert(first.remove(at).to_multiset() =~= second.drop_last().to_multiset());
        lemma_merge_any_order(store, first.remove(at), second.drop_last(), catalog, resolver, step);
    }
}

/// Merging one batch after another is merging the two as one.
pub proof fn lemma_merge_batches(
    store: Map<StoreKey, StatsModel>,
    first: Seq<RecordModel>,
    second: Seq<RecordModel>,
    catalog: Map<Seq<char>, Class>,
    resolver: ResolverModel,
    step: u32,
)
    ensures
        merged_all(
            merged_all(store, first, catalog, resolver, step),
            second,
            catalog,
            resolver,
            step,
        ) == merged_all(store, first + second, catalog, resolver, step),
    decreases second.len(),
{
    if second.len() == 0 {
        assert(first + second =~= first);
    } else {
        lemma_merge_batches(store, first, second.drop_last(), catalog, resolver, step);
        assert((first + second).drop_last() =~= first + second.drop_last());
        assert((first + second).last() == second.last());
    }
}

/// Whether statistics are balanced: every class has as many buckets counted
/// as it has raw values, and as many healer counts are held as clear times.
pub open spec fn balanced(stats: StatsModel) -> bool {
    &&& forall|c: Class| #[trigger] stats.samples[c].len() == stats.buckets[c].len()
    &&& stats.healers.len() == stats.clear_times.len()
}

/// Whether the statistics under every key of a store are balanced.
pub open spec fn store_balanced(store: Map<StoreKey, StatsModel>) -> bool {
    forall|key: StoreKey| #[trigger] store.contains_key(key) ==> balanced(store[key])
}

/// The participants of a class give as many buckets as raw values.
pub proof fn lemma_members_balanced(
    members: Seq<MemberModel>,
    catalog: Map<Seq<char>, Class>,
    step: u32,
    class: Class,
)
    ensures
        class_samples(members, catalog, class).len() == class_buckets(
            members,
            catalog,
            step,
            class,
        ).len(),
    decreases members.len(),
{
    broadcast use vstd::multiset::group_multiset_axioms;

    if members.len() > 0 {
        lemma_members_balanced(members.drop_last(), catalog, step, class);
    }
}

/// What one record adds is balanced, and so is what balanced statistics
/// become when it is added to them.
pub proof fn lemma_record_balanced(
    base: StatsModel,
    record: RecordModel,
    catalog: Map<Seq<char>, Class>,
    step: u32,
)
    ensures
        balanced(StatsModel::empty()),
        balanced(record_stats(record, catalog, step)),
        balanced(base) ==> balanced(base.plus(record_stats(record, catalog, step))),
{
    broadcast use vstd::multiset::group_multiset_axioms;

    let added = record_stats(record, catalog, step);
    assert forall|c: Class| #[trigger] added.samples[c].len() == added.buckets[c].len() by {
        lemma_members_balanced(record.members, catalog, step, c);
    }
    if balanced(base) {
        let sum = base.plus(added);
        assert forall|c: Class| #[trigger] sum.samples[c].len() == sum.buckets[c].len() by {
            assert(base.samples[c].len() == base.buckets[c].len());
            assert(added.samples[c].len() == added.buckets[c].len());
        }
    }
}

/// Merging records keeps a store balanced: in every state that a store
/// reaches from the empty store, the counts of each histogram add up to the
/// number of the raw values it was made from.
pub proof fn lemma_merge_keeps_balance(
    store: Map<StoreKey, StatsModel>,
    records: Seq<RecordModel>,
    catalog: Map<Seq<char>, Class>,
    resolver: ResolverModel,
    step: u32,
)
    requires
        store_balanced(store),
    ensures
        store_balanced(merged_all(store, records, catalog, resolver, step)),
        store_balanced(Map::<StoreKey, StatsModel>::empty()),
    decreases records.len(),
{
    if records.len() > 0 {
        let before = merged_all(store, records.drop_last(), catalog, resolver, step);
        lemma_merge_keeps_balance(store, records.drop_last(), catalog, resolver, step);
        let record = records.last();
        match record_key(record, resolver) {
            Some(key) => {
                lemma_record_balanced(stats_at(before, key), record, catalog, step);
                let after = merged(before, record, catalog, resolver, step);
                assert forall|k: StoreKey| #[trigger] after.contains_key(k) implies balanced(
                    after[k],
                ) by {
                    if k != key {
                        assert(before.contains_key(k));
                    }
                }
            },
            None => {},
        }
    }
}

/// Whether a list of classes is in the order of the classes, each at most
/// once.
pub open spec fn classes_ascend(classes: Seq<Class>) -> bool {
    forall|i: int, j: int| 0 <= i < j < classes.len() ==> classes[i].rank() < classes[j].rank()
}

/// Two lists of classes in the order of the classes that hold the same
/// classes are the same list.
pub proof fn lemma_ascending_same(x: Seq<Class>, y: Seq<Class>)
    requires
        classes_ascend(x),
        classes_ascend(y),
        forall|c: Class| x.contains(c) <==> y.contains(c),
    ensures
        x == y,
    decreases x.len(),
{
    if x.len() == 0 {
        if y.len() > 0 {
            assert(y.contains(y[0]));
        }
        assert(x =~= y);
    } else {
        let a = x.last();
        assert(x.contains(a));
        assert(y.contains(a));
        let b = y.last();
        assert(y.contains(b));
        assert(x.contains(b));
        let ja = choose|j: int| 0 <= j < y.len() && y[j] == a;
        let jb = choose|j: int| 0 <= j < x.len() && x[j] == b;
        assert(a.rank() <= b.rank());
        assert(b.rank() <= a.rank());
        crate::class::lemma_rank_at(a, 0);
        crate::class::lemma_rank_at(b, 0);
        assert(a == b);
        let xs = x.drop_last();
        let ys = y.drop_last();
        assert forall|c: Class| xs.contains(c) <==> ys.contains(c) by {
            if xs.contains(c) {
                let i = choose|i: int| 0 <= i < xs.len() && xs[i] == c;
                assert(x[i] == c);
                assert(x.contains(c));
                assert(c.rank() < a.rank());
                let j = choose|j: int| 0 <= j < y.len() && y[j] == c;
                assert(j < y.len() - 1);
                assert(ys[j] == c);
            }
            if ys.contains(c) {
                let i = choose|i: int| 0 <= i < ys.len() && ys[i] == c;
                assert(y[i] == c);
                assert(y.contains(c));
                assert(c.rank() < b.rank());
                let j = choose|j: int| 0 <= j < x.len() && x[j] == c;
                assert(j < x.len() - 1);
                assert(xs[j] == c);
            }
        }
        lemma_ascending_same(xs, ys);
        assert(x =~= xs.push(a));
        assert(y =~= ys.push(b));
    }
}

/// The figures of a window are a function of its statistics and of the
/// classes that the catalog lists: whatever two exports of the same
/// statistics give, they give the same figures, class by class.
pub proof fn lemma_figures_agree(
    first: ExportResult,
    second: ExportResult,
    stats: StatsModel,
    listed: Map<Class, Seq<char>>,
)
    requires
        summarizes(first, stats, listed),
        summarizes(second, stats, listed),
    ensures
        first.clear_time_median == second.clear_time_median,
        first.clear_time_percentile_90 == second.clear_time_percentile_90,
        first.healers_number@ == second.healers_number@,
        first.class@.len() == second.class@.len(),
        forall|i: int|
            0 <= i < first.class@.len() ==> {
                &&& (#[trigger] first.class@[i]).0 == second.class@[i].0
                &&& first.class@[i].1.count == second.class@[i].1.count
                &&& first.class@[i].1.dps_median == second.class@[i].1.dps_median
                &&& first.class@[i].1.dps_percentile_90 == second.class@[i].1.dps_percentile_90
                &&& first.class@[i].1.stepped_dps@ == second.class@[i].1.stepped_dps@
            },
{
    let x = Seq::new(first.class@.len(), |i: int| first.class@[i].0);
    let y = Seq::new(second.class@.len(), |i: int| second.class@[i].0);
    assert(classes_ascend(x)) by {
        assert forall|i: int, j: int| 0 <= i < j < x.len() implies x[i].rank() < x[j].rank() by {
            assert(first.class@[i].0.rank() < first.class@[j].0.rank());
        }
    }
    assert(classes_ascend(y)) by {
        assert forall|i: int, j: int| 0 <= i < j < y.len() implies y[i].rank() < y[j].rank() by {
            assert(second.class@[i].0.rank() < second.class@[j].0.rank());
        }
    }
    assert forall|c: Class| x.contains(c) <==> y.contains(c) by {
        let held = listed.contains_key(c) && stats.samples[c].len() > 0;
        if x.contains(c) {
            let i = choose|i: int| 0 <= i < x.len() && x[i] == c;
            assert(first.class@[i].0 == c);
            assert(held);
            let j = choose|j: int| 0 <= j < second.class@.len() && (#[trigger] second.class@[j]).0 == c;
            assert(y[j] == c);
        }
        if y.contains(c) {
            let i = choose|i: int| 0 <= i < y.len() && y[i] == c;
            assert(second.class@[i].0 == c);
            assert(held);
            let j = choose|j: int| 0 <= j < first.class@.len() && (#[trigger] first.class@[j]).0 == c;
            assert(x[j] == c);
        }
    }
    lemma_ascending_same(x, y);
    assert forall|i: int| 0 <= i < first.class@.len() implies {
        &&& (#[trigger] first.class@[i]).0 == second.class@[i].0
        &&& first.class@[i].1.count == second.class@[i].1.count
        &&& first.class@[i].1.dps_median == second.class@[i].1.dps_median
        &&& first.class@[i].1.dps_percentile_90 == second.class@[i].1.dps_percentile_90
        &&& first.class@[i].1.stepped_dps@ == second.class@[i].1.stepped_dps@
    } by {
        assert(x[i] == y[i]);
        assert(second.class@[i].0 == y[i]);
    }
}

/// Merging one record only appends: every key of the store stays, and under
/// each the clear times and the raw values of every class that were held
/// before come first, in their order.
pub proof fn lemma_lists_append(
    store: Map<StoreKey, StatsLists>,
    record: RecordModel,
    catalog: Map<Seq<char>, Class>,
    resolver: ResolverModel,
    key: StoreKey,
)
    requires
        store.contains_key(key),
    ensures
        listed(store, record, catalog, resolver).contains_key(key),
        store[key].clear_times.is_prefix_of(
            listed(store, record, catalog, resolver)[key].clear_times,
        ),
        forall|c: Class|
            store[key].raw[c].is_prefix_of(
                #[trigger] listed(store, record, catalog, resolver)[key].raw[c],
            ),
{
    let after = listed(store, record, catalog, resolver)[key];
    assert(store[key].clear_times =~= after.clear_times.subrange(
        0,
        store[key].clear_times.len() as int,
    ));
    assert forall|c: Class| store[key].raw[c].is_prefix_of(#[trigger] after.raw[c]) by {
        assert(store[key].raw[c] =~= after.raw[c].subrange(0, store[key].raw[c].len() as int));
    }
}

/// Merging a batch only appends: every key of the store stays, and under
/// each the clear times and the raw values of every class that were held
/// before are a prefix of those held after.
pub proof fn lemma_lists_grow(
    store: Map<StoreKey, StatsLists>,
    records: Seq<RecordModel>,
    catalog: Map<Seq<char>, Class>,
    resolver: ResolverModel,
    key: StoreKey,
)
    requires
        store.contains_key(key),
    ensures
        listed_all(store, records, catalog, resolver).contains_key(key),
        store[key].clear_times.is_prefix_of(
            listed_all(store, records, catalog, resolver)[key].clear_times,
        ),
        forall|c: Class|
            store[key].raw[c].is_prefix_of(
                #[trigger] listed_all(store, records, catalog, resolver)[key].raw[c],
            ),
    decreases records.len(),
{
    if records.len() == 0 {
        assert(store[key].clear_times =~= store[key].clear_times.subrange(
            0,
            store[key].clear_times.len() as int,
        ));
        assert forall|c: Class| store[key].raw[c].is_prefix_of(#[trigger] store[key].raw[c]) by {
            assert(store[key].raw[c] =~= store[key].raw[c].subrange(
                0,
                store[key].raw[c].len() as int,
            ));
        }
    } else {
        let middle = listed_all(store, records.drop_last(), catalog, resolver);
        lemma_lists_grow(store, records.drop_last(), catalog, resolver, key);
        lemma_lists_append(middle, records.last(), catalog, resolver, key);
        let last = listed(middle, records.last(), catalog, resolver);
        let a = store[key].clear_times;
        let b = middle[key].clear_times;
        let d = last[key].clear_times;
        assert(a =~= d.subrange(0, a.len() as int)) by {
            assert(a =~= b.subrange(0, a.len() as int));
            assert(b =~= d.subrange(0, b.len() as int));
        }
        assert forall|c: Class| store[key].raw[c].is_prefix_of(#[trigger] last[key].raw[c]) by {
            let x = store[key].raw[c];
            let y = middle[key].raw[c];
            let z = last[key].raw[c];
            assert(x.is_prefix_of(y));
            assert(y.is_prefix_of(z));
            assert(x =~= y.subrange(0, x.len() as int));
            assert(y =~= z.subrange(0, y.len() as int));
            assert(x =~= z.subrange(0, x.len() as int));
        }
    }
}

} // verus!
