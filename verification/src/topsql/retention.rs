//! Retention of the top samples of each second, told for any kind of item:
//! which samples stay, how they are grouped into records again, and what is
//! summed into the "others".

use super::fold::{all_hold, second_total, Summable};
use super::selection::{
    flagged_upto, in_second_upto, lemma_retained_dominate, retained, RankKey,
};
use vstd::prelude::*;

verus! {

/// An item that is ranked by its CPU time.
pub trait Ranked: Summable {
    /// The CPU time of the item.
    spec fn cpu(self) -> u32;
}

/// One item of a record, with the key of the record.
pub struct Sample<K, T> {
    pub key: K,
    pub item: T,
}

/// A record: the items that belong to one key.
pub struct Group<K, T> {
    pub key: K,
    pub items: Seq<T>,
}

/// The items of a record as samples.
pub open spec fn samples_of<K, T>(record: Group<K, T>) -> Seq<Sample<K, T>> {
    record.items.map_values(|x: T| Sample { key: record.key, item: x })
}

/// The items of the samples.
pub open spec fn items_of<K, T>(samples: Seq<Sample<K, T>>) -> Seq<T> {
    samples.map_values(|s: Sample<K, T>| s.item)
}

/// What the ranking reads of the samples.
pub open spec fn rank_keys<K, T: Ranked>(samples: Seq<Sample<K, T>>) -> Seq<RankKey> {
    samples.map_values(
        |s: Sample<K, T>| RankKey { timestamp_sec: s.item.second(), cpu_time_ms: s.item.cpu() },
    )
}

/// For each sample, whether it is among the `top_n` of its second.
pub open spec fn kept_flags<K, T: Ranked>(samples: Seq<Sample<K, T>>, top_n: nat) -> Seq<bool> {
    Seq::new(samples.len(), |i: int| retained(rank_keys(samples), top_n, i))
}

/// Number of the samples of second `t`.
pub open spec fn samples_in_second<K, T: Ranked>(samples: Seq<Sample<K, T>>, t: u64) -> nat {
    in_second_upto(rank_keys(samples), t, samples.len())
}

/// Number of the samples of second `t` that are among the `top_n` of it.
pub open spec fn kept_in_second<K, T: Ranked>(samples: Seq<Sample<K, T>>, top_n: nat, t: u64) -> nat {
    flagged_upto(rank_keys(samples), kept_flags(samples, top_n), t, samples.len())
}

/// The samples that are flagged, in their order.
pub open spec fn kept_samples<K, T>(samples: Seq<Sample<K, T>>, flags: Seq<bool>) -> Seq<
    Sample<K, T>,
>
    recommends
        flags.len() == samples.len(),
    decreases samples.len(),
{
    if samples.len() == 0 {
        seq![]
    } else {
        let rest = kept_samples(samples.drop_last(), flags.drop_last());
        if flags.last() {
            rest.push(samples.last())
        } else {
            rest
        }
    }
}

/// The items of the samples that are not flagged, in their order.
pub open spec fn evicted_items<K, T>(samples: Seq<Sample<K, T>>, flags: Seq<bool>) -> Seq<T>
    recommends
        flags.len() == samples.len(),
    decreases samples.len(),
{
    if samples.len() == 0 {
        seq![]
    } else {
        let rest = evicted_items(samples.drop_last(), flags.drop_last());
        if flags.last() {
            rest
        } else {
            rest.push(samples.last().item)
        }
    }
}

/// The position of the first record with key `key`.
pub open spec fn find_key<K, T>(groups: Seq<Group<K, T>>, key: K) -> Option<int>
    decreases groups.len(),
{
    if groups.len() == 0 {
        None
    } else {
        match find_key(groups.drop_last(), key) {
            Some(i) => Some(i),
            None => if groups.last().key == key {
                Some(groups.len() - 1)
            } else {
                None
            },
        }
    }
}

/// `groups` with the sample's item added to the record of its key; where
/// there is none yet, a new record comes last.
pub open spec fn add_to_groups<K, T>(groups: Seq<Group<K, T>>, s: Sample<K, T>) -> Seq<
    Group<K, T>,
> {
    match find_key(groups, s.key) {
        Some(i) => groups.update(i, Group { key: s.key, items: groups[i].items.push(s.item) }),
        None => groups.push(Group { key: s.key, items: seq![s.item] }),
    }
}

/// One record per key of the samples, in the order in which the keys first
/// occur, each with the items of its key in the order of the samples.
pub open spec fn grouped<K, T>(samples: Seq<Sample<K, T>>) -> Seq<Group<K, T>>
    decreases samples.len(),
{
    if samples.len() == 0 {
        seq![]
    } else {
        add_to_groups(grouped(samples.drop_last()), samples.last())
    }
}

/// Sum of counter `c` over the items of second `t` in all of the records.
pub open spec fn groups_total<K, T: Summable>(groups: Seq<Group<K, T>>, t: u64, c: T::Counter) -> int
    decreases groups.len(),
{
    if groups.len() == 0 {
        0
    } else {
        groups_total(groups.drop_last(), t, c) + second_total(groups.last().items, t, c)
    }
}

/// Where `find_key` finds a record, it has the key; where it finds none, no
/// record has it.
pub proof fn lemma_find_key<K, T>(groups: Seq<Group<K, T>>, key: K)
    ensures
        match find_key(groups, key) {
            Some(i) => 0 <= i < groups.len() && groups[i].key == key,
            None => forall|k: int| 0 <= k < groups.len() ==> groups[k].key != key,
        },
    decreases groups.len(),
{
    if groups.len() > 0 {
        let front = groups.drop_last();
        lemma_find_key(front, key);
        if find_key(groups, key) is None {
            assert forall|k: int| 0 <= k < groups.len() implies groups[k].key != key by {
                if k < front.len() {
                    assert(front[k].key != key);
                }
            }
        }
    }
}

/// What `find_key` finds among the first `k` records, it finds among all.
pub proof fn lemma_find_key_prefix<K, T>(groups: Seq<Group<K, T>>, key: K, k: int)
    requires
        0 <= k <= groups.len(),
        find_key(groups.take(k), key) is Some,
    ensures
        find_key(groups, key) == find_key(groups.take(k), key),
    decreases groups.len() - k,
{
    if k < groups.len() {
        assert(groups.take(k + 1).drop_last() == groups.take(k));
        lemma_find_key_prefix(groups, key, k + 1);
    } else {
        assert(groups.take(k) == groups);
    }
}

/// What is not retained of a second is no more than the second holds.
pub proof fn lemma_evicted_within<K, T: Summable>(
    samples: Seq<Sample<K, T>>,
    flags: Seq<bool>,
    t: u64,
    c: T::Counter,
)
    requires
        flags.len() == samples.len(),
    ensures
        0 <= second_total(evicted_items(samples, flags), t, c) <= second_total(
            items_of(samples),
            t,
            c,
        ),
    decreases samples.len(),
{
    if samples.len() > 0 {
        lemma_evicted_within(samples.drop_last(), flags.drop_last(), t, c);
        assert(items_of(samples).drop_last() =~= items_of(samples.drop_last()));
        assert(items_of(samples).last() == samples.last().item);
        samples.last().item.lemma_amount(c);
        if !flags.last() {
            assert(evicted_items(samples, flags).drop_last() =~= evicted_items(
                samples.drop_last(),
                flags.drop_last(),
            ));
        }
    }
}

proof fn lemma_groups_total_update<K, T: Summable>(
    groups: Seq<Group<K, T>>,
    i: int,
    record: Group<K, T>,
    t: u64,
    c: T::Counter,
)
    requires
        0 <= i < groups.len(),
    ensures
        groups_total(groups.update(i, record), t, c) == groups_total(groups, t, c) - second_total(
            groups[i].items,
            t,
            c,
        ) + second_total(record.items, t, c),
    decreases groups.len(),
{
    if i < groups.len() - 1 {
        lemma_groups_total_update(groups.drop_last(), i, record, t, c);
        assert(groups.update(i, record).drop_last() =~= groups.drop_last().update(i, record));
    } else {
        assert(groups.update(i, record).drop_last() =~= groups.drop_last());
    }
}

/// Grouping samples by key conserves every counter of every second.
pub proof fn lemma_grouped_total<K, T: Summable>(samples: Seq<Sample<K, T>>, t: u64, c: T::Counter)
    ensures
        groups_total(grouped(samples), t, c) == second_total(items_of(samples), t, c),
    decreases samples.len(),
{
    if samples.len() > 0 {
        let front = samples.drop_last();
        let s = samples.last();
        let g = grouped(front);
        lemma_grouped_total(front, t, c);
        assert(items_of(samples).drop_last() =~= items_of(front));
        assert(items_of(samples).last() == s.item);
        match find_key(g, s.key) {
            Some(i) => {
                lemma_find_key(g, s.key);
                let record = Group { key: s.key, items: g[i].items.push(s.item) };
                lemma_groups_total_update(g, i, record, t, c);
                assert(record.items.drop_last() =~= g[i].items);
                assert(record.items.last() == s.item);
                assert(grouped(samples) == g.update(i, record));
            },
            None => {
                let record = Group { key: s.key, items: seq![s.item] };
                assert(g.push(record).drop_last() =~= g);
                assert(g.push(record).last() == record);
                assert(record.items.drop_last() =~= Seq::<T>::empty());
                assert(record.items.last() == s.item);
                assert(second_total(record.items.drop_last(), t, c) == 0);
                assert(grouped(samples) == g.push(record));
            },
        }
    }
}

/// Every sample is either retained or not: the two parts add up to the whole.
pub proof fn lemma_split_total<K, T: Summable>(
    samples: Seq<Sample<K, T>>,
    flags: Seq<bool>,
    t: u64,
    c: T::Counter,
)
    requires
        flags.len() == samples.len(),
    ensures
        second_total(items_of(kept_samples(samples, flags)), t, c) + second_total(
            evicted_items(samples, flags),
            t,
            c,
        ) == second_total(items_of(samples), t, c),
    decreases samples.len(),
{
    if samples.len() > 0 {
        lemma_split_total(samples.drop_last(), flags.drop_last(), t, c);
        assert(items_of(samples).drop_last() =~= items_of(samples.drop_last()));
        assert(items_of(samples).last() == samples.last().item);
        if flags.last() {
            assert(items_of(kept_samples(samples, flags)).drop_last() =~= items_of(
                kept_samples(samples.drop_last(), flags.drop_last()),
            ));
            assert(items_of(kept_samples(samples, flags)).last() == samples.last().item);
        } else {
            assert(evicted_items(samples, flags).drop_last() =~= evicted_items(
                samples.drop_last(),
                flags.drop_last(),
            ));
        }
    }
}

/// Every item of every record has the property `p`.
pub open spec fn all_records_hold<K, T>(groups: Seq<Group<K, T>>, p: spec_fn(T) -> bool) -> bool {
    forall|g: int| 0 <= g < groups.len() ==> all_hold((#[trigger] groups[g]).items, p)
}

/// What every sample has, every retained sample has, and every item that is
/// not retained.
pub proof fn lemma_split_holds<K, T>(
    samples: Seq<Sample<K, T>>,
    flags: Seq<bool>,
    p: spec_fn(T) -> bool,
)
    requires
        flags.len() == samples.len(),
        all_hold(items_of(samples), p),
    ensures
        all_hold(items_of(kept_samples(samples, flags)), p),
        all_hold(evicted_items(samples, flags), p),
    decreases samples.len(),
{
    if samples.len() > 0 {
        let front = samples.drop_last();
        assert(all_hold(items_of(front), p)) by {
            assert forall|i: int| 0 <= i < items_of(front).len() implies p(
                #[trigger] items_of(front)[i],
            ) by {
                assert(items_of(samples)[i] == items_of(front)[i]);
            }
        }
        lemma_split_holds(front, flags.drop_last(), p);
        assert(p(samples.last().item)) by {
            assert(items_of(samples)[samples.len() - 1] == samples.last().item);
        }
        let kept = kept_samples(samples, flags);
        let kept_front = kept_samples(front, flags.drop_last());
        assert forall|i: int| 0 <= i < items_of(kept).len() implies p(
            #[trigger] items_of(kept)[i],
        ) by {
            if i < kept_front.len() {
                assert(items_of(kept)[i] == items_of(kept_front)[i]);
            }
        }
        let evicted = evicted_items(samples, flags);
        let evicted_front = evicted_items(front, flags.drop_last());
        assert forall|i: int| 0 <= i < evicted.len() implies p(#[trigger] evicted[i]) by {
            if i < evicted_front.len() {
                assert(evicted[i] == evicted_front[i]);
            }
        }
    }
}

/// What every sample has, every item of every record of the grouped samples
/// has.
pub proof fn lemma_grouped_holds<K, T>(samples: Seq<Sample<K, T>>, p: spec_fn(T) -> bool)
    requires
        all_hold(items_of(samples), p),
    ensures
        all_records_hold(grouped(samples), p),
    decreases samples.len(),
{
    if samples.len() > 0 {
        let front = samples.drop_last();
        let s = samples.last();
        assert(all_hold(items_of(front), p)) by {
            assert forall|i: int| 0 <= i < items_of(front).len() implies p(
                #[trigger] items_of(front)[i],
            ) by {
                assert(items_of(samples)[i] == items_of(front)[i]);
            }
        }
        lemma_grouped_holds(front, p);
        assert(p(s.item)) by {
            assert(items_of(samples)[samples.len() - 1] == s.item);
        }
        let g = grouped(front);
        let out = grouped(samples);
        lemma_find_key(g, s.key);
        assert forall|k: int| 0 <= k < out.len() implies all_hold((#[trigger] out[k]).items, p) by {
            match find_key(g, s.key) {
                Some(i) => {
                    if k == i {
                        assert(all_hold(g[i].items, p));
                        assert forall|j: int| 0 <= j < out[k].items.len() implies p(
                            #[trigger] out[k].items[j],
                        ) by {
                            if j < g[i].items.len() {
                                assert(out[k].items[j] == g[i].items[j]);
                            }
                        }
                    } else {
                        assert(out[k] == g[k]);
                    }
                },
                None => {
                    if k < g.len() {
                        assert(out[k] == g[k]);
                    } else {
                        assert(out[k].items =~= seq![s.item]);
                    }
                },
            }
        }
    }
}

/// Of one second, whatever is retained has at least the CPU time of whatever
/// is summed into the "others".
pub proof fn lemma_kept_dominate<K, T: Ranked>(
    samples: Seq<Sample<K, T>>,
    top_n: nat,
    i: int,
    j: int,
)
    requires
        0 <= i < samples.len(),
        0 <= j < samples.len(),
        samples[i].item.second() == samples[j].item.second(),
        kept_flags(samples, top_n)[i],
        !kept_flags(samples, top_n)[j],
    ensures
        samples[i].item.cpu() >= samples[j].item.cpu(),
{
    lemma_retained_dominate(rank_keys(samples), top_n, i, j);
}

} // verus!
