//! Retention of the top resource groups: of each second the `top_n` samples
//! with the highest CPU time keep their records, and the rest is summed into
//! the record of the "others".

use super::fold::{check_totals_fit, fold_items};
use super::tag::{classify, encode_others_tag, others_tag, tag_class, TagClass};
use super::{
    Counter, GroupTagRecord, GroupTagRecordItem, RecordOneof, RecordView, ResourceUsageRecord,
    views,
};
use crate::topsql::fold::{
    fold_by_second, lemma_fold_by_second, lemma_second_total_concat, second_total, totals_fit,
    Summable,
};
use crate::topsql::retention::{
    add_to_groups, evicted_items, find_key, grouped, groups_total, items_of, kept_flags,
    kept_in_second, kept_samples, lemma_evicted_within, lemma_find_key, lemma_find_key_prefix,
    lemma_grouped_total, lemma_split_total, rank_keys, samples_in_second, samples_of, Group,
    Sample,
};
use crate::topsql::selection::{min_count, select_top_n, RankKey};
use vstd::prelude::*;

verus! {

/// The samples of the records that name a statement, in the order of the
/// messages.
pub open spec fn digest_samples(messages: Seq<Option<RecordView>>) -> Seq<Sample<Seq<u8>, GroupTagRecordItem>>
    decreases messages.len(),
{
    if messages.len() == 0 {
        seq![]
    } else {
        let rest = digest_samples(messages.drop_last());
        match messages.last() {
            Some(record) => if tag_class(record.key) is Digest {
                rest + samples_of(record)
            } else {
                rest
            },
            None => rest,
        }
    }
}

/// The items of the records that stand for the "others", in the order of the
/// messages.
pub open spec fn others_items(messages: Seq<Option<RecordView>>) -> Seq<GroupTagRecordItem>
    decreases messages.len(),
{
    if messages.len() == 0 {
        seq![]
    } else {
        let rest = others_items(messages.drop_last());
        match messages.last() {
            Some(record) => if tag_class(record.key) is Others {
                rest + record.items
            } else {
                rest
            },
            None => rest,
        }
    }
}

/// The messages that hold no record, in their order.
pub open spec fn passed_through(messages: Seq<Option<RecordView>>) -> Seq<Option<RecordView>>
    decreases messages.len(),
{
    if messages.len() == 0 {
        seq![]
    } else {
        let rest = passed_through(messages.drop_last());
        match messages.last() {
            Some(_) => rest,
            None => rest.push(None),
        }
    }
}

/// The items that the aggregation counts: those of the records whose tag can
/// be read.
pub open spec fn counted_items(messages: Seq<Option<RecordView>>) -> Seq<GroupTagRecordItem> {
    others_items(messages) + items_of(digest_samples(messages))
}

/// The items of the record of the "others": for each second, the sum of what
/// the "others" records of the input held and of what was not retained.
pub open spec fn folded_others(messages: Seq<Option<RecordView>>, top_n: nat) -> Seq<
    GroupTagRecordItem,
> {
    let samples = digest_samples(messages);
    fold_by_second(others_items(messages) + evicted_items(samples, kept_flags(samples, top_n)))
}

/// The messages after retention: those without a record; then one record per
/// tag that has a sample among the `top_n` of some second, holding those
/// samples; then, unless it would be empty, the record of the "others".
pub open spec fn kept_top_n(messages: Seq<Option<RecordView>>, top_n: nat) -> Seq<
    Option<RecordView>,
> {
    let samples = digest_samples(messages);
    let flags = kept_flags(samples, top_n);
    let others = folded_others(messages, top_n);
    passed_through(messages) + grouped(kept_samples(samples, flags)).map_values(
        |r: RecordView| Some(r),
    ) + if others.len() > 0 {
        seq![Some(Group { key: others_tag(), items: others })]
    } else {
        seq![]
    }
}

/// The samples that the working vectors stand for: sample `i` has the items
/// `items[i]` and the tag at position `tag_of[i]` of `tags`.
pub open spec fn sample_seq(
    tags: Seq<Vec<u8>>,
    tag_of: Seq<usize>,
    items: Seq<GroupTagRecordItem>,
) -> Seq<Sample<Seq<u8>, GroupTagRecordItem>> {
    Seq::new(items.len(), |i: int| Sample { key: tags[tag_of[i] as int]@, item: items[i] })
}

/// The views of the records.
pub open spec fn record_views(groups: Seq<GroupTagRecord>) -> Seq<RecordView> {
    groups.map_values(|g: GroupTagRecord| g@)
}

fn copy_bytes(bytes: &Vec<u8>) -> (copy: Vec<u8>)
    ensures
        copy@ == bytes@,
{
    let mut copy: Vec<u8> = Vec::new();
    let mut i: usize = 0;
    while i < bytes.len()
        invariant
            i <= bytes@.len(),
            copy@ == bytes@.take(i as int),
        decreases bytes@.len() - i,
    {
        copy.push(bytes[i]);
        assert(bytes@.take(i + 1) =~= bytes@.take(i as int).push(bytes@[i as int]));
        i = i + 1;
    }
    assert(bytes@.take(i as int) =~= bytes@);
    copy
}

fn find_group(groups: &Vec<GroupTagRecord>, tag: &Vec<u8>) -> (found: Option<usize>)
    ensures
        match found {
            Some(i) => find_key(record_views(groups@), tag@) == Some(i as int) && i < groups@.len(),
            None => find_key(record_views(groups@), tag@) is None,
        },
{
    let mut i: usize = 0;
    while i < groups.len()
        invariant
            i <= groups@.len(),
            find_key(record_views(groups@).take(i as int), tag@) is None,
        decreases groups@.len() - i,
    {
        let same = groups[i].resource_group_tag == *tag;
        assert(same == (groups@[i as int].resource_group_tag@ =~= tag@));
        proof {
            let gv = record_views(groups@);
            assert(gv.take(i + 1).drop_last() == gv.take(i as int));
            assert(gv[i as int].key == groups@[i as int].resource_group_tag@);
        }
        if same {
            proof {
                lemma_find_key_prefix(record_views(groups@), tag@, i + 1);
            }
            return Some(i);
        }
        i = i + 1;
    }
    proof {
        assert(record_views(groups@).take(i as int) == record_views(groups@));
    }
    None
}

fn add_to_group(groups: &mut Vec<GroupTagRecord>, tag: &Vec<u8>, item: GroupTagRecordItem)
    ensures
        record_views(final(groups)@) == add_to_groups(
            record_views(old(groups)@),
            Sample { key: tag@, item },
        ),
{
    match find_group(groups, tag) {
        Some(i) => {
            groups[i].items.push(item);
            proof {
                lemma_find_key(record_views(old(groups)@), tag@);
                assert(record_views(groups@)[i as int] == RecordView {
                    key: tag@,
                    items: record_views(old(groups)@)[i as int].items.push(item),
                });
                assert(record_views(groups@) =~= add_to_groups(
                    record_views(old(groups)@),
                    Sample { key: tag@, item },
                ));
            }
        },
        None => {
            let mut items: Vec<GroupTagRecordItem> = Vec::new();
            items.push(item);
            groups.push(GroupTagRecord { resource_group_tag: copy_bytes(tag), items });
            proof {
                assert(items@ =~= seq![item]);
                assert(record_views(groups@) =~= add_to_groups(
                    record_views(old(groups)@),
                    Sample { key: tag@, item },
                ));
            }
        },
    }
}

/// Keeps of each second the `top_n` samples with the highest CPU time and sums
/// the rest into the record of the "others".
pub fn keep_top_n(messages: Vec<ResourceUsageRecord>, top_n: usize) -> (out: Vec<
    ResourceUsageRecord,
>)
    requires
        totals_fit(counted_items(views(messages@))),
    ensures
        views(out@) == kept_top_n(views(messages@), top_n as nat),
        forall|t: u64| #[trigger]
            kept_in_second(digest_samples(views(messages@)), top_n as nat, t) == min_count(
                top_n as nat,
                samples_in_second(digest_samples(views(messages@)), t),
            ),
{
    let ghost input = views(messages@);
    let mut out: Vec<ResourceUsageRecord> = Vec::new();
    let mut tags: Vec<Vec<u8>> = Vec::new();
    let mut tag_of: Vec<usize> = Vec::new();
    let mut items: Vec<GroupTagRecordItem> = Vec::new();
    let mut keys: Vec<RankKey> = Vec::new();
    let mut others: Vec<GroupTagRecordItem> = Vec::new();
    for message in it: messages
        invariant
            input == views(it.seq()),
            views(out@) == passed_through(input.take(it.index() as int)),
            others@ == others_items(input.take(it.index() as int)),
            tag_of@.len() == items@.len(),
            forall|i: int| 0 <= i < tag_of@.len() ==> tag_of@[i] < tags@.len(),
            sample_seq(tags@, tag_of@, items@) == digest_samples(input.take(it.index() as int)),
            keys@ == rank_keys(digest_samples(input.take(it.index() as int))),
    {
        let ghost done = input.take(it.index() as int);
        let ghost next = input.take(it.index() + 1);
        proof {
            assert(next.drop_last() == done);
            assert(next.last() == message@);
        }
        match message.record_oneof {
            None => {
                out.push(ResourceUsageRecord { record_oneof: None });
                proof {
                    assert(views(out@) =~= passed_through(next));
                }
            },
            Some(RecordOneof::Record(record)) => {
                proof {
                    assert(views(out@) =~= passed_through(next));
                }
                match classify(&record.resource_group_tag) {
                    TagClass::Unreadable => {},
                    TagClass::Others => {
                        let mut j: usize = 0;
                        while j < record.items.len()
                            invariant
                                j <= record.items@.len(),
                                others@ == others_items(done) + record.items@.take(j as int),
                            decreases record.items@.len() - j,
                        {
                            others.push(record.items[j]);
                            proof {
                                assert(record.items@.take(j + 1) =~= record.items@.take(
                                    j as int,
                                ).push(record.items@[j as int]));
                                assert(others@ =~= others_items(done) + record.items@.take(j + 1));
                            }
                            j = j + 1;
                        }
                        proof {
                            assert(record.items@.take(j as int) == record.items@);
                        }
                    },
                    TagClass::Digest => {
                        let GroupTagRecord { resource_group_tag, items: record_items } = record;
                        let ghost rv = Group { key: resource_group_tag@, items: record_items@ };
                        let g = tags.len();
                        let ghost tags_before = tags@;
                        tags.push(resource_group_tag);
                        proof {
                            assert(sample_seq(tags@, tag_of@, items@) =~= sample_seq(
                                tags_before,
                                tag_of@,
                                items@,
                            ));
                        }
                        let mut j: usize = 0;
                        while j < record_items.len()
                            invariant
                                j <= record_items@.len(),
                                g + 1 == tags@.len(),
                                tags@[g as int]@ == rv.key,
                                rv.items == record_items@,
                                tag_of@.len() == items@.len(),
                                forall|i: int| 0 <= i < tag_of@.len() ==> tag_of@[i] < tags@.len(),
                                sample_seq(tags@, tag_of@, items@) == digest_samples(done)
                                    + samples_of(rv).take(j as int),
                                keys@ == rank_keys(
                                    digest_samples(done) + samples_of(rv).take(j as int),
                                ),
                            decreases record_items@.len() - j,
                        {
                            let x = record_items[j];
                            tag_of.push(g);
                            items.push(x);
                            keys.push(
                                RankKey { timestamp_sec: x.timestamp_sec, cpu_time_ms: x.cpu_time_ms },
                            );
                            proof {
                                let before = digest_samples(done) + samples_of(rv).take(j as int);
                                let after = digest_samples(done) + samples_of(rv).take(j + 1);
                                assert(samples_of(rv).take(j + 1) =~= samples_of(rv).take(
                                    j as int,
                                ).push(Sample { key: rv.key, item: x }));
                                assert(after =~= before.push(Sample { key: rv.key, item: x }));
                                assert(sample_seq(tags@, tag_of@, items@) =~= after);
                                assert(keys@ =~= rank_keys(after));
                            }
                            j = j + 1;
                        }
                        proof {
                            assert(samples_of(rv).take(j as int) == samples_of(rv));
                        }
                    },
                }
            },
        }
    }
    proof {
        assert(input.take(input.len() as int) == input);
    }
    let ghost samples = digest_samples(input);
    let ghost flags = kept_flags(samples, top_n as nat);
    let kept = select_top_n(&keys, top_n);
    proof {
        assert(kept@ =~= flags);
    }
    let mut groups: Vec<GroupTagRecord> = Vec::new();
    let n = items.len();
    let mut i: usize = 0;
    let ghost others_before = others@;
    while i < n
        invariant
            i <= n,
            n == items@.len(),
            n == samples.len(),
            tag_of@.len() == n,
            kept@.len() == n,
            kept@ == flags,
            forall|k: int| 0 <= k < n ==> tag_of@[k] < tags@.len(),
            sample_seq(tags@, tag_of@, items@) == samples,
            record_views(groups@) == grouped(
                kept_samples(samples.take(i as int), flags.take(i as int)),
            ),
            others@ == others_before + evicted_items(samples.take(i as int), flags.take(i as int)),
        decreases n - i,
    {
        proof {
            assert(samples.take(i + 1).drop_last() == samples.take(i as int));
            assert(flags.take(i + 1).drop_last() == flags.take(i as int));
            assert(samples[i as int] == Sample {
                key: tags@[tag_of@[i as int] as int]@,
                item: items@[i as int],
            });
        }
        if kept[i] {
            add_to_group(&mut groups, &tags[tag_of[i]], items[i]);
            proof {
                let before = kept_samples(samples.take(i as int), flags.take(i as int));
                let after = kept_samples(samples.take(i + 1), flags.take(i + 1));
                assert(after == before.push(samples[i as int]));
                assert(after.drop_last() == before);
            }
        } else {
            others.push(items[i]);
            proof {
                assert(others@ =~= others_before + evicted_items(
                    samples.take(i + 1),
                    flags.take(i + 1),
                ));
            }
        }
        i = i + 1;
    }
    proof {
        assert(samples.take(n as int) == samples);
        assert(flags.take(n as int) == flags);
        assert forall|t: u64, c: Counter| #[trigger] second_total(others@, t, c) <= u32::MAX by {
            lemma_second_total_concat(others_before, evicted_items(samples, flags), t, c);
            lemma_second_total_concat(others_before, items_of(samples), t, c);
            lemma_evicted_within(samples, flags, t, c);
            assert(second_total(counted_items(input), t, c) <= u32::MAX);
        }
    }
    let folded = fold_items(&others);
    let ghost passed = views(out@);
    let ghost group_views = record_views(groups@);
    for group in it: groups
        invariant
            group_views == record_views(it.seq()),
            views(out@) == passed + group_views.take(it.index() as int).map_values(
                |r: RecordView| Some(r),
            ),
    {
        proof {
            assert(group_views.take(it.index() + 1) =~= group_views.take(it.index() as int).push(
                group@,
            ));
        }
        let ghost out_before = out@;
        out.push(ResourceUsageRecord { record_oneof: Some(RecordOneof::Record(group)) });
        proof {
            assert(views(out@) =~= views(out_before).push(Some(group@)));
            assert(views(out@) =~= passed + group_views.take(it.index() + 1).map_values(
                |r: RecordView| Some(r),
            ));
        }
    }
    proof {
        assert(group_views.take(group_views.len() as int) == group_views);
    }
    if folded.len() > 0 {
        let tag = encode_others_tag();
        out.push(
            ResourceUsageRecord {
                record_oneof: Some(
                    RecordOneof::Record(GroupTagRecord { resource_group_tag: tag, items: folded }),
                ),
            },
        );
    }
    proof {
        assert(views(out@) =~= kept_top_n(input, top_n as nat));
    }
    out
}

/// Whether retention can be applied: whether, of every second, the totals of
/// the items that it counts fit their counters.
pub fn can_keep_top_n(messages: &Vec<ResourceUsageRecord>) -> (r: bool)
    ensures
        r == totals_fit(counted_items(views(messages@))),
{
    let ghost input = views(messages@);
    let mut all: Vec<GroupTagRecordItem> = Vec::new();
    let mut i: usize = 0;
    proof {
        assert(all@ =~= others_items(input.take(0)));
    }
    while i < messages.len()
        invariant
            i <= messages@.len(),
            input == views(messages@),
            all@ == others_items(input.take(i as int)),
        decreases messages@.len() - i,
    {
        proof {
            assert(input.take(i + 1).drop_last() == input.take(i as int));
            assert(input.take(i + 1).last() == messages@[i as int]@);
        }
        match &messages[i].record_oneof {
            Some(RecordOneof::Record(record)) => {
                if let TagClass::Others = classify(&record.resource_group_tag) {
                    let ghost start = all@;
                    let mut j: usize = 0;
                    while j < record.items.len()
                        invariant
                            j <= record.items@.len(),
                            all@ == start + record.items@.take(j as int),
                        decreases record.items@.len() - j,
                    {
                        all.push(record.items[j]);
                        proof {
                            assert(all@ =~= start + record.items@.take(j + 1));
                        }
                        j = j + 1;
                    }
                    proof {
                        assert(record.items@.take(j as int) == record.items@);
                    }
                }
            },
            None => {},
        }
        i = i + 1;
    }
    proof {
        assert(input.take(i as int) == input);
    }
    let ghost others = all@;
    let mut k: usize = 0;
    proof {
        assert(all@ =~= others + items_of(digest_samples(input.take(0))));
    }
    while k < messages.len()
        invariant
            k <= messages@.len(),
            input == views(messages@),
            others == others_items(input),
            all@ == others + items_of(digest_samples(input.take(k as int))),
        decreases messages@.len() - k,
    {
        proof {
            assert(input.take(k + 1).drop_last() == input.take(k as int));
            assert(input.take(k + 1).last() == messages@[k as int]@);
        }
        match &messages[k].record_oneof {
            Some(RecordOneof::Record(record)) => {
                if let TagClass::Digest = classify(&record.resource_group_tag) {
                    let ghost start = all@;
                    let ghost done = digest_samples(input.take(k as int));
                    let ghost rv = record@;
                    let mut j: usize = 0;
                    proof {
                        assert(start =~= others + items_of(done + samples_of(rv).take(0)));
                    }
                    while j < record.items.len()
                        invariant
                            j <= record.items@.len(),
                            rv == record@,
                            all@ == others + items_of(done + samples_of(rv).take(j as int)),
                        decreases record.items@.len() - j,
                    {
                        all.push(record.items[j]);
                        proof {
                            assert(samples_of(rv).take(j + 1) =~= samples_of(rv).take(
                                j as int,
                            ).push(Sample { key: rv.key, item: record.items@[j as int] }));
                            assert(all@ =~= others + items_of(done + samples_of(rv).take(j + 1)));
                        }
                        j = j + 1;
                    }
                    proof {
                        assert(samples_of(rv).take(j as int) == samples_of(rv));
                    }
                }
            },
            None => {},
        }
        k = k + 1;
    }
    proof {
        assert(input.take(k as int) == input);
    }
    check_totals_fit(&all)
}

/// Sum of counter `c` over the items of second `t` in all records among the
/// messages.
pub open spec fn records_total(messages: Seq<Option<RecordView>>, t: u64, c: Counter) -> int
    decreases messages.len(),
{
    if messages.len() == 0 {
        0
    } else {
        records_total(messages.drop_last(), t, c) + match messages.last() {
            Some(record) => second_total(record.items, t, c),
            None => 0,
        }
    }
}

proof fn lemma_records_total_concat(
    a: Seq<Option<RecordView>>,
    b: Seq<Option<RecordView>>,
    t: u64,
    c: Counter,
)
    ensures
        records_total(a + b, t, c) == records_total(a, t, c) + records_total(b, t, c),
    decreases b.len(),
{
    if b.len() == 0 {
        assert(a + b == a);
    } else {
        lemma_records_total_concat(a, b.drop_last(), t, c);
        assert((a + b).drop_last() == a + b.drop_last());
    }
}

proof fn lemma_passed_through_total(messages: Seq<Option<RecordView>>, t: u64, c: Counter)
    ensures
        records_total(passed_through(messages), t, c) == 0,
    decreases messages.len(),
{
    if messages.len() > 0 {
        lemma_passed_through_total(messages.drop_last(), t, c);
        if messages.last() is None {
            assert(passed_through(messages).drop_last() == passed_through(messages.drop_last()));
        }
    }
}

proof fn lemma_groups_as_messages(groups: Seq<RecordView>, t: u64, c: Counter)
    ensures
        records_total(groups.map_values(|r: RecordView| Some(r)), t, c) == groups_total(
            groups,
            t,
            c,
        ),
    decreases groups.len(),
{
    if groups.len() > 0 {
        lemma_groups_as_messages(groups.drop_last(), t, c);
        assert(groups.map_values(|r: RecordView| Some(r)).drop_last() =~= groups.drop_last().map_values(
            |r: RecordView| Some(r),
        ));
    }
}

/// Retention conserves every counter of every second: what the records of
/// the output hold for a second, the retained and the "others" together, is
/// what the readable records of the input held for it.
pub proof fn lemma_keep_top_n_conserves(
    messages: Seq<Option<RecordView>>,
    top_n: nat,
    t: u64,
    c: Counter,
)
    requires
        totals_fit(counted_items(messages)),
    ensures
        records_total(kept_top_n(messages, top_n), t, c) == second_total(
            counted_items(messages),
            t,
            c,
        ),
{
    let samples = digest_samples(messages);
    let flags = kept_flags(samples, top_n);
    let merged = others_items(messages) + evicted_items(samples, flags);
    let others = folded_others(messages, top_n);
    let groups = grouped(kept_samples(samples, flags));
    let wrapped = groups.map_values(|r: RecordView| Some(r));
    let tail = if others.len() > 0 {
        seq![Some(Group { key: others_tag(), items: others })]
    } else {
        seq![]
    };
    assert forall|t2: u64, c2: Counter| #[trigger] second_total(merged, t2, c2) <= u32::MAX by {
        lemma_second_total_concat(others_items(messages), evicted_items(samples, flags), t2, c2);
        lemma_second_total_concat(others_items(messages), items_of(samples), t2, c2);
        lemma_evicted_within(samples, flags, t2, c2);
        assert(second_total(counted_items(messages), t2, c2) <= u32::MAX);
    }
    lemma_fold_by_second(merged);
    assert(second_total(others, t, c) == second_total(merged, t, c));
    lemma_records_total_concat(passed_through(messages) + wrapped, tail, t, c);
    lemma_records_total_concat(passed_through(messages), wrapped, t, c);
    lemma_passed_through_total(messages, t, c);
    lemma_groups_as_messages(groups, t, c);
    lemma_grouped_total(kept_samples(samples, flags), t, c);
    lemma_split_total(samples, flags, t, c);
    lemma_second_total_concat(others_items(messages), evicted_items(samples, flags), t, c);
    lemma_second_total_concat(others_items(messages), items_of(samples), t, c);
    if others.len() > 0 {
        assert(tail.drop_last() =~= Seq::<Option<RecordView>>::empty());
        assert(tail.last() == Some(Group { key: others_tag(), items: others }));
        assert(records_total(tail.drop_last(), t, c) == 0);
        assert(records_total(tail, t, c) == second_total(others, t, c));
    } else {
        assert(second_total(others, t, c) == 0);
    }
}

} // verus!
