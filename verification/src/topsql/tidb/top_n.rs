//! Retention of the top statements: of each second the `top_n` samples with
//! the highest CPU time keep their records, and the rest is summed into the
//! record of the "others".

use super::fold::{check_totals_fit, fold_items};
use super::{
    item_views, Counter, DigestKey, ItemView, MessageView, RecordView, RespOneof, TopSqlRecord,
    TopSqlRecordItem, TopSqlSubResponse, views,
};
use super::kv::{kv_distinct, lemma_kv_merge_distinct};
use crate::topsql::fold::{
    all_hold, fold_by_second, lemma_fold_by_second, lemma_fold_holds, lemma_second_total_concat,
    second_total, totals_fit, Summable,
};
use crate::topsql::retention::{all_records_hold, lemma_grouped_holds, lemma_split_holds};
use crate::topsql::retention::{
    add_to_groups, evicted_items, find_key, grouped, groups_total, items_of, kept_flags,
    kept_in_second, kept_samples, lemma_evicted_within, lemma_find_key, lemma_find_key_prefix,
    lemma_grouped_total, lemma_split_total, rank_keys, samples_in_second, samples_of, Group,
    Sample,
};
use crate::topsql::selection::{min_count, select_top_n, RankKey};
use vstd::prelude::*;

verus! {

/// The key of the record of the "others": two empty digests.
pub open spec fn others_key() -> DigestKey {
    (Seq::<u8>::empty(), Seq::<u8>::empty())
}

/// The samples of the records that name a statement, in the order of the
/// messages.
pub open spec fn digest_samples(messages: Seq<MessageView>) -> Seq<Sample<DigestKey, ItemView>>
    decreases messages.len(),
{
    if messages.len() == 0 {
        seq![]
    } else {
        let rest = digest_samples(messages.drop_last());
        match messages.last() {
            MessageView::Record(record) => if record.key.0.len() > 0 {
                rest + samples_of(record)
            } else {
                rest
            },
            _ => rest,
        }
    }
}

/// The items of the records that stand for the "others", those with an empty
/// statement digest, in the order of the messages.
pub open spec fn others_items(messages: Seq<MessageView>) -> Seq<ItemView>
    decreases messages.len(),
{
    if messages.len() == 0 {
        seq![]
    } else {
        let rest = others_items(messages.drop_last());
        match messages.last() {
            MessageView::Record(record) => if record.key.0.len() == 0 {
                rest + record.items
            } else {
                rest
            },
            _ => rest,
        }
    }
}

/// The messages that hold no record, in their order.
pub open spec fn passed_through(messages: Seq<MessageView>) -> Seq<MessageView>
    decreases messages.len(),
{
    if messages.len() == 0 {
        seq![]
    } else {
        let rest = passed_through(messages.drop_last());
        match messages.last() {
            MessageView::Record(_) => rest,
            other => rest.push(other),
        }
    }
}

/// The items that the aggregation counts: those of all records.
pub open spec fn counted_items(messages: Seq<MessageView>) -> Seq<ItemView> {
    others_items(messages) + items_of(digest_samples(messages))
}

/// The items of the record of the "others": for each second, the sum of what
/// the "others" records of the input held and of what was not retained.
pub open spec fn folded_others(messages: Seq<MessageView>, top_n: nat) -> Seq<ItemView> {
    let samples = digest_samples(messages);
    fold_by_second(others_items(messages) + evicted_items(samples, kept_flags(samples, top_n)))
}

/// The messages after retention: those without a record; then one record per
/// statement and plan that has a sample among the `top_n` of some second,
/// holding those samples; then, unless it would be empty, the record of the
/// "others".
pub open spec fn kept_top_n(messages: Seq<MessageView>, top_n: nat) -> Seq<MessageView> {
    let samples = digest_samples(messages);
    let flags = kept_flags(samples, top_n);
    let others = folded_others(messages, top_n);
    passed_through(messages) + grouped(kept_samples(samples, flags)).map_values(
        |r: RecordView| MessageView::Record(r),
    ) + if others.len() > 0 {
        seq![MessageView::Record(Group { key: others_key(), items: others })]
    } else {
        seq![]
    }
}

/// The samples that the working vectors stand for: sample `i` has the item
/// `items[i]` and the digests at position `key_of[i]`.
pub open spec fn sample_seq(
    sqls: Seq<Vec<u8>>,
    plans: Seq<Vec<u8>>,
    key_of: Seq<usize>,
    items: Seq<TopSqlRecordItem>,
) -> Seq<Sample<DigestKey, ItemView>> {
    Seq::new(
        items.len(),
        |i: int|
            Sample { key: (sqls[key_of[i] as int]@, plans[key_of[i] as int]@), item: items[i]@ },
    )
}

/// The views of the records.
pub open spec fn record_views(groups: Seq<TopSqlRecord>) -> Seq<RecordView> {
    groups.map_values(|g: TopSqlRecord| g@)
}

fn copy_bytes(bytes: &Vec<u8>) -> (copy: Vec<u8>)
    ensures
        copy@ == bytes@,
{
    let mut copy: Vec<u8> = Vec::new();
    let mut i: usize = 0;
    while i < bytes.len()
        invariant
            i <= bytes@.len(),
            copy@ == bytes@.take(i as int),
        decreases bytes@.len() - i,
    {
        copy.push(bytes[i]);
        assert(bytes@.take(i + 1) =~= bytes@.take(i as int).push(bytes@[i as int]));
        i = i + 1;
    }
    assert(bytes@.take(i as int) =~= bytes@);
    copy
}

fn find_group(groups: &Vec<TopSqlRecord>, sql: &Vec<u8>, plan: &Vec<u8>) -> (found: Option<usize>)
    ensures
        match found {
            Some(i) => find_key(record_views(groups@), (sql@, plan@)) == Some(i as int) && i
                < groups@.len(),
            None => find_key(record_views(groups@), (sql@, plan@)) is None,
        },
{
    let mut i: usize = 0;
    while i < groups.len()
        invariant
            i <= groups@.len(),
            find_key(record_views(groups@).take(i as int), (sql@, plan@)) is None,
        decreases groups@.len() - i,
    {
        let same_sql = groups[i].sql_digest == *sql;
        let same_plan = groups[i].plan_digest == *plan;
        assert(same_sql == (groups@[i as int].sql_digest@ =~= sql@));
        assert(same_plan == (groups@[i as int].plan_digest@ =~= plan@));
        proof {
            let gv = record_views(groups@);
            assert(gv.take(i + 1).drop_last() == gv.take(i as int));
            assert(gv[i as int].key == (
                groups@[i as int].sql_digest@,
                groups@[i as int].plan_digest@,
            ));
        }
        if same_sql && same_plan {
            proof {
                lemma_find_key_prefix(record_views(groups@), (sql@, plan@), i + 1);
            }
            return Some(i);
        }
        i = i + 1;
    }
    proof {
        assert(record_views(groups@).take(i as int) == record_views(groups@));
    }
    None
}

fn add_to_group(groups: &mut Vec<TopSqlRecord>, sql: &Vec<u8>, plan: &Vec<u8>, item: TopSqlRecordItem)
    ensures
        record_views(final(groups)@) == add_to_groups(
            record_views(old(groups)@),
            Sample { key: (sql@, plan@), item: item@ },
        ),
{
    let ghost before = record_views(groups@);
    let ghost s = Sample { key: (sql@, plan@), item: item@ };
    match find_group(groups, sql, plan) {
        Some(i) => {
            let ghost old_items = groups@[i as int].items@;
            groups[i].items.push(item);
            proof {
                lemma_find_key(before, (sql@, plan@));
                assert(item_views(groups@[i as int].items@) =~= item_views(old_items).push(item@));
                assert(record_views(groups@)[i as int] == Group {
                    key: (sql@, plan@),
                    items: before[i as int].items.push(item@),
                });
                assert(record_views(groups@) =~= add_to_groups(before, s));
            }
        },
        None => {
            let mut items: Vec<TopSqlRecordItem> = Vec::new();
            items.push(item);
            proof {
                assert(item_views(items@) =~= seq![item@]);
            }
            groups.push(
                TopSqlRecord { sql_digest: copy_bytes(sql), plan_digest: copy_bytes(plan), items },
            );
            proof {
                assert(record_views(groups@) =~= add_to_groups(before, s));
            }
        },
    }
}

/// Keeps of each second the `top_n` samples with the highest CPU time and sums
/// the rest into the record of the "others".
pub fn keep_top_n(messages: Vec<TopSqlSubResponse>, top_n: usize) -> (out: Vec<TopSqlSubResponse>)
    requires
        totals_fit(counted_items(views(messages@))),
    ensures
        views(out@) == kept_top_n(views(messages@), top_n as nat),
        forall|t: u64| #[trigger]
            kept_in_second(digest_samples(views(messages@)), top_n as nat, t) == min_count(
                top_n as nat,
                samples_in_second(digest_samples(views(messages@)), t),
            ),
{
    let ghost input = views(messages@);
    let mut out: Vec<TopSqlSubResponse> = Vec::new();
    let mut sqls: Vec<Vec<u8>> = Vec::new();
    let mut plans: Vec<Vec<u8>> = Vec::new();
    let mut key_of: Vec<usize> = Vec::new();
    let mut items: Vec<TopSqlRecordItem> = Vec::new();
    let mut keys: Vec<RankKey> = Vec::new();
    let mut others: Vec<TopSqlRecordItem> = Vec::new();
    assert(item_views(others@) =~= others_items(input.take(0)));
    assert(views(out@) =~= passed_through(input.take(0)));
    assert(sample_seq(sqls@, plans@, key_of@, items@) =~= digest_samples(input.take(0)));
    assert(keys@ =~= rank_keys(digest_samples(input.take(0))));
    for message in it: messages
        invariant
            input == views(it.seq()),
            views(out@) == passed_through(input.take(it.index() as int)),
            item_views(others@) == others_items(input.take(it.index() as int)),
            key_of@.len() == items@.len(),
            sqls@.len() == plans@.len(),
            forall|i: int| 0 <= i < key_of@.len() ==> key_of@[i] < sqls@.len(),
            sample_seq(sqls@, plans@, key_of@, items@) == digest_samples(
                input.take(it.index() as int),
            ),
            keys@ == rank_keys(digest_samples(input.take(it.index() as int))),
    {
        let ghost done = input.take(it.index() as int);
        let ghost next = input.take(it.index() + 1);
        let ghost out_before = views(out@);
        proof {
            assert(next.drop_last() == done);
            assert(next.last() == message@);
        }
        match message.resp_oneof {
            None => {
                out.push(TopSqlSubResponse { resp_oneof: None });
                proof {
                    assert(views(out@) =~= out_before.push(MessageView::Empty));
                }
            },
            Some(RespOneof::SqlMeta(meta)) => {
                out.push(TopSqlSubResponse { resp_oneof: Some(RespOneof::SqlMeta(meta)) });
                proof {
                    assert(views(out@) =~= out_before.push(message@));
                }
            },
            Some(RespOneof::PlanMeta(meta)) => {
                out.push(TopSqlSubResponse { resp_oneof: Some(RespOneof::PlanMeta(meta)) });
                proof {
                    assert(views(out@) =~= out_before.push(message@));
                }
            },
            Some(RespOneof::Record(record)) => {
                let TopSqlRecord { sql_digest, plan_digest, items: record_items } = record;
                let ghost rv: RecordView = Group {
                    key: (sql_digest@, plan_digest@),
                    items: item_views(record_items@),
                };
                assert(message@ == MessageView::Record(rv));
                let m = record_items.len();
                if sql_digest.len() == 0 {
                    let mut j: usize = 0;
                    let ghost others_start = item_views(others@);
                    assert(item_views(others@) =~= others_start + rv.items.take(0));
                    for x in it2: record_items
                        invariant
                            j == it2.index(),
                            m == it2.seq().len(),
                            rv.items == item_views(it2.seq()),
                            item_views(others@) == others_start + rv.items.take(j as int),
                    {
                        let ghost before = item_views(others@);
                        others.push(x);
                        proof {
                            assert(item_views(others@) =~= before.push(x@));
                            assert(rv.items.take(j + 1) =~= rv.items.take(j as int).push(x@));
                            assert(item_views(others@) =~= others_start + rv.items.take(j + 1));
                        }
                        j = j + 1;
                    }
                    proof {
                        assert(rv.items.take(j as int) == rv.items);
                    }
                } else {
                    let g = sqls.len();
                    let ghost sqls_before = sqls@;
                    let ghost plans_before = plans@;
                    sqls.push(sql_digest);
                    plans.push(plan_digest);
                    proof {
                        assert(sample_seq(sqls@, plans@, key_of@, items@) =~= sample_seq(
                            sqls_before,
                            plans_before,
                            key_of@,
                            items@,
                        ));
                        assert(samples_of(rv).take(0) =~= Seq::<Sample<DigestKey, ItemView>>::empty());
                        assert(digest_samples(done) + samples_of(rv).take(0) =~= digest_samples(
                            done,
                        ));
                    }
                    let mut j: usize = 0;
                    for x in it2: record_items
                        invariant
                            j == it2.index(),
                            m == it2.seq().len(),
                            rv.items == item_views(it2.seq()),
                            g + 1 == sqls@.len(),
                            sqls@.len() == plans@.len(),
                            (sqls@[g as int]@, plans@[g as int]@) == rv.key,
                            key_of@.len() == items@.len(),
                            forall|i: int| 0 <= i < key_of@.len() ==> key_of@[i] < sqls@.len(),
                            sample_seq(sqls@, plans@, key_of@, items@) == digest_samples(done)
                                + samples_of(rv).take(j as int),
                            keys@ == rank_keys(
                                digest_samples(done) + samples_of(rv).take(j as int),
                            ),
                    {
                        key_of.push(g);
                        keys.push(
                            RankKey { timestamp_sec: x.timestamp_sec, cpu_time_ms: x.cpu_time_ms },
                        );
                        let ghost xv = x@;
                        items.push(x);
                        proof {
                            let before = digest_samples(done) + samples_of(rv).take(j as int);
                            let after = digest_samples(done) + samples_of(rv).take(j + 1);
                            assert(rv.items[j as int] == xv);
                            assert(samples_of(rv).take(j + 1) =~= samples_of(rv).take(
                                j as int,
                            ).push(Sample { key: rv.key, item: xv }));
                            assert(after =~= before.push(Sample { key: rv.key, item: xv }));
                            assert(sample_seq(sqls@, plans@, key_of@, items@) =~= after);
                            assert(keys@ =~= rank_keys(after));
                        }
                        j = j + 1;
                    }
                    proof {
                        assert(samples_of(rv).take(j as int) == samples_of(rv));
                    }
                }
            },
        }
    }
    proof {
        assert(input.take(input.len() as int) == input);
    }
    let ghost samples = digest_samples(input);
    let ghost flags = kept_flags(samples, top_n as nat);
    let kept = select_top_n(&keys, top_n);
    proof {
        assert(kept@ =~= flags);
    }
    let mut groups: Vec<TopSqlRecord> = Vec::new();
    let n = items.len();
    let mut i: usize = 0;
    let ghost others_before = item_views(others@);
    proof {
        assert(record_views(groups@) =~= grouped(kept_samples(samples.take(0), flags.take(0))));
        assert(item_views(others@) =~= others_before + evicted_items(
            samples.take(0),
            flags.take(0),
        ));
    }
    for x in it: items
        invariant
            i == it.index(),
            n == it.seq().len(),
            n == samples.len(),
            key_of@.len() == n,
            kept@.len() == n,
            kept@ == flags,
            sqls@.len() == plans@.len(),
            forall|k: int| 0 <= k < n ==> key_of@[k] < sqls@.len(),
            sample_seq(sqls@, plans@, key_of@, it.seq()) == samples,
            record_views(groups@) == grouped(
                kept_samples(samples.take(i as int), flags.take(i as int)),
            ),
            item_views(others@) == others_before + evicted_items(
                samples.take(i as int),
                flags.take(i as int),
            ),
    {
        proof {
            assert(samples.take(i + 1).drop_last() == samples.take(i as int));
            assert(flags.take(i + 1).drop_last() == flags.take(i as int));
            assert(samples[i as int] == sample_seq(sqls@, plans@, key_of@, it.seq())[i as int]);
            assert(samples[i as int] == Sample {
                key: (sqls@[key_of@[i as int] as int]@, plans@[key_of@[i as int] as int]@),
                item: x@,
            });
        }
        if kept[i] {
            add_to_group(&mut groups, &sqls[key_of[i]], &plans[key_of[i]], x);
            proof {
                let before = kept_samples(samples.take(i as int), flags.take(i as int));
                let after = kept_samples(samples.take(i + 1), flags.take(i + 1));
                assert(after == before.push(samples[i as int]));
                assert(after.drop_last() == before);
            }
        } else {
            let ghost before = item_views(others@);
            others.push(x);
            proof {
                assert(item_views(others@) =~= before.push(x@));
                assert(item_views(others@) =~= others_before + evicted_items(
                    samples.take(i + 1),
                    flags.take(i + 1),
                ));
            }
        }
        i = i + 1;
    }
    proof {
        assert(samples.take(n as int) == samples);
        assert(flags.take(n as int) == flags);
        assert forall|t: u64, c: Counter| #[trigger]
            second_total(item_views(others@), t, c) <= ItemView::limit(c) by {
            lemma_second_total_concat(others_before, evicted_items(samples, flags), t, c);
            lemma_second_total_concat(others_before, items_of(samples), t, c);
            lemma_evicted_within(samples, flags, t, c);
            assert(second_total(counted_items(input), t, c) <= ItemView::limit(c));
        }
    }
    let folded = fold_items(others);
    let ghost passed = views(out@);
    let ghost group_views = record_views(groups@);
    proof {
        assert(views(out@) =~= passed + group_views.take(0).map_values(
            |r: RecordView| MessageView::Record(r),
        ));
    }
    for group in it: groups
        invariant
            group_views == record_views(it.seq()),
            views(out@) == passed + group_views.take(it.index() as int).map_values(
                |r: RecordView| MessageView::Record(r),
            ),
    {
        proof {
            assert(group_views.take(it.index() + 1) =~= group_views.take(it.index() as int).push(
                group@,
            ));
        }
        let ghost out_before = out@;
        out.push(TopSqlSubResponse { resp_oneof: Some(RespOneof::Record(group)) });
        proof {
            assert(views(out@) =~= views(out_before).push(MessageView::Record(group@)));
            assert(views(out@) =~= passed + group_views.take(it.index() + 1).map_values(
                |r: RecordView| MessageView::Record(r),
            ));
        }
    }
    proof {
        assert(group_views.take(group_views.len() as int) == group_views);
    }
    if folded.len() > 0 {
        let ghost out_before = views(out@);
        let record = TopSqlRecord { sql_digest: Vec::new(), plan_digest: Vec::new(), items: folded };
        proof {
            assert(record@.key.0 =~= others_key().0);
            assert(record@.key.1 =~= others_key().1);
            assert(record@ == Group { key: others_key(), items: item_views(folded@) });
        }
        out.push(TopSqlSubResponse { resp_oneof: Some(RespOneof::Record(record)) });
        proof {
            assert(views(out@) =~= out_before.push(MessageView::Record(record@)));
        }
    }
    proof {
        assert(item_views(folded@).len() == folded@.len());
        assert(views(out@) =~= kept_top_n(input, top_n as nat));
    }
    out
}

/// Whether retention can be applied: whether, of every second, the totals of
/// the items fit their counters.
pub fn can_keep_top_n(messages: &Vec<TopSqlSubResponse>) -> (r: bool)
    ensures
        r == totals_fit(counted_items(views(messages@))),
{
    let ghost input = views(messages@);
    let mut all: Vec<TopSqlRecordItem> = Vec::new();
    let mut i: usize = 0;
    proof {
        assert(item_views(all@) =~= others_items(input.take(0)));
    }
    while i < messages.len()
        invariant
            i <= messages@.len(),
            input == views(messages@),
            item_views(all@) == others_items(input.take(i as int)),
        decreases messages@.len() - i,
    {
        proof {
            assert(input.take(i + 1).drop_last() == input.take(i as int));
            assert(input.take(i + 1).last() == messages@[i as int]@);
        }
        match &messages[i].resp_oneof {
            Some(RespOneof::Record(record)) => {
                if record.sql_digest.len() == 0 {
                    let ghost start = item_views(all@);
                    let ghost rv = record@;
                    let mut j: usize = 0;
                    proof {
                        assert(start =~= start + rv.items.take(0));
                    }
                    while j < record.items.len()
                        invariant
                            j <= record.items@.len(),
                            rv == record@,
                            item_views(all@) == start + rv.items.take(j as int),
                        decreases record.items@.len() - j,
                    {
                        let x = record.items[j].clone();
                        let ghost before = item_views(all@);
                        all.push(x);
                        proof {
                            assert(rv.items[j as int] == x@);
                            assert(item_views(all@) =~= before.push(x@));
                            assert(item_views(all@) =~= start + rv.items.take(j + 1));
                        }
                        j = j + 1;
                    }
                    proof {
                        assert(rv.items.take(j as int) == rv.items);
                    }
                }
            },
            _ => {},
        }
        i = i + 1;
    }
    proof {
        assert(input.take(i as int) == input);
    }
    let ghost others = item_views(all@);
    let mut k: usize = 0;
    proof {
        assert(others =~= others + items_of(digest_samples(input.take(0))));
    }
    while k < messages.len()
        invariant
            k <= messages@.len(),
            input == views(messages@),
            others == others_items(input),
            item_views(all@) == others + items_of(digest_samples(input.take(k as int))),
        decreases messages@.len() - k,
    {
        proof {
            assert(input.take(k + 1).drop_last() == input.take(k as int));
            assert(input.take(k + 1).last() == messages@[k as int]@);
        }
        match &messages[k].resp_oneof {
            Some(RespOneof::Record(record)) => {
                if record.sql_digest.len() > 0 {
                    let ghost done = digest_samples(input.take(k as int));
                    let ghost rv = record@;
                    let mut j: usize = 0;
                    proof {
                        assert(item_views(all@) =~= others + items_of(
                            done + samples_of(rv).take(0),
                        ));
                    }
                    while j < record.items.len()
                        invariant
                            j <= record.items@.len(),
                            rv == record@,
                            item_views(all@) == others + items_of(
                                done + samples_of(rv).take(j as int),
                            ),
                        decreases record.items@.len() - j,
                    {
                        let x = record.items[j].clone();
                        let ghost before = item_views(all@);
                        all.push(x);
                        proof {
                            assert(rv.items[j as int] == x@);
                            assert(item_views(all@) =~= before.push(x@));
                            assert(samples_of(rv).take(j + 1) =~= samples_of(rv).take(
                                j as int,
                            ).push(Sample { key: rv.key, item: x@ }));
                            assert(item_views(all@) =~= others + items_of(
                                done + samples_of(rv).take(j + 1),
                            ));
                        }
                        j = j + 1;
                    }
                    proof {
                        assert(samples_of(rv).take(j as int) == samples_of(rv));
                    }
                }
            },
            _ => {},
        }
        k = k + 1;
    }
    proof {
        assert(input.take(k as int) == input);
    }
    check_totals_fit(&all)
}

/// Sum of counter `c` over the items of second `t` in all records among the
/// messages.
pub open spec fn records_total(messages: Seq<MessageView>, t: u64, c: Counter) -> int
    decreases messages.len(),
{
    if messages.len() == 0 {
        0
    } else {
        records_total(messages.drop_last(), t, c) + match messages.last() {
            MessageView::Record(record) => second_total(record.items, t, c),
            _ => 0,
        }
    }
}

proof fn lemma_records_total_concat(a: Seq<MessageView>, b: Seq<MessageView>, t: u64, c: Counter)
    ensures
        records_total(a + b, t, c) == records_total(a, t, c) + records_total(b, t, c),
    decreases b.len(),
{
    if b.len() == 0 {
        assert(a + b == a);
    } else {
        lemma_records_total_concat(a, b.drop_last(), t, c);
        assert((a + b).drop_last() == a + b.drop_last());
    }
}

proof fn lemma_passed_through_total(messages: Seq<MessageView>, t: u64, c: Counter)
    ensures
        records_total(passed_through(messages), t, c) == 0,
    decreases messages.len(),
{
    if messages.len() > 0 {
        lemma_passed_through_total(messages.drop_last(), t, c);
        if !(messages.last() is Record) {
            assert(passed_through(messages).drop_last() == passed_through(messages.drop_last()));
        }
    }
}

proof fn lemma_groups_as_messages(groups: Seq<RecordView>, t: u64, c: Counter)
    ensures
        records_total(groups.map_values(|r: RecordView| MessageView::Record(r)), t, c)
            == groups_total(groups, t, c),
    decreases groups.len(),
{
    if groups.len() > 0 {
        lemma_groups_as_messages(groups.drop_last(), t, c);
        assert(groups.map_values(|r: RecordView| MessageView::Record(r)).drop_last()
            =~= groups.drop_last().map_values(|r: RecordView| MessageView::Record(r)));
    }
}

/// Retention conserves every counter of every second: what the records of
/// the output hold for a second, the retained and the "others" together, is
/// what the records of the input held for it.
pub proof fn lemma_keep_top_n_conserves(messages: Seq<MessageView>, top_n: nat, t: u64, c: Counter)
    requires
        totals_fit(counted_items(messages)),
    ensures
        records_total(kept_top_n(messages, top_n), t, c) == second_total(
            counted_items(messages),
            t,
            c,
        ),
{
    let samples = digest_samples(messages);
    let flags = kept_flags(samples, top_n);
    let merged = others_items(messages) + evicted_items(samples, flags);
    let others = folded_others(messages, top_n);
    let groups = grouped(kept_samples(samples, flags));
    let wrapped = groups.map_values(|r: RecordView| MessageView::Record(r));
    let tail = if others.len() > 0 {
        seq![MessageView::Record(Group { key: others_key(), items: others })]
    } else {
        seq![]
    };
    assert forall|t2: u64, c2: Counter| #[trigger]
        second_total(merged, t2, c2) <= ItemView::limit(c2) by {
        lemma_second_total_concat(others_items(messages), evicted_items(samples, flags), t2, c2);
        lemma_second_total_concat(others_items(messages), items_of(samples), t2, c2);
        lemma_evicted_within(samples, flags, t2, c2);
        assert(second_total(counted_items(messages), t2, c2) <= ItemView::limit(c2));
    }
    lemma_fold_by_second(merged);
    assert(second_total(others, t, c) == second_total(merged, t, c));
    lemma_records_total_concat(passed_through(messages) + wrapped, tail, t, c);
    lemma_records_total_concat(passed_through(messages), wrapped, t, c);
    lemma_passed_through_total(messages, t, c);
    lemma_groups_as_messages(groups, t, c);
    lemma_grouped_total(kept_samples(samples, flags), t, c);
    lemma_split_total(samples, flags, t, c);
    lemma_second_total_concat(others_items(messages), evicted_items(samples, flags), t, c);
    lemma_second_total_concat(others_items(messages), items_of(samples), t, c);
    if others.len() > 0 {
        assert(tail.drop_last() =~= Seq::<MessageView>::empty());
        assert(tail.last() == MessageView::Record(Group { key: others_key(), items: others }));
        assert(records_total(tail.drop_last(), t, c) == 0);
        assert(records_total(tail, t, c) == second_total(others, t, c));
    } else {
        assert(second_total(others, t, c) == 0);
    }
}

/// No TiKV instance occurs twice among the counts of the item: the counts
/// are a map from instances to numbers.
pub open spec fn instances_distinct(x: ItemView) -> bool {
    kv_distinct(x.stmt_kv_exec_count)
}

/// The items of a message: those of its record, if it holds one.
pub open spec fn items_in(message: MessageView) -> Seq<ItemView> {
    match message {
        MessageView::Record(record) => record.items,
        _ => seq![],
    }
}

/// In every item of every record, no TiKV instance occurs twice.
pub open spec fn counts_are_maps(messages: Seq<MessageView>) -> bool {
    forall|i: int, j: int|
        0 <= i < messages.len() && 0 <= j < items_in(messages[i]).len() ==> instances_distinct(
            #[trigger] items_in(messages[i])[j],
        )
}

proof fn lemma_inputs_hold(messages: Seq<MessageView>, p: spec_fn(ItemView) -> bool)
    requires
        forall|i: int, j: int|
            0 <= i < messages.len() && 0 <= j < items_in(messages[i]).len() ==> p(
                #[trigger] items_in(messages[i])[j],
            ),
    ensures
        all_hold(items_of(digest_samples(messages)), p),
        all_hold(others_items(messages), p),
    decreases messages.len(),
{
    if messages.len() > 0 {
        let front = messages.drop_last();
        assert forall|i: int, j: int|
            0 <= i < front.len() && 0 <= j < items_in(front[i]).len() implies p(
            #[trigger] items_in(front[i])[j],
        ) by {
            assert(front[i] == messages[i]);
            assert(p(items_in(messages[i])[j]));
        }
        lemma_inputs_hold(front, p);
        let last = messages[messages.len() - 1];
        let samples = items_of(digest_samples(messages));
        let others = others_items(messages);
        assert forall|k: int| 0 <= k < samples.len() implies p(#[trigger] samples[k]) by {
            let before = items_of(digest_samples(front));
            if k < before.len() {
                assert(samples[k] == before[k]);
            } else {
                assert(samples[k] == items_in(messages[messages.len() - 1])[k - before.len()]);
            }
        }
        assert forall|k: int| 0 <= k < others.len() implies p(#[trigger] others[k]) by {
            let before = others_items(front);
            if k < before.len() {
                assert(others[k] == before[k]);
            } else {
                assert(others[k] == items_in(messages[messages.len() - 1])[k - before.len()]);
            }
        }
    }
}

/// Retention keeps the counts maps: where no item of the input names a TiKV
/// instance twice, no item of the output does.
pub proof fn lemma_keep_top_n_keeps_maps(messages: Seq<MessageView>, top_n: nat)
    requires
        counts_are_maps(messages),
    ensures
        counts_are_maps(kept_top_n(messages, top_n)),
{
    let p = |x: ItemView| instances_distinct(x);
    let samples = digest_samples(messages);
    let flags = kept_flags(samples, top_n);
    let others = folded_others(messages, top_n);
    let groups = grouped(kept_samples(samples, flags));
    let wrapped = groups.map_values(|r: RecordView| MessageView::Record(r));
    let passed = passed_through(messages);
    assert forall|i: int, j: int|
        0 <= i < messages.len() && 0 <= j < items_in(messages[i]).len() implies p(
        #[trigger] items_in(messages[i])[j],
    ) by {
        assert(instances_distinct(items_in(messages[i])[j]));
    }
    lemma_inputs_hold(messages, p);
    lemma_split_holds(samples, flags, p);
    lemma_grouped_holds(kept_samples(samples, flags), p);
    let merged = others_items(messages) + evicted_items(samples, flags);
    assert(all_hold(merged, p)) by {
        assert forall|k: int| 0 <= k < merged.len() implies p(#[trigger] merged[k]) by {
            if k < others_items(messages).len() {
                assert(merged[k] == others_items(messages)[k]);
            } else {
                assert(merged[k] == evicted_items(samples, flags)[k - others_items(messages).len()]);
            }
        }
    }
    assert forall|a: ItemView, b: ItemView| p(a) implies p(#[trigger] a.plus(b)) by {
        lemma_kv_merge_distinct(a.stmt_kv_exec_count, b.stmt_kv_exec_count);
    }
    lemma_fold_holds(merged, p);
    lemma_passed_through_holds_no_record(messages);
    let out = kept_top_n(messages, top_n);
    assert forall|i: int, j: int|
        0 <= i < out.len() && 0 <= j < items_in(out[i]).len() implies instances_distinct(
        #[trigger] items_in(out[i])[j],
    ) by {
        if i < passed.len() {
            assert(out[i] == passed[i]);
        } else if i < passed.len() + wrapped.len() {
            assert(out[i] == wrapped[i - passed.len()]);
            assert(items_in(out[i]) == groups[i - passed.len()].items);
            assert(all_hold(groups[i - passed.len()].items, p));
            assert(p(items_in(out[i])[j]));
        } else {
            assert(items_in(out[i]) == others);
            assert(p(others[j]));
        }
    }
}

proof fn lemma_passed_through_holds_no_record(messages: Seq<MessageView>)
    ensures
        forall|i: int|
            0 <= i < passed_through(messages).len() ==> !(#[trigger] passed_through(
                messages,
            )[i] is Record),
    decreases messages.len(),
{
    if messages.len() > 0 {
        lemma_passed_through_holds_no_record(messages.drop_last());
        let front = passed_through(messages.drop_last());
        assert forall|i: int| 0 <= i < passed_through(messages).len() implies !(
        #[trigger] passed_through(messages)[i] is Record) by {
            if i < front.len() {
                assert(passed_through(messages)[i] == front[i]);
            }
        }
    }
}

} // verus!
