//! The executions that a statement caused on TiKV instances: a list of
//! counts, one per instance.

use vstd::prelude::*;

verus! {

/// How often a statement ran on one TiKV instance.
#[derive(Debug, PartialEq, Eq)]
pub struct KvExecCount {
    pub instance: String,
    pub count: u64,
}

/// A count as the contracts see it.
pub struct KvView {
    pub instance: Seq<char>,
    pub count: u64,
}

impl View for KvExecCount {
    type V = KvView;

    open spec fn view(&self) -> KvView {
        KvView { instance: self.instance@, count: self.count }
    }
}

impl Clone for KvExecCount {
    fn clone(&self) -> (copy: KvExecCount)
        ensures
            copy@ == self@,
    {
        KvExecCount { instance: self.instance.clone(), count: self.count }
    }
}

/// The views of a list of counts.
pub open spec fn kv_views(kv: Seq<KvExecCount>) -> Seq<KvView> {
    kv.map_values(|e: KvExecCount| e@)
}

/// Sum of the counts of instance `key`.
pub open spec fn kv_count(kv: Seq<KvView>, key: Seq<char>) -> int
    decreases kv.len(),
{
    if kv.len() == 0 {
        0
    } else {
        kv_count(kv.drop_last(), key) + if kv.last().instance == key {
            kv.last().count as int
        } else {
            0
        }
    }
}

/// No instance occurs twice.
pub open spec fn kv_distinct(kv: Seq<KvView>) -> bool {
    forall|i: int, j: int| 0 <= i < j < kv.len() ==> kv[i].instance != kv[j].instance
}

/// The position of the first count of instance `key`.
pub open spec fn kv_find(kv: Seq<KvView>, key: Seq<char>) -> Option<int>
    decreases kv.len(),
{
    if kv.len() == 0 {
        None
    } else {
        match kv_find(kv.drop_last(), key) {
            Some(i) => Some(i),
            None => if kv.last().instance == key {
                Some(kv.len() - 1)
            } else {
                None
            },
        }
    }
}

/// `kv` with `e` added to the count of its instance; where the instance has
/// none yet, `e` comes last.
pub open spec fn kv_add(kv: Seq<KvView>, e: KvView) -> Seq<KvView> {
    match kv_find(kv, e.instance) {
        Some(i) => kv.update(
            i,
            KvView { instance: e.instance, count: (kv[i].count + e.count) as u64 },
        ),
        None => kv.push(e),
    }
}

/// `a` with every count of `b` added.
pub open spec fn kv_merge(a: Seq<KvView>, b: Seq<KvView>) -> Seq<KvView>
    decreases b.len(),
{
    if b.len() == 0 {
        a
    } else {
        kv_add(kv_merge(a, b.drop_last()), b.last())
    }
}

/// The sum of the counts of an instance is not negative.
pub proof fn lemma_kv_count_nonneg(kv: Seq<KvView>, key: Seq<char>)
    ensures
        0 <= kv_count(kv, key),
    decreases kv.len(),
{
    if kv.len() > 0 {
        lemma_kv_count_nonneg(kv.drop_last(), key);
    }
}

/// The sum of an instance over the first counts is not negative and no more
/// than the sum over all.
pub proof fn lemma_kv_count_prefix(kv: Seq<KvView>, key: Seq<char>, k: int)
    requires
        0 <= k <= kv.len(),
    ensures
        0 <= kv_count(kv.take(k), key) <= kv_count(kv, key),
    decreases kv.len() - k,
{
    lemma_kv_count_nonneg(kv.take(k), key);
    if k == kv.len() {
        assert(kv.take(k) == kv);
    } else {
        assert(kv.take(k + 1).drop_last() == kv.take(k));
        lemma_kv_count_prefix(kv, key, k + 1);
    }
}

/// A count is no more than the sum of the counts of its instance.
pub proof fn lemma_kv_entry_within(kv: Seq<KvView>, i: int)
    requires
        0 <= i < kv.len(),
    ensures
        kv[i].count <= kv_count(kv, kv[i].instance),
    decreases kv.len(),
{
    lemma_kv_count_nonneg(kv.drop_last(), kv[i].instance);
    if i < kv.len() - 1 {
        lemma_kv_entry_within(kv.drop_last(), i);
    }
}

/// Where `kv_find` finds a count, it is of the instance; where it finds none,
/// the instance has no count.
pub proof fn lemma_kv_find(kv: Seq<KvView>, key: Seq<char>)
    ensures
        match kv_find(kv, key) {
            Some(i) => 0 <= i < kv.len() && kv[i].instance == key,
            None => forall|k: int| 0 <= k < kv.len() ==> kv[k].instance != key,
        },
    decreases kv.len(),
{
    if kv.len() > 0 {
        let front = kv.drop_last();
        lemma_kv_find(front, key);
        if kv_find(kv, key) is None {
            assert forall|k: int| 0 <= k < kv.len() implies kv[k].instance != key by {
                if k < front.len() {
                    assert(front[k].instance != key);
                }
            }
        }
    }
}

/// What `kv_find` finds among the first `k` counts, it finds among all.
pub proof fn lemma_kv_find_prefix(kv: Seq<KvView>, key: Seq<char>, k: int)
    requires
        0 <= k <= kv.len(),
        kv_find(kv.take(k), key) is Some,
    ensures
        kv_find(kv, key) == kv_find(kv.take(k), key),
    decreases kv.len() - k,
{
    if k < kv.len() {
        assert(kv.take(k + 1).drop_last() == kv.take(k));
        lemma_kv_find_prefix(kv, key, k + 1);
    } else {
        assert(kv.take(k) == kv);
    }
}

proof fn lemma_kv_count_update(kv: Seq<KvView>, i: int, e: KvView, key: Seq<char>)
    requires
        0 <= i < kv.len(),
    ensures
        kv_count(kv.update(i, e), key) == kv_count(kv, key) - (if kv[i].instance == key {
            kv[i].count as int
        } else {
            0
        }) + (if e.instance == key {
            e.count as int
        } else {
            0
        }),
    decreases kv.len(),
{
    if i < kv.len() - 1 {
        lemma_kv_count_update(kv.drop_last(), i, e, key);
        assert(kv.update(i, e).drop_last() =~= kv.drop_last().update(i, e));
    } else {
        assert(kv.update(i, e).drop_last() =~= kv.drop_last());
    }
}

/// Adding a count raises the sum of its instance by it and leaves the sums of
/// the other instances as they were.
pub proof fn lemma_kv_add_count(kv: Seq<KvView>, e: KvView, key: Seq<char>)
    requires
        e.instance == key ==> kv_count(kv, key) + e.count <= u64::MAX,
    ensures
        kv_count(kv_add(kv, e), key) == kv_count(kv, key) + if e.instance == key {
            e.count as int
        } else {
            0
        },
{
    lemma_kv_find(kv, e.instance);
    match kv_find(kv, e.instance) {
        Some(i) => {
            let sum = KvView { instance: e.instance, count: (kv[i].count + e.count) as u64 };
            lemma_kv_count_update(kv, i, sum, key);
            if e.instance == key {
                lemma_kv_entry_within(kv, i);
            }
        },
        None => {
            assert(kv.push(e).drop_last() =~= kv);
        },
    }
}

/// Adding a count keeps the instances distinct.
pub proof fn lemma_kv_add_distinct(kv: Seq<KvView>, e: KvView)
    requires
        kv_distinct(kv),
    ensures
        kv_distinct(kv_add(kv, e)),
{
    lemma_kv_find(kv, e.instance);
}

/// Merging keeps the instances distinct.
pub proof fn lemma_kv_merge_distinct(a: Seq<KvView>, b: Seq<KvView>)
    requires
        kv_distinct(a),
    ensures
        kv_distinct(kv_merge(a, b)),
    decreases b.len(),
{
    if b.len() > 0 {
        lemma_kv_merge_distinct(a, b.drop_last());
        lemma_kv_add_distinct(kv_merge(a, b.drop_last()), b.last());
    }
}

/// After merging, the sum of an instance is the sum of its sums in the two
/// lists.
pub proof fn lemma_kv_merge_count(a: Seq<KvView>, b: Seq<KvView>, key: Seq<char>)
    requires
        kv_count(a, key) + kv_count(b, key) <= u64::MAX,
    ensures
        kv_count(kv_merge(a, b), key) == kv_count(a, key) + kv_count(b, key),
    decreases b.len(),
{
    if b.len() > 0 {
        lemma_kv_count_nonneg(b.drop_last(), key);
        lemma_kv_merge_count(a, b.drop_last(), key);
        lemma_kv_add_count(kv_merge(a, b.drop_last()), b.last(), key);
    }
}

fn find_instance(kv: &Vec<KvExecCount>, instance: &String) -> (found: Option<usize>)
    ensures
        match found {
            Some(i) => kv_find(kv_views(kv@), instance@) == Some(i as int) && i < kv@.len(),
            None => kv_find(kv_views(kv@), instance@) is None,
        },
{
    let mut i: usize = 0;
    while i < kv.len()
        invariant
            i <= kv@.len(),
            kv_find(kv_views(kv@).take(i as int), instance@) is None,
        decreases kv@.len() - i,
    {
        let same = kv[i].instance == *instance;
        proof {
            let v = kv_views(kv@);
            assert(v.take(i + 1).drop_last() == v.take(i as int));
            assert(v[i as int].instance == kv@[i as int].instance@);
        }
        if same {
            proof {
                lemma_kv_find_prefix(kv_views(kv@), instance@, i + 1);
            }
            return Some(i);
        }
        i = i + 1;
    }
    proof {
        assert(kv_views(kv@).take(i as int) == kv_views(kv@));
    }
    None
}

/// Adds the counts of `other` to those of `acc`.
pub fn kv_merge_into(acc: &mut Vec<KvExecCount>, other: Vec<KvExecCount>)
    requires
        forall|key: Seq<char>| #[trigger]
            kv_count(kv_views(old(acc)@), key) + kv_count(kv_views(other@), key) <= u64::MAX,
    ensures
        kv_views(final(acc)@) == kv_merge(kv_views(old(acc)@), kv_views(other@)),
{
    let ghost a = kv_views(acc@);
    let ghost b = kv_views(other@);
    let n = other.len();
    let mut j: usize = 0;
    for e in it: other
        invariant
            j == it.index(),
            n == it.seq().len(),
            b == kv_views(it.seq()),
            a == kv_views(old(acc)@),
            kv_views(acc@) == kv_merge(a, b.take(j as int)),
            forall|key: Seq<char>| #[trigger] kv_count(a, key) + kv_count(b, key) <= u64::MAX,
    {
        proof {
            assert(b.take(j + 1).drop_last() == b.take(j as int));
            assert(b.take(j + 1).last() == e@);
            lemma_kv_count_prefix(b, e@.instance, j as int);
            lemma_kv_count_prefix(b, e@.instance, j + 1);
            assert(kv_count(a, e@.instance) + kv_count(b, e@.instance) <= u64::MAX);
            lemma_kv_merge_count(a, b.take(j as int), e@.instance);
            lemma_kv_find(kv_views(acc@), e@.instance);
        }
        match find_instance(acc, &e.instance) {
            Some(i) => {
                proof {
                    lemma_kv_entry_within(kv_views(acc@), i as int);
                }
                let ghost before = kv_views(acc@);
                let sum = acc[i].count + e.count;
                acc[i].count = sum;
                proof {
                    assert(kv_views(acc@) =~= before.update(
                        i as int,
                        KvView { instance: e@.instance, count: sum },
                    ));
                }
            },
            None => {
                let ghost before = kv_views(acc@);
                acc.push(e);
                proof {
                    assert(kv_views(acc@) =~= before.push(e@));
                }
            },
        }
        j = j + 1;
    }
    proof {
        assert(b.take(j as int) == b);
    }
}

/// A copy of the counts.
pub fn kv_clone(kv: &Vec<KvExecCount>) -> (copy: Vec<KvExecCount>)
    ensures
        kv_views(copy@) == kv_views(kv@),
{
    let mut copy: Vec<KvExecCount> = Vec::new();
    let mut i: usize = 0;
    while i < kv.len()
        invariant
            i <= kv@.len(),
            kv_views(copy@) == kv_views(kv@).take(i as int),
        decreases kv@.len() - i,
    {
        let e = kv[i].clone();
        assert(e@ == kv@[i as int]@);
        let ghost before = kv_views(copy@);
        copy.push(e);
        proof {
            assert(kv_views(copy@) =~= before.push(e@));
            assert(kv_views(kv@).take(i + 1) =~= kv_views(kv@).take(i as int).push(kv@[i as int]@));
        }
        i = i + 1;
    }
    proof {
        assert(kv_views(kv@).take(i as int) == kv_views(kv@));
    }
    copy
}

/// An instance without a count has the sum zero.
pub proof fn lemma_kv_count_absent(kv: Seq<KvView>, key: Seq<char>)
    requires
        forall|i: int| 0 <= i < kv.len() ==> kv[i].instance != key,
    ensures
        kv_count(kv, key) == 0,
    decreases kv.len(),
{
    if kv.len() > 0 {
        lemma_kv_count_absent(kv.drop_last(), key);
    }
}

/// The sum of the counts of an instance, where it fits 64 bits.
pub fn kv_total(kv: &Vec<KvExecCount>, instance: &String) -> (total: Option<u64>)
    ensures
        match total {
            Some(v) => v == kv_count(kv_views(kv@), instance@),
            None => kv_count(kv_views(kv@), instance@) > u64::MAX,
        },
{
    let ghost all = kv_views(kv@);
    let mut total: u64 = 0;
    let mut i: usize = 0;
    while i < kv.len()
        invariant
            i <= kv@.len(),
            all == kv_views(kv@),
            total == kv_count(all.take(i as int), instance@),
        decreases kv@.len() - i,
    {
        proof {
            assert(all.take(i + 1).drop_last() == all.take(i as int));
            assert(all.take(i + 1).last() == kv@[i as int]@);
        }
        if kv[i].instance == *instance {
            if total > u64::MAX - kv[i].count {
                proof {
                    lemma_kv_count_prefix(all, instance@, i + 1);
                }
                return None;
            }
            total = total + kv[i].count;
        }
        i = i + 1;
    }
    proof {
        assert(all.take(i as int) == all);
    }
    Some(total)
}

/// Whether the counts of `other` can be added to those of `acc`: whether the
/// sums of every instance fit 64 bits.
pub fn kv_fits(acc: &Vec<KvExecCount>, other: &Vec<KvExecCount>) -> (r: bool)
    requires
        forall|key: Seq<char>| #[trigger] kv_count(kv_views(acc@), key) <= u64::MAX,
    ensures
        r == forall|key: Seq<char>| #[trigger]
            kv_count(kv_views(acc@), key) + kv_count(kv_views(other@), key) <= u64::MAX,
{
    let ghost a = kv_views(acc@);
    let ghost b = kv_views(other@);
    let mut i: usize = 0;
    while i < other.len()
        invariant
            i <= other@.len(),
            a == kv_views(acc@),
            b == kv_views(other@),
            forall|j: int|
                0 <= j < i ==> kv_count(a, #[trigger] b[j].instance) + kv_count(b, b[j].instance)
                    <= u64::MAX,
        decreases other@.len() - i,
    {
        let name = &other[i].instance;
        assert(b[i as int].instance == name@);
        let fits = match (kv_total(acc, name), kv_total(other, name)) {
            (Some(x), Some(y)) => x <= u64::MAX - y,
            _ => false,
        };
        if !fits {
            proof {
                lemma_kv_count_nonneg(a, name@);
                lemma_kv_count_nonneg(b, name@);
                assert(!(kv_count(a, name@) + kv_count(b, name@) <= u64::MAX));
            }
            return false;
        }
        i = i + 1;
    }
    proof {
        assert forall|key: Seq<char>| #[trigger] kv_count(a, key) + kv_count(b, key)
            <= u64::MAX by {
            if exists|j: int| 0 <= j < b.len() && b[j].instance == key {
                let j = choose|j: int| 0 <= j < b.len() && b[j].instance == key;
                assert(kv_count(a, b[j].instance) + kv_count(b, b[j].instance) <= u64::MAX);
            } else {
                lemma_kv_count_absent(b, key);
                assert(kv_count(a, key) <= u64::MAX);
            }
        }
    }
    true
}

} // verus!
