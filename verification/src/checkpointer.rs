//! Checkpoints of uploaded files: which file went to which object, when, and
//! until when that suppresses another upload of the same file.

use crate::set::Keyed;
use crate::time::{Span, Timestamp};
use vstd::prelude::*;

verus! {

/// What identifies an upload: the local file, the bucket and the object key.
#[derive(Debug, PartialEq, Eq, Hash, PartialOrd, Ord)]
pub struct UploadKey {
    pub filename: String,
    pub bucket: String,
    pub object_key: String,
}

/// An upload key as the contracts see it.
pub struct KeyView {
    pub filename: Seq<char>,
    pub bucket: Seq<char>,
    pub object_key: Seq<char>,
}

impl View for UploadKey {
    type V = KeyView;

    open spec fn view(&self) -> KeyView {
        KeyView { filename: self.filename@, bucket: self.bucket@, object_key: self.object_key@ }
    }
}

impl Clone for UploadKey {
    fn clone(&self) -> (copy: UploadKey)
        ensures
            copy@ == self@,
    {
        UploadKey {
            filename: self.filename.clone(),
            bucket: self.bucket.clone(),
            object_key: self.object_key.clone(),
        }
    }
}

/// What the sink reads of an event: the field `message`, which names the
/// local file, and the field `key`, which names the object.
#[derive(Debug, PartialEq, Eq)]
pub struct UploadEvent {
    pub message: Option<String>,
    pub key: Option<String>,
}

impl UploadKey {
    /// The upload that an event asks for. `None` where the event lacks the
    /// file name or the object key.
    pub fn from_event(event: &UploadEvent, bucket: &str) -> (key: Option<UploadKey>)
        ensures
            match (event.message, event.key) {
                (Some(message), Some(object_key)) => key matches Some(k) && k@ == (KeyView {
                    filename: message@,
                    bucket: bucket@,
                    object_key: object_key@,
                }),
                _ => key is None,
            },
    {
        match (&event.message, &event.key) {
            (Some(message), Some(object_key)) => Some(
                UploadKey {
                    filename: message.clone(),
                    bucket: bucket.to_owned(),
                    object_key: object_key.clone(),
                },
            ),
            _ => None,
        }
    }

    /// Whether two keys name the same upload.
    pub fn same(&self, other: &UploadKey) -> (r: bool)
        ensures
            r == (self@ == other@),
    {
        self.same_key(other)
    }

    fn same_key(&self, other: &UploadKey) -> (r: bool)
        ensures
            r == (self@ == other@),
    {
        let r = self.filename == other.filename && self.bucket == other.bucket && self.object_key
            == other.object_key;
        proof {
            if r {
                assert(self@.filename =~= other@.filename);
            }
        }
        r
    }
}

impl Keyed for UploadKey {
    fn same(&self, other: &UploadKey) -> (r: bool) {
        self.same_key(other)
    }
}

/// The record of one upload.
#[derive(Debug, PartialEq, Eq, PartialOrd, Ord)]
pub struct Checkpoint {
    pub upload_key: UploadKey,
    pub upload_at: Timestamp,
    pub expire_at: Timestamp,
}

/// A checkpoint as the contracts see it.
pub struct CheckpointView {
    pub key: KeyView,
    pub upload_at: Timestamp,
    pub expire_at: Timestamp,
}

impl View for Checkpoint {
    type V = CheckpointView;

    open spec fn view(&self) -> CheckpointView {
        CheckpointView {
            key: self.upload_key@,
            upload_at: self.upload_at,
            expire_at: self.expire_at,
        }
    }
}

impl Clone for Checkpoint {
    fn clone(&self) -> (copy: Checkpoint)
        ensures
            copy@ == self@,
    {
        Checkpoint {
            upload_key: self.upload_key.clone(),
            upload_at: self.upload_at,
            expire_at: self.expire_at,
        }
    }
}

/// The views of a list of checkpoints.
pub open spec fn checkpoint_views(list: Seq<Checkpoint>) -> Seq<CheckpointView> {
    list.map_values(|c: Checkpoint| c@)
}

/// The checkpoints as they are kept on disk.
#[derive(Debug, PartialEq, Eq)]
pub enum State {
    /// Version "1" of the file.
    V1 { checkpoints: Vec<Checkpoint> },
}

impl View for State {
    type V = Seq<CheckpointView>;

    open spec fn view(&self) -> Seq<CheckpointView> {
        match self {
            State::V1 { checkpoints } => checkpoint_views(checkpoints@),
        }
    }
}

/// When an upload was made and until when its record holds.
pub struct Times {
    pub upload_at: Timestamp,
    pub expire_at: Timestamp,
}

/// The checkpoints of a checkpointer: for each upload key the times of its
/// last upload.
pub type Checkpoints = Map<KeyView, Times>;

/// `m` with the checkpoints of `list` put in, one after the other: a later
/// one replaces an earlier one of the same key.
pub open spec fn load_into(m: Checkpoints, list: Seq<CheckpointView>) -> Checkpoints
    decreases list.len(),
{
    if list.len() == 0 {
        m
    } else {
        load_into(m, list.drop_last()).insert(
            list.last().key,
            Times { upload_at: list.last().upload_at, expire_at: list.last().expire_at },
        )
    }
}

/// The checkpoints that a list holds.
pub open spec fn map_of(list: Seq<CheckpointView>) -> Checkpoints {
    load_into(Map::empty(), list)
}

/// The checkpoints that have not expired at `now`.
pub open spec fn pruned(m: Checkpoints, now: Timestamp) -> Checkpoints {
    Map::new(
        |k: KeyView| m.contains_key(k) && m[k].expire_at.nanos >= now.nanos,
        |k: KeyView| m[k],
    )
}

/// Whether `m` records an upload of `key` that is not older than `after`.
pub open spec fn covers(m: Checkpoints, key: KeyView, after: Timestamp) -> bool {
    m.contains_key(key) && m[key].upload_at.nanos >= after.nanos
}

/// The checkpoints as a set of records.
pub open spec fn records(m: Checkpoints) -> Set<CheckpointView> {
    Set::new(
        |c: CheckpointView|
            m.contains_key(c.key) && m[c.key] == (Times {
                upload_at: c.upload_at,
                expire_at: c.expire_at,
            }),
    )
}

/// No key occurs twice.
pub open spec fn distinct_keys(list: Seq<CheckpointView>) -> bool {
    forall|i: int, j: int| 0 <= i < j < list.len() ==> list[i].key != list[j].key
}

/// Where no key occurs twice, the list and its map hold the same.
pub proof fn lemma_map_of_distinct(list: Seq<CheckpointView>)
    requires
        distinct_keys(list),
    ensures
        forall|i: int|
            0 <= i < list.len() ==> map_of(list).contains_key(#[trigger] list[i].key) && map_of(
                list,
            )[list[i].key] == (Times {
                upload_at: list[i].upload_at,
                expire_at: list[i].expire_at,
            }),
        forall|k: KeyView|
            map_of(list).contains_key(k) ==> exists|i: int|
                0 <= i < list.len() && #[trigger] list[i].key == k,
        map_of(list).dom().finite(),
        map_of(list).dom().len() == list.len(),
    decreases list.len(),
{
    if list.len() > 0 {
        let front = list.drop_last();
        let last = list.last();
        lemma_map_of_distinct(front);
        let mf = map_of(front);
        assert(!mf.contains_key(last.key)) by {
            if mf.contains_key(last.key) {
                let i = choose|i: int| 0 <= i < front.len() && #[trigger] front[i].key == last.key;
                assert(list[i].key == list[list.len() - 1].key);
            }
        }
        assert forall|i: int| 0 <= i < list.len() implies map_of(list).contains_key(
            #[trigger] list[i].key,
        ) && map_of(list)[list[i].key] == (Times {
            upload_at: list[i].upload_at,
            expire_at: list[i].expire_at,
        }) by {
            if i < front.len() {
                assert(front[i] == list[i]);
                assert(mf.contains_key(front[i].key));
            }
        }
        assert forall|k: KeyView| map_of(list).contains_key(k) implies exists|i: int|
            0 <= i < list.len() && #[trigger] list[i].key == k by {
            if k == last.key {
                assert(list[list.len() - 1].key == k);
            } else {
                assert(mf.contains_key(k));
                let i = choose|i: int| 0 <= i < front.len() && #[trigger] front[i].key == k;
                assert(list[i].key == k);
            }
        }
        assert(map_of(list).dom() =~= mf.dom().insert(last.key));
    } else {
        assert(map_of(list).dom() =~= Set::<KeyView>::empty());
    }
}

/// The checkpoints in memory.
pub struct CheckPointsView {
    entries: Vec<Checkpoint>,
}

impl View for CheckPointsView {
    type V = Checkpoints;

    closed spec fn view(&self) -> Checkpoints {
        map_of(checkpoint_views(self.entries@))
    }
}

impl CheckPointsView {
    /// No key has two entries.
    pub closed spec fn wf(&self) -> bool {
        distinct_keys(checkpoint_views(self.entries@))
    }

    /// No checkpoints.
    pub fn new() -> (v: CheckPointsView)
        ensures
            v.wf(),
            v@ == Map::<KeyView, Times>::empty(),
    {
        let v = CheckPointsView { entries: Vec::new() };
        proof {
            assert(checkpoint_views(v.entries@) =~= Seq::<CheckpointView>::empty());
        }
        v
    }

    fn find(&self, key: &UploadKey) -> (found: Option<usize>)
        requires
            self.wf(),
        ensures
            match found {
                Some(i) => i < self.entries@.len() && self.entries@[i as int].upload_key@ == key@,
                None => forall|i: int|
                    0 <= i < self.entries@.len() ==> self.entries@[i].upload_key@ != key@,
            },
    {
        let mut i: usize = 0;
        while i < self.entries.len()
            invariant
                i <= self.entries@.len(),
                forall|j: int| 0 <= j < i ==> self.entries@[j].upload_key@ != key@,
            decreases self.entries@.len() - i,
        {
            if self.entries[i].upload_key.same(key) {
                return Some(i);
            }
            i = i + 1;
        }
        None
    }

    /// The checkpoints as they go to disk.
    pub fn get_state(&self) -> (state: State)
        requires
            self.wf(),
        ensures
            map_of(state@) == self@,
            distinct_keys(state@),
            state@.to_set() == records(self@),
    {
        let mut checkpoints: Vec<Checkpoint> = Vec::new();
        let mut i: usize = 0;
        while i < self.entries.len()
            invariant
                i <= self.entries@.len(),
                checkpoint_views(checkpoints@) == checkpoint_views(self.entries@).take(i as int),
            decreases self.entries@.len() - i,
        {
            let c = self.entries[i].clone();
            let ghost before = checkpoint_views(checkpoints@);
            checkpoints.push(c);
            proof {
                assert(checkpoint_views(checkpoints@) =~= before.push(c@));
                assert(checkpoint_views(self.entries@).take(i + 1) =~= before.push(
                    self.entries@[i as int]@,
                ));
            }
            i = i + 1;
        }
        let state = State::V1 { checkpoints };
        proof {
            let list = checkpoint_views(self.entries@);
            assert(list.take(i as int) == list);
            lemma_records_of_list(list);
        }
        state
    }

    /// Puts the checkpoints of `state` in, one after the other.
    pub fn set_state(&mut self, state: &State)
        requires
            old(self).wf(),
        ensures
            final(self).wf(),
            final(self)@ == load_into(old(self)@, state@),
    {
        match state {
            State::V1 { checkpoints } => {
                let mut i: usize = 0;
                proof {
                    assert(state@.take(0) =~= Seq::<CheckpointView>::empty());
                }
                while i < checkpoints.len()
                    invariant
                        i <= checkpoints@.len(),
                        state@ == checkpoint_views(checkpoints@),
                        self.wf(),
                        self@ == load_into(old(self)@, state@.take(i as int)),
                    decreases checkpoints@.len() - i,
                {
                    let c = &checkpoints[i];
                    proof {
                        assert(state@.take(i + 1).drop_last() =~= state@.take(i as int));
                        assert(state@.take(i + 1).last() == c@);
                    }
                    self.update(c.upload_key.clone(), c.upload_at, c.expire_at);
                    i = i + 1;
                }
                proof {
                    assert(state@.take(i as int) == state@);
                }
            },
        }
    }

    /// Whether an upload of `key` is recorded that is not older than
    /// `upload_time_after`.
    pub fn contains(&self, key: &UploadKey, upload_time_after: Timestamp) -> (r: bool)
        requires
            self.wf(),
        ensures
            r == covers(self@, key@, upload_time_after),
    {
        proof {
            lemma_map_of_distinct(checkpoint_views(self.entries@));
        }
        match self.find(key) {
            Some(i) => {
                proof {
                    let list = checkpoint_views(self.entries@);
                    assert(list[i as int].key == key@);
                }
                upload_time_after.at_or_before(&self.entries[i].upload_at)
            },
            None => {
                proof {
                    let list = checkpoint_views(self.entries@);
                    if self@.contains_key(key@) {
                        let i = choose|i: int| 0 <= i < list.len() && #[trigger] list[i].key == key@;
                        assert(self.entries@[i].upload_key@ == key@);
                    }
                }
                false
            },
        }
    }

    /// Records an upload of `key`, in place of an earlier one.
    pub fn update(&mut self, key: UploadKey, upload_at: Timestamp, expire_at: Timestamp)
        requires
            old(self).wf(),
        ensures
            final(self).wf(),
            final(self)@ == old(self)@.insert(key@, Times { upload_at, expire_at }),
    {
        let ghost before = checkpoint_views(self.entries@);
        let ghost times = Times { upload_at, expire_at };
        let ghost cv = CheckpointView { key: key@, upload_at, expire_at };
        proof {
            lemma_map_of_distinct(before);
        }
        match self.find(&key) {
            Some(i) => {
                self.entries[i] = Checkpoint { upload_key: key, upload_at, expire_at };
                proof {
                    let after = checkpoint_views(self.entries@);
                    assert(after =~= before.update(i as int, cv));
                    assert(before[i as int].key == cv.key);
                    assert(distinct_keys(after)) by {
                        assert forall|a: int, b: int| 0 <= a < b < after.len() implies after[a].key
                            != after[b].key by {
                            assert(before[a].key != before[b].key);
                        }
                    }
                    lemma_map_of_distinct(after);
                    assert(map_of(after) =~= map_of(before).insert(cv.key, times)) by {
                        assert forall|k: KeyView| map_of(after).contains_key(k) <==> map_of(
                            before,
                        ).insert(cv.key, times).contains_key(k) by {
                            if map_of(after).contains_key(k) {
                                let j = choose|j: int|
                                    0 <= j < after.len() && #[trigger] after[j].key == k;
                                assert(before[j].key == k);
                            }
                            if map_of(before).contains_key(k) {
                                let j = choose|j: int|
                                    0 <= j < before.len() && #[trigger] before[j].key == k;
                                assert(after[j].key == k);
                            }
                            if k == cv.key {
                                assert(after[i as int].key == k);
                            }
                        }
                        assert forall|k: KeyView| map_of(after).contains_key(k) implies map_of(
                            after,
                        )[k] == map_of(before).insert(cv.key, times)[k] by {
                            let j = choose|j: int|
                                0 <= j < after.len() && #[trigger] after[j].key == k;
                            if j != i {
                                assert(before[j] == after[j]);
                                assert(map_of(before).contains_key(before[j].key));
                            }
                        }
                    }
                }
            },
            None => {
                self.entries.push(Checkpoint { upload_key: key, upload_at, expire_at });
                proof {
                    let after = checkpoint_views(self.entries@);
                    assert(after =~= before.push(cv));
                    assert(after.drop_last() =~= before);
                    assert(distinct_keys(after)) by {
                        assert forall|a: int, b: int| 0 <= a < b < after.len() implies after[a].key
                            != after[b].key by {
                            if b < before.len() {
                                assert(before[a].key != before[b].key);
                            } else {
                                assert(old(self).entries@[a].upload_key@ != cv.key);
                            }
                        }
                    }
                }
            },
        }
    }

    /// Drops the checkpoints that have expired at `now`.
    pub fn remove_expired(&mut self, now: Timestamp)
        requires
            old(self).wf(),
        ensures
            final(self).wf(),
            final(self)@ == pruned(old(self)@, now),
    {
        let ghost before = checkpoint_views(self.entries@);
        let mut kept: Vec<Checkpoint> = Vec::new();
        let mut old_entries: Vec<Checkpoint> = Vec::new();
        core::mem::swap(&mut self.entries, &mut old_entries);
        let n = old_entries.len();
        let mut i: usize = 0;
        let ghost mut origin: Seq<int> = Seq::empty();
        for c in it: old_entries
            invariant
                i == it.index(),
                n == it.seq().len(),
                before == checkpoint_views(it.seq()),
                distinct_keys(before),
                origin.len() == kept@.len(),
                forall|a: int|
                    0 <= a < origin.len() ==> 0 <= #[trigger] origin[a] < i && checkpoint_views(
                        kept@,
                    )[a] == before[origin[a]],
                forall|a: int, b: int| 0 <= a < b < origin.len() ==> origin[a] < origin[b],
                forall|j: int|
                    0 <= j < i && before[j].expire_at.nanos >= now.nanos ==> exists|a: int|
                        0 <= a < origin.len() && #[trigger] origin[a] == j,
                forall|a: int|
                    0 <= a < origin.len() ==> before[#[trigger] origin[a]].expire_at.nanos
                        >= now.nanos,
        {
            assert(before[i as int] == c@);
            if !c.expire_at.before(&now) {
                let ghost kept_before = checkpoint_views(kept@);
                let ghost origin_before = origin;
                kept.push(c);
                proof {
                    origin = origin.push(i as int);
                    assert(checkpoint_views(kept@) =~= kept_before.push(before[i as int]));
                    assert forall|j: int|
                        0 <= j < i + 1 && before[j].expire_at.nanos >= now.nanos implies exists|
                        a: int,
                    | 0 <= a < origin.len() && #[trigger] origin[a] == j by {
                        if j < i {
                            let a = choose|a: int|
                                0 <= a < origin_before.len() && #[trigger] origin_before[a] == j;
                            assert(origin[a] == j);
                        } else {
                            assert(origin[origin.len() - 1] == j);
                        }
                    }
                }
            }
            i = i + 1;
        }
        self.entries = kept;
        proof {
            let after = checkpoint_views(self.entries@);
            assert(distinct_keys(after)) by {
                assert forall|a: int, b: int| 0 <= a < b < after.len() implies after[a].key
                    != after[b].key by {
                    assert(origin[a] < origin[b]);
                    assert(before[origin[a]].key != before[origin[b]].key);
                }
            }
            lemma_map_of_distinct(after);
            lemma_map_of_distinct(before);
            assert(map_of(after) =~= pruned(map_of(before), now)) by {
                assert forall|k: KeyView| map_of(after).contains_key(k) <==> pruned(
                    map_of(before),
                    now,
                ).contains_key(k) by {
                    if map_of(after).contains_key(k) {
                        let a = choose|a: int| 0 <= a < after.len() && #[trigger] after[a].key == k;
                        assert(after[a] == before[origin[a]]);
                        assert(map_of(before).contains_key(before[origin[a]].key));
                    }
                    if pruned(map_of(before), now).contains_key(k) {
                        let j = choose|j: int| 0 <= j < before.len() && #[trigger] before[j].key == k;
                        assert(map_of(before).contains_key(before[j].key));
                        let a = choose|a: int| 0 <= a < origin.len() && #[trigger] origin[a] == j;
                        assert(after[a].key == k);
                    }
                }
                assert forall|k: KeyView| map_of(after).contains_key(k) implies map_of(after)[k]
                    == pruned(map_of(before), now)[k] by {
                    let a = choose|a: int| 0 <= a < after.len() && #[trigger] after[a].key == k;
                    assert(after[a] == before[origin[a]]);
                    assert(map_of(before).contains_key(before[origin[a]].key));
                    assert(map_of(after).contains_key(after[a].key));
                }
            }
        }
    }

    /// The number of checkpoints.
    pub fn len(&self) -> (n: usize)
        requires
            self.wf(),
        ensures
            n == self@.dom().len(),
            self@.dom().finite(),
    {
        proof {
            lemma_map_of_distinct(checkpoint_views(self.entries@));
        }
        self.entries.len()
    }
}

/// Where no key occurs twice, the records of the list are those of its map.
pub proof fn lemma_records_of_list(list: Seq<CheckpointView>)
    requires
        distinct_keys(list),
    ensures
        list.to_set() == records(map_of(list)),
{
    lemma_map_of_distinct(list);
    assert forall|c: CheckpointView| list.to_set().contains(c) <==> records(map_of(list)).contains(
        c,
    ) by {
        if list.to_set().contains(c) {
            let i = choose|i: int| 0 <= i < list.len() && list[i] == c;
            assert(map_of(list).contains_key(list[i].key));
        }
        if records(map_of(list)).contains(c) {
            let i = choose|i: int| 0 <= i < list.len() && #[trigger] list[i].key == c.key;
            assert(map_of(list).contains_key(list[i].key));
            assert(list[i] == c);
        }
    }
    assert(list.to_set() =~= records(map_of(list)));
}

/// What reading one of the two checkpoint files gave.
#[derive(Debug, PartialEq, Eq)]
pub enum FileRead {
    /// The file was read and held these checkpoints.
    Loaded(State),
    /// There is no such file.
    NotFound,
    /// The file could not be read, or its content is not a checkpoint file.
    Failed,
}

/// What `write_checkpoints` asks for.
#[derive(Debug, PartialEq, Eq)]
pub struct WritePlan {
    /// The number of checkpoints that are left.
    pub count: usize,
    /// What is to be written: to the temporary file first, which is synced
    /// and then renamed to the stable file. `None` where the checkpoints are
    /// those that were written last.
    pub state: Option<State>,
}

/// Remembers which files were uploaded, and what of that is on disk.
pub struct Checkpointer {
    checkpoints: CheckPointsView,
    last: State,
}

/// The name of the file that a write goes to first.
pub fn tmp_file_name() -> (name: &'static str)
    ensures
        name@ == "checkpoints.new.json"@,
{
    "checkpoints.new.json"
}

/// The name of the file that holds the checkpoints.
pub fn stable_file_name() -> (name: &'static str)
    ensures
        name@ == "checkpoints.json"@,
{
    "checkpoints.json"
}

impl Checkpointer {
    /// The checkpoints in memory.
    pub closed spec fn current(&self) -> Checkpoints {
        self.checkpoints@
    }

    /// The records that were written or read last.
    pub closed spec fn on_disk(&self) -> Set<CheckpointView> {
        self.last@.to_set()
    }

    /// The state is consistent.
    pub closed spec fn wf(&self) -> bool {
        self.checkpoints.wf()
    }

    /// A checkpointer without checkpoints. It touches no file.
    pub fn new() -> (c: Checkpointer)
        ensures
            c.wf(),
            c.current() == Map::<KeyView, Times>::empty(),
            c.on_disk() == Set::<CheckpointView>::empty(),
    {
        let c = Checkpointer {
            checkpoints: CheckPointsView::new(),
            last: State::V1 { checkpoints: Vec::new() },
        };
        proof {
            assert(c.last@ =~= Seq::<CheckpointView>::empty());
            assert(c.last@.to_set() =~= Set::<CheckpointView>::empty());
        }
        c
    }

    /// Whether an upload of `key` is recorded that is not older than
    /// `upload_time_after`: whether a version of the file was uploaded that
    /// is at least as new as the one on disk.
    pub fn contains(&self, key: &UploadKey, upload_time_after: Timestamp) -> (r: bool)
        requires
            self.wf(),
        ensures
            r == covers(self.current(), key@, upload_time_after),
    {
        self.checkpoints.contains(key, upload_time_after)
    }

    /// Records that `key` was uploaded at `upload_time`; the record expires
    /// `expire_after` later.
    pub fn update(&mut self, key: UploadKey, upload_time: Timestamp, expire_after: Span)
        requires
            old(self).wf(),
            upload_time.nanos + expire_after.nanos <= i128::MAX,
        ensures
            final(self).wf(),
            final(self).on_disk() == old(self).on_disk(),
            final(self).current() == old(self).current().insert(
                key@,
                Times {
                    upload_at: upload_time,
                    expire_at: Timestamp {
                        nanos: (upload_time.nanos + expire_after.nanos) as i128,
                    },
                },
            ),
    {
        let expire_at = upload_time.plus(expire_after);
        self.checkpoints.update(key, upload_time, expire_at);
    }

    /// Takes in what reading the temporary file gave. Where it held
    /// checkpoints, an earlier write was interrupted: they are taken, the
    /// file is to be renamed to the stable one, and the result is `true`.
    /// Otherwise the stable file is to be read.
    pub fn read_tmp_checkpoints(&mut self, tmp: FileRead) -> (recovered: bool)
        requires
            old(self).wf(),
        ensures
            final(self).wf(),
            recovered == (tmp is Loaded),
            match tmp {
                FileRead::Loaded(state) => final(self).current() == load_into(
                    old(self).current(),
                    state@,
                ) && final(self).on_disk() == state@.to_set(),
                _ => final(self).current() == old(self).current() && final(self).on_disk() == old(
                    self,
                ).on_disk(),
            },
    {
        self.take_in(tmp)
    }

    /// Takes in what reading the stable file gave. A file that is missing or
    /// cannot be read leaves the checkpoints as they are.
    pub fn read_stable_checkpoints(&mut self, stable: FileRead) -> (loaded: bool)
        requires
            old(self).wf(),
        ensures
            final(self).wf(),
            loaded == (stable is Loaded),
            match stable {
                FileRead::Loaded(state) => final(self).current() == load_into(
                    old(self).current(),
                    state@,
                ) && final(self).on_disk() == state@.to_set(),
                _ => final(self).current() == old(self).current() && final(self).on_disk() == old(
                    self,
                ).on_disk(),
            },
    {
        self.take_in(stable)
    }

    fn take_in(&mut self, read: FileRead) -> (loaded: bool)
        requires
            old(self).wf(),
        ensures
            final(self).wf(),
            loaded == (read is Loaded),
            match read {
                FileRead::Loaded(state) => final(self).current() == load_into(
                    old(self).current(),
                    state@,
                ) && final(self).on_disk() == state@.to_set(),
                _ => final(self).current() == old(self).current() && final(self).on_disk() == old(
                    self,
                ).on_disk(),
            },
    {
        match read {
            FileRead::Loaded(state) => {
                self.checkpoints.set_state(&state);
                self.last = state;
                true
            },
            _ => false,
        }
    }

    /// Takes in what reading the two files gave. The temporary file comes
    /// first; only where it gave no checkpoints does the stable file count.
    /// The result says whether the temporary file is to be renamed to the
    /// stable one.
    pub fn read_checkpoints(&mut self, tmp: FileRead, stable: FileRead) -> (promote: bool)
        requires
            old(self).wf(),
        ensures
            final(self).wf(),
            promote == (tmp is Loaded),
            match (tmp, stable) {
                (FileRead::Loaded(state), _) => final(self).current() == load_into(
                    old(self).current(),
                    state@,
                ) && final(self).on_disk() == state@.to_set(),
                (_, FileRead::Loaded(state)) => final(self).current() == load_into(
                    old(self).current(),
                    state@,
                ) && final(self).on_disk() == state@.to_set(),
                _ => final(self).current() == old(self).current() && final(self).on_disk() == old(
                    self,
                ).on_disk(),
            },
    {
        if self.read_tmp_checkpoints(tmp) {
            true
        } else {
            self.read_stable_checkpoints(stable);
            false
        }
    }

    /// Drops the checkpoints that have expired at `now` and says what is to
    /// be written: nothing where the records are those on disk.
    pub fn write_checkpoints(&mut self, now: Timestamp) -> (plan: WritePlan)
        requires
            old(self).wf(),
        ensures
            final(self).wf(),
            final(self).current() == pruned(old(self).current(), now),
            final(self).on_disk() == old(self).on_disk(),
            final(self).current().dom().finite(),
            plan.count == final(self).current().dom().len(),
            plan.state is None <==> records(final(self).current()) == old(self).on_disk(),
            plan.state matches Some(state) ==> map_of(state@) == final(self).current()
                && distinct_keys(state@) && state@.to_set() == records(final(self).current()),
    {
        self.checkpoints.remove_expired(now);
        let state = self.checkpoints.get_state();
        let count = self.checkpoints.len();
        if same_records(&self.last, &state) {
            WritePlan { count, state: None }
        } else {
            WritePlan { count, state: Some(state) }
        }
    }

    /// Notes that `state` is on disk now: it was written to the temporary
    /// file, synced and renamed. A write that failed is not noted.
    pub fn written(&mut self, state: State)
        requires
            old(self).wf(),
        ensures
            final(self).wf(),
            final(self).current() == old(self).current(),
            final(self).on_disk() == state@.to_set(),
    {
        self.last = state;
    }
}

fn holds(list: &Vec<Checkpoint>, c: &Checkpoint) -> (r: bool)
    ensures
        r == checkpoint_views(list@).contains(c@),
{
    let mut i: usize = 0;
    while i < list.len()
        invariant
            i <= list@.len(),
            forall|j: int| 0 <= j < i ==> checkpoint_views(list@)[j] != c@,
        decreases list@.len() - i,
    {
        let e = &list[i];
        assert(checkpoint_views(list@)[i as int] == e@);
        if e.upload_key.same(&c.upload_key) && e.upload_at == c.upload_at && e.expire_at
            == c.expire_at {
            return true;
        }
        i = i + 1;
    }
    false
}

fn all_held(list: &Vec<Checkpoint>, by: &Vec<Checkpoint>) -> (r: bool)
    ensures
        r == checkpoint_views(list@).to_set().subset_of(checkpoint_views(by@).to_set()),
{
    let mut i: usize = 0;
    while i < list.len()
        invariant
            i <= list@.len(),
            forall|j: int|
                0 <= j < i ==> checkpoint_views(by@).contains(#[trigger] checkpoint_views(list@)[j]),
        decreases list@.len() - i,
    {
        let e = &list[i];
        assert(checkpoint_views(list@)[i as int] == e@);
        if !holds(by, e) {
            proof {
                assert(checkpoint_views(list@).to_set().contains(e@));
            }
            return false;
        }
        i = i + 1;
    }
    proof {
        assert forall|c: CheckpointView|
            checkpoint_views(list@).to_set().contains(c) implies checkpoint_views(
            by@,
        ).to_set().contains(c) by {
            let j = choose|j: int|
                0 <= j < checkpoint_views(list@).len() && checkpoint_views(list@)[j] == c;
            assert(checkpoint_views(by@).contains(checkpoint_views(list@)[j]));
        }
    }
    true
}

/// Whether two states hold the same records.
pub fn same_records(a: &State, b: &State) -> (r: bool)
    ensures
        r == (a@.to_set() == b@.to_set()),
{
    match (a, b) {
        (State::V1 { checkpoints: ca }, State::V1 { checkpoints: cb }) => {
            let r = all_held(ca, cb) && all_held(cb, ca);
            proof {
                if r {
                    assert(a@.to_set() =~= b@.to_set());
                }
            }
            r
        },
    }
}

/// The checkpoints after a list of uploads was recorded, each with its key,
/// its time and the time at which it expires.
pub open spec fn recorded(m: Checkpoints, uploads: Seq<CheckpointView>) -> Checkpoints {
    load_into(m, uploads)
}

/// What was written is read back: a checkpointer that starts empty and reads
/// the file that another one wrote at `now` covers, of each upload that had
/// not expired then, the times up to the time of the upload and no later
/// one.
pub proof fn lemma_checkpoint_round_trip(
    m: Checkpoints,
    now: Timestamp,
    written: Seq<CheckpointView>,
    key: KeyView,
    t: Timestamp,
)
    requires
        map_of(written) == pruned(m, now),
        m.contains_key(key),
        m[key].expire_at.nanos >= now.nanos,
    ensures
        covers(load_into(Map::empty(), written), key, t) == (t.nanos <= m[key].upload_at.nanos),
{
}

/// What was written is read back, and what had expired is gone: the
/// checkpoints that are read are those that had not expired.
pub proof fn lemma_checkpoint_reload(m: Checkpoints, now: Timestamp, written: Seq<CheckpointView>)
    requires
        map_of(written) == pruned(m, now),
    ensures
        load_into(Map::empty(), written) == pruned(m, now),
        forall|k: KeyView|
            m.contains_key(k) && m[k].expire_at.nanos < now.nanos ==> !load_into(
                Map::empty(),
                written,
            ).contains_key(k),
{
}

/// The upload of a key that was recorded last decides what is covered: after
/// a list of uploads was recorded, the times up to that of the last upload
/// of a key are covered for it, and no later one.
pub proof fn lemma_last_upload_counts(
    m: Checkpoints,
    uploads: Seq<CheckpointView>,
    i: int,
    t: Timestamp,
)
    requires
        0 <= i < uploads.len(),
        forall|j: int| i < j < uploads.len() ==> uploads[j].key != uploads[i].key,
    ensures
        covers(recorded(m, uploads), uploads[i].key, t) == (t.nanos <= uploads[i].upload_at.nanos),
    decreases uploads.len(),
{
    if i < uploads.len() - 1 {
        let front = uploads.drop_last();
        assert(front[i] == uploads[i]);
        assert forall|j: int| i < j < front.len() implies front[j].key != front[i].key by {
            assert(uploads[j].key != uploads[i].key);
        }
        lemma_last_upload_counts(m, front, i, t);
        assert(uploads[uploads.len() - 1].key != uploads[i].key);
    }
}

} // verus!
