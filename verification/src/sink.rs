//! The decisions of the upload sink: which events lead to an upload, which
//! are answered at once, and what an upload leaves behind.

use crate::checkpointer::{
    covers, pruned, records, CheckpointView, Checkpointer, Checkpoints, KeyView, Times,
    UploadEvent, UploadKey, WritePlan,
};
use crate::set::VecSet;
use crate::time::{Span, Timestamp};
use vstd::prelude::*;

verus! {

/// How an event is answered.
#[derive(Clone, Copy, Debug, PartialEq, Eq, Structural)]
pub enum EventStatus {
    Delivered,
    Rejected,
}

/// What an uploader reports of a file.
#[derive(Clone, Copy, Debug, PartialEq, Eq, Structural)]
pub struct UploadResponse {
    /// One where the file was uploaded, zero where the object held it
    /// already.
    pub count: usize,
    /// The bytes that were uploaded.
    pub events_byte_size: usize,
}

/// What is to be done with an incoming event.
#[derive(Debug, PartialEq, Eq)]
pub enum Intake {
    /// The event names no upload, or its file cannot be examined: it is
    /// rejected.
    Reject,
    /// The file was uploaded already, or its upload is waiting: the event is
    /// delivered and nothing else is done.
    Deliver,
    /// The upload is to wait in the delay queue for the configured delay.
    Enqueue(UploadKey),
}

/// What is to be done when an upload has ended.
#[derive(Clone, Copy, Debug, PartialEq, Eq, Structural)]
pub struct UploadEnd {
    /// How the event is answered.
    pub status: EventStatus,
    /// The count and bytes to report as sent, after a success.
    pub sent: Option<UploadResponse>,
    /// Whether the upload is to be logged: it succeeded and moved bytes.
    pub log_upload: bool,
}

/// A set of upload keys.
pub type KeySet = VecSet<UploadKey>;

/// The state of the sink as the contracts see it.
pub struct SinkView {
    /// The uploads that are recorded.
    pub checkpoints: Checkpoints,
    /// The uploads that wait in the delay queue.
    pub pending: Set<KeyView>,
}

/// Whether an event for `key`, whose file was modified at `modified`, is
/// answered at once: an upload that is at least as new is recorded, or one
/// is waiting.
pub open spec fn suppressed(s: SinkView, key: KeyView, modified: Timestamp) -> bool {
    covers(s.checkpoints, key, modified) || s.pending.contains(key)
}

/// The state after an event for `key` came in.
pub open spec fn after_intake(s: SinkView, key: KeyView, modified: Option<Timestamp>) -> SinkView {
    match modified {
        Some(m) => if suppressed(s, key, m) {
            s
        } else {
            SinkView { pending: s.pending.insert(key), ..s }
        },
        None => s,
    }
}

/// The state after the delay of `key` ran out.
pub open spec fn after_fire(s: SinkView, key: KeyView) -> SinkView {
    SinkView { pending: s.pending.remove(key), ..s }
}

/// The state after an upload of `key` that began at `upload_time` has
/// succeeded.
pub open spec fn after_success(
    s: SinkView,
    key: KeyView,
    upload_time: Timestamp,
    expire_after: Span,
) -> SinkView {
    SinkView {
        checkpoints: s.checkpoints.insert(
            key,
            Times {
                upload_at: upload_time,
                expire_at: Timestamp { nanos: (upload_time.nanos + expire_after.nanos) as i128 },
            },
        ),
        ..s
    }
}

/// The state after the checkpoints were written at `now`.
pub open spec fn after_write(s: SinkView, now: Timestamp) -> SinkView {
    SinkView { checkpoints: pruned(s.checkpoints, now), ..s }
}

/// The upload sink between its events.
pub struct UploadSink {
    bucket: String,
    expire_after: Span,
    checkpointer: Checkpointer,
    pending_uploads: KeySet,
}

impl View for UploadSink {
    type V = SinkView;

    closed spec fn view(&self) -> SinkView {
        SinkView { checkpoints: self.checkpointer.current(), pending: self.pending_uploads@ }
    }
}

impl UploadSink {
    /// The state is consistent.
    pub closed spec fn wf(&self) -> bool {
        self.checkpointer.wf()
    }

    /// The time for which a record suppresses uploads.
    pub closed spec fn expiry(&self) -> Span {
        self.expire_after
    }

    /// The bucket that the sink uploads to.
    pub closed spec fn bucket_name(&self) -> Seq<char> {
        self.bucket@
    }

    /// The records that were written to disk or read from it last.
    pub closed spec fn on_disk(&self) -> Set<CheckpointView> {
        self.checkpointer.on_disk()
    }

    /// A sink with the given checkpoints and no upload waiting.
    pub fn new(bucket: String, expire_after: Span, checkpointer: Checkpointer) -> (sink: UploadSink)
        requires
            checkpointer.wf(),
        ensures
            sink.wf(),
            sink.expiry() == expire_after,
            sink.bucket_name() == bucket@,
            sink.on_disk() == checkpointer.on_disk(),
            sink@ == (SinkView {
                checkpoints: checkpointer.current(),
                pending: Set::<KeyView>::empty(),
            }),
    {
        UploadSink { bucket, expire_after, checkpointer, pending_uploads: KeySet::new() }
    }

    /// The time for which a record suppresses uploads.
    pub fn expire_after(&self) -> (span: Span)
        ensures
            span == self.expiry(),
    {
        self.expire_after
    }

    /// The upload that an event asks for, in the bucket of the sink.
    pub fn upload_key(&self, event: &UploadEvent) -> (key: Option<UploadKey>)
        ensures
            match (event.message, event.key) {
                (Some(message), Some(object_key)) => key matches Some(k) && k@ == (KeyView {
                    filename: message@,
                    bucket: self.bucket_name(),
                    object_key: object_key@,
                }),
                _ => key is None,
            },
    {
        UploadKey::from_event(event, self.bucket.as_str())
    }

    /// Decides on an incoming event. `key` is the upload that it asks for and
    /// `modified_time` the time at which its file was modified, `None` where
    /// the file could not be examined.
    pub fn intake(&mut self, key: Option<UploadKey>, modified_time: Option<Timestamp>) -> (action:
        Intake)
        requires
            old(self).wf(),
        ensures
            final(self).wf(),
            final(self).expiry() == old(self).expiry(),
            final(self).bucket_name() == old(self).bucket_name(),
            final(self).on_disk() == old(self).on_disk(),
            match (key, modified_time) {
                (Some(k), Some(m)) => {
                    &&& final(self)@ == after_intake(old(self)@, k@, Some(m))
                    &&& if suppressed(old(self)@, k@, m) {
                        action is Deliver
                    } else {
                        action matches Intake::Enqueue(q) && q@ == k@
                    }
                },
                _ => action is Reject && final(self)@ == old(self)@,
            },
    {
        let key = match key {
            Some(key) => key,
            None => {
                return Intake::Reject;
            },
        };
        let modified_time = match modified_time {
            Some(t) => t,
            None => {
                return Intake::Reject;
            },
        };
        if !self.checkpointer.contains(&key, modified_time) && !self.pending_uploads.contains(&key) {
            self.pending_uploads.insert(key.clone());
            Intake::Enqueue(key)
        } else {
            Intake::Deliver
        }
    }

    /// Notes that the delay of `key` has run out: its upload waits no more.
    /// The time is to be taken now, before the upload begins.
    pub fn fire(&mut self, key: &UploadKey)
        requires
            old(self).wf(),
        ensures
            final(self).wf(),
            final(self).expiry() == old(self).expiry(),
            final(self).bucket_name() == old(self).bucket_name(),
            final(self).on_disk() == old(self).on_disk(),
            final(self)@ == after_fire(old(self)@, key@),
    {
        self.pending_uploads.remove(key);
    }

    /// Decides what an upload leaves behind. `upload_time` was taken before
    /// the upload began; `response` is what the uploader reported, `None`
    /// where it failed. A success is recorded; a failure is not.
    pub fn finish(&mut self, key: UploadKey, upload_time: Timestamp, response: Option<
        UploadResponse,
    >) -> (end: UploadEnd)
        requires
            old(self).wf(),
            upload_time.nanos + old(self).expiry().nanos <= i128::MAX,
        ensures
            final(self).wf(),
            final(self).expiry() == old(self).expiry(),
            final(self).bucket_name() == old(self).bucket_name(),
            final(self).on_disk() == old(self).on_disk(),
            match response {
                Some(r) => {
                    &&& final(self)@ == after_success(old(self)@, key@, upload_time, old(self).expiry())
                    &&& end == (UploadEnd {
                        status: EventStatus::Delivered,
                        sent: Some(r),
                        log_upload: r.count > 0,
                    })
                },
                None => {
                    &&& final(self)@ == old(self)@
                    &&& end == (UploadEnd {
                        status: EventStatus::Rejected,
                        sent: None,
                        log_upload: false,
                    })
                },
            },
    {
        match response {
            Some(r) => {
                self.checkpointer.update(key, upload_time, self.expire_after);
                UploadEnd { status: EventStatus::Delivered, sent: Some(r), log_upload: r.count > 0 }
            },
            None => UploadEnd { status: EventStatus::Rejected, sent: None, log_upload: false },
        }
    }

    /// Drops what has expired at `now` and says what is to be written to
    /// disk.
    pub fn write_checkpoints(&mut self, now: Timestamp) -> (plan: WritePlan)
        requires
            old(self).wf(),
        ensures
            final(self).wf(),
            final(self).expiry() == old(self).expiry(),
            final(self).bucket_name() == old(self).bucket_name(),
            final(self).on_disk() == old(self).on_disk(),
            final(self)@ == after_write(old(self)@, now),
            plan.count == final(self)@.checkpoints.dom().len(),
            plan.state is None <==> records(final(self)@.checkpoints) == old(self).on_disk(),
            plan.state matches Some(state) ==> crate::checkpointer::map_of(state@) == final(self)@.checkpoints && state@.to_set() == records(final(self)@.checkpoints),
    {
        self.checkpointer.write_checkpoints(now)
    }

    /// Notes that `state` is on disk now: it was written to the temporary
    /// file, flushed and renamed. The next `write_checkpoints` asks for no
    /// write while the records stay those of `state`.
    pub fn written(&mut self, state: crate::checkpointer::State)
        requires
            old(self).wf(),
        ensures
            final(self).wf(),
            final(self).expiry() == old(self).expiry(),
            final(self).bucket_name() == old(self).bucket_name(),
            final(self)@ == old(self)@,
            final(self).on_disk() == state@.to_set(),
    {
        self.checkpointer.written(state);
    }
}

/// An event that comes again while its upload waits is answered at once: it
/// leads to no second upload.
pub proof fn lemma_duplicate_while_pending(
    s: SinkView,
    key: KeyView,
    first: Timestamp,
    second: Timestamp,
)
    ensures
        !suppressed(s, key, first) ==> suppressed(after_intake(s, key, Some(first)), key, second),
        !suppressed(s, key, first) ==> after_intake(
            after_intake(s, key, Some(first)),
            key,
            Some(second),
        ) == after_intake(s, key, Some(first)),
{
}

/// An event that comes again after its upload has succeeded, for a file that
/// was not modified since the upload began, is answered at once as long as
/// the record has not expired.
pub proof fn lemma_no_second_upload(
    s: SinkView,
    key: KeyView,
    modified: Timestamp,
    upload_time: Timestamp,
    expire_after: Span,
    now: Timestamp,
)
    requires
        modified.nanos <= upload_time.nanos,
        upload_time.nanos + expire_after.nanos <= i128::MAX,
        now.nanos <= upload_time.nanos + expire_after.nanos,
    ensures
        suppressed(
            after_write(after_success(after_fire(s, key), key, upload_time, expire_after), now),
            key,
            modified,
        ),
{
}

/// A file that was modified after its last upload began is uploaded again:
/// where no upload of it waits, its event is answered at once exactly when
/// the recorded upload is at least as new as the file.
pub proof fn lemma_newer_file_uploads(
    s: SinkView,
    key: KeyView,
    modified: Timestamp,
)
    requires
        !s.pending.contains(key),
    ensures
        s.checkpoints.contains_key(key) ==> (suppressed(s, key, modified) <==> modified.nanos
            <= s.checkpoints[key].upload_at.nanos),
        !s.checkpoints.contains_key(key) ==> !suppressed(s, key, modified),
        !suppressed(s, key, modified) ==> after_intake(s, key, Some(modified)).pending.contains(
            key,
        ),
{
}

/// A failed upload leaves no record: the next event for the file leads to
/// an upload again unless an earlier record covers it.
pub proof fn lemma_failure_retries(s: SinkView, key: KeyView, modified: Timestamp)
    ensures
        suppressed(after_fire(s, key), key, modified) <==> covers(s.checkpoints, key, modified),
{
}

} // verus!
