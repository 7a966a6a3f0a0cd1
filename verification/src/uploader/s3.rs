//! Uploads to S3: in one piece where the file is shorter than a part, in
//! parts otherwise, taking up an upload that an earlier attempt left behind.

use crate::encoding::{
    form_encode, form_encoded, hex_encode, hex_lower, md5_digest, md5_of, push_char,
};
use crate::text::text_bytes;
use crate::time::Timestamp;
use vstd::prelude::*;
use vstd::string::StringExecFns;

verus! {

/// The size of a part: 8 MiB.
pub const S3_MULTIPART_UPLOAD_CHUNK_SIZE: usize = 8 * 1024 * 1024;

/// The highest number of parts of one upload.
pub const S3_MULTIPART_UPLOAD_MAX_CHUNKS: usize = 10000;

/// Whether a file is to be uploaded: not where the object exists and has the
/// ETag of the file. `object_etag` is what `HeadObject` gave, `None` where it
/// failed or gave no ETag.
pub fn need_upload(object_etag: Option<&String>, file_etag: &String) -> (need: bool)
    ensures
        need == !(object_etag matches Some(e) && e@ == file_etag@),
{
    match object_etag {
        Some(e) => !(*e == *file_etag),
        None => true,
    }
}

/// A tag of an object.
#[derive(Debug, PartialEq, Eq)]
pub struct Tag {
    pub name: String,
    pub value: String,
}

/// One tag in the text of the tagging: its name and its value in form
/// encoding, with an equals sign between them.
pub open spec fn tag_text(tag: Tag) -> Seq<char> {
    form_encoded(text_bytes(tag.name@)) + seq!['='] + form_encoded(text_bytes(tag.value@))
}

/// The tagging of an object: its tags in form encoding, in their order, with
/// an ampersand between them.
pub open spec fn tagging_of(tags: Seq<Tag>) -> Seq<char>
    decreases tags.len(),
{
    if tags.len() == 0 {
        seq![]
    } else if tags.len() == 1 {
        tag_text(tags[0])
    } else {
        tagging_of(tags.drop_last()) + seq!['&'] + tag_text(tags.last())
    }
}

/// The tagging that goes along with an object.
pub fn tagging(tags: &Vec<Tag>) -> (text: String)
    ensures
        text@ == tagging_of(tags@),
{
    let mut text = String::new();
    let mut i: usize = 0;
    while i < tags.len()
        invariant
            i <= tags@.len(),
            text@ == tagging_of(tags@.take(i as int)),
        decreases tags@.len() - i,
    {
        proof {
            assert(tags@.take(i + 1).drop_last() == tags@.take(i as int));
            assert(tags@.take(i + 1).last() == tags@[i as int]);
            if i == 0 {
                assert(tags@.take(1)[0] == tags@[0]);
            }
        }
        let ghost before = text@;
        if i > 0 {
            push_char(&mut text, '&');
        }
        text.append(form_encode(tags[i].name.as_str()).as_str());
        push_char(&mut text, '=');
        text.append(form_encode(tags[i].value.as_str()).as_str());
        proof {
            if i == 0 {
                assert(text@ =~= tag_text(tags@[0]));
            } else {
                assert(text@ =~= before + seq!['&'] + tag_text(tags@[i as int]));
            }
        }
        i = i + 1;
    }
    proof {
        assert(tags@.take(i as int) == tags@);
    }
    text
}

/// How a file goes up.
#[derive(Clone, Copy, Debug, PartialEq, Eq, Structural)]
pub enum UploadPath {
    /// With one `PutObject`, after every upload in parts that is in progress
    /// for the object key was aborted.
    SingleShot,
    /// In parts.
    Multipart,
}

/// How a file goes up whose first read of at most a part gave `first_len`
/// bytes.
pub fn upload_path(first_len: usize) -> (path: UploadPath)
    ensures
        path == if first_len < S3_MULTIPART_UPLOAD_CHUNK_SIZE {
            UploadPath::SingleShot
        } else {
            UploadPath::Multipart
        },
{
    if first_len < S3_MULTIPART_UPLOAD_CHUNK_SIZE {
        UploadPath::SingleShot
    } else {
        UploadPath::Multipart
    }
}

/// An upload in parts that the server holds in progress.
#[derive(Debug, PartialEq, Eq)]
pub struct InProgressUpload {
    pub upload_id: String,
    pub initiated: Timestamp,
}

/// How an upload in parts begins.
#[derive(Clone, Copy, Debug, PartialEq, Eq, Structural)]
pub enum Initiation {
    /// No upload is in progress: a new one is created and begins with part
    /// one.
    Create,
    /// The upload at this position of the list is the one that was initiated
    /// last. All others are aborted, and this one is taken up.
    Recover { latest: usize },
}

/// Decides how an upload in parts begins, from the uploads that are in
/// progress for the object key.
pub fn plan_initiation(uploads: &Vec<InProgressUpload>) -> (plan: Initiation)
    ensures
        uploads@.len() == 0 <==> plan is Create,
        plan matches Initiation::Recover { latest } ==> {
            &&& latest < uploads@.len()
            &&& forall|j: int|
                0 <= j < uploads@.len() ==> uploads@[j].initiated.nanos
                    <= uploads@[latest as int].initiated.nanos
            &&& forall|j: int|
                latest < j < uploads@.len() ==> uploads@[j].initiated.nanos
                    < uploads@[latest as int].initiated.nanos
        },
{
    if uploads.len() == 0 {
        return Initiation::Create;
    }
    let mut latest: usize = 0;
    let mut i: usize = 1;
    while i < uploads.len()
        invariant
            1 <= i <= uploads@.len(),
            latest < i,
            forall|j: int|
                0 <= j < i ==> uploads@[j].initiated.nanos <= uploads@[latest as int].initiated.nanos,
            forall|j: int|
                latest < j < i ==> uploads@[j].initiated.nanos
                    < uploads@[latest as int].initiated.nanos,
        decreases uploads@.len() - i,
    {
        if uploads[latest].initiated.at_or_before(&uploads[i].initiated) {
            latest = i;
        }
        i = i + 1;
    }
    Initiation::Recover { latest }
}

/// Whether the upload at position `i` is aborted under `plan`: every upload
/// but the one that is taken up.
pub fn aborted_by(plan: Initiation, i: usize) -> (abort: bool)
    ensures
        abort == (plan matches Initiation::Recover { latest } && latest != i),
{
    match plan {
        Initiation::Create => false,
        Initiation::Recover { latest } => latest != i,
    }
}

/// Whether the upload at position `i` of the uploads that are in progress is
/// aborted before the file goes up. Before a file goes up in one piece,
/// every upload in progress under its object key is aborted; before it goes
/// up in parts, every one but the one that is taken up.
pub fn aborted_first(path: UploadPath, plan: Initiation, i: usize) -> (abort: bool)
    ensures
        abort == match path {
            UploadPath::SingleShot => true,
            UploadPath::Multipart => plan matches Initiation::Recover { latest } && latest != i,
        },
{
    match path {
        UploadPath::SingleShot => true,
        UploadPath::Multipart => aborted_by(plan, i),
    }
}

/// The ETag that the server gives a part: the hexadecimal MD5 digest of its
/// bytes, in double quotes.
pub open spec fn part_etag_of(chunk: Seq<u8>) -> Seq<char> {
    seq!['"'] + hex_lower(md5_of(chunk)) + seq!['"']
}

/// The ETag that the server gives a part with these bytes.
pub fn part_etag(chunk: &[u8]) -> (etag: String)
    ensures
        etag@ == part_etag_of(chunk@),
{
    let digest = md5_digest(chunk);
    let hex = hex_encode(digest.as_slice());
    let mut etag = String::new();
    push_char(&mut etag, '"');
    etag.append(hex.as_str());
    push_char(&mut etag, '"');
    proof {
        assert(etag@ =~= part_etag_of(chunk@));
    }
    etag
}

/// A part that the server holds of an upload in progress.
#[derive(Debug, PartialEq, Eq)]
pub struct ServerPart {
    pub part_number: i32,
    pub e_tag: String,
}

/// A part that belongs to the object when the upload is completed.
#[derive(Debug, PartialEq, Eq)]
pub struct CompletedPart {
    pub part_number: i32,
    pub e_tag: String,
}

/// A completed part as the contracts see it.
pub struct PartView {
    pub part_number: i32,
    pub e_tag: Seq<char>,
}

impl View for CompletedPart {
    type V = PartView;

    open spec fn view(&self) -> PartView {
        PartView { part_number: self.part_number, e_tag: self.e_tag@ }
    }
}

/// The views of a list of parts.
pub open spec fn part_views(parts: Seq<CompletedPart>) -> Seq<PartView> {
    parts.map_values(|p: CompletedPart| p@)
}

/// The position of the first part with number `number`.
pub open spec fn find_part(parts: Seq<ServerPart>, number: int) -> Option<int>
    decreases parts.len(),
{
    if parts.len() == 0 {
        None
    } else {
        match find_part(parts.drop_last(), number) {
            Some(i) => Some(i),
            None => if parts.last().part_number == number {
                Some(parts.len() - 1)
            } else {
                None
            },
        }
    }
}

/// The server holds part `number` with this ETag.
pub open spec fn part_matches(parts: Seq<ServerPart>, number: int, etag: Seq<char>) -> bool {
    find_part(parts, number) matches Some(i) && 0 <= i < parts.len() && parts[i].e_tag@ == etag
}

/// The parts of the server are the parts one to `parts.len()`, each with the
/// ETag of the part of the file with the same number: an earlier attempt got
/// that far, with this file.
pub open spec fn parts_agree(parts: Seq<ServerPart>, etags: Seq<Seq<char>>) -> bool {
    &&& parts.len() <= etags.len()
    &&& parts.len() <= S3_MULTIPART_UPLOAD_MAX_CHUNKS
    &&& forall|n: int| 1 <= n <= parts.len() ==> part_matches(parts, n, #[trigger] etags[n - 1])
}

/// The parts one to `n` with these ETags.
pub open spec fn first_parts(etags: Seq<Seq<char>>, n: int) -> Seq<PartView> {
    Seq::new(n as nat, |i: int| PartView { part_number: (i + 1) as i32, e_tag: etags[i] })
}

/// Why an upload was given up.
#[derive(Clone, Copy, Debug, PartialEq, Eq, Structural)]
pub enum UploadError {
    /// The file has more parts than an upload may have.
    FileTooLarge,
}

/// An upload in parts that is under way.
pub struct MultipartUpload {
    upload_id: String,
    part_number: i32,
    completed_parts: Vec<CompletedPart>,
    uploaded_size: u64,
}

impl MultipartUpload {
    /// The identifier that the server gave the upload.
    pub closed spec fn id(&self) -> Seq<char> {
        self.upload_id@
    }

    /// The number of the part that comes next.
    pub closed spec fn next_number(&self) -> int {
        self.part_number as int
    }

    /// The parts that the server holds, in the order of their numbers.
    pub closed spec fn completed(&self) -> Seq<PartView> {
        part_views(self.completed_parts@)
    }

    /// The bytes that went up in this attempt.
    pub closed spec fn uploaded(&self) -> int {
        self.uploaded_size as int
    }

    /// The completed parts are the parts one to `k`, and part `k + 1` comes
    /// next.
    pub closed spec fn wf(&self) -> bool {
        &&& self.part_number == self.completed_parts@.len() + 1
        &&& self.part_number <= S3_MULTIPART_UPLOAD_MAX_CHUNKS + 1
        &&& forall|i: int|
            0 <= i < self.completed_parts@.len() ==> self.completed_parts@[i].part_number == i + 1
        &&& self.uploaded_size <= (self.part_number - 1) * 8388608
    }

    /// The completed parts are numbered from one on, without a gap.
    pub proof fn lemma_dense(&self)
        requires
            self.wf(),
        ensures
            self.completed().len() == self.next_number() - 1,
            forall|i: int|
                0 <= i < self.completed().len() ==> (#[trigger] self.completed()[i]).part_number
                    == i + 1,
    {
    }

    /// An upload that begins with part one.
    pub fn new(upload_id: String) -> (upload: MultipartUpload)
        ensures
            upload.wf(),
            upload.id() == upload_id@,
            upload.next_number() == 1,
            upload.completed() == Seq::<PartView>::empty(),
            upload.uploaded() == 0,
    {
        let upload = MultipartUpload {
            upload_id,
            part_number: 1,
            completed_parts: Vec::new(),
            uploaded_size: 0,
        };
        proof {
            assert(upload.completed() =~= Seq::<PartView>::empty());
        }
        upload
    }

    /// Takes over the next part from the server where the server holds it
    /// with the ETag of that part of the file.
    pub fn recover_part(&mut self, parts: &Vec<ServerPart>, chunk_etag: &String) -> (ok: bool)
        requires
            old(self).wf(),
        ensures
            final(self).wf(),
            final(self).id() == old(self).id(),
            final(self).uploaded() == old(self).uploaded(),
            ok == (old(self).next_number() <= S3_MULTIPART_UPLOAD_MAX_CHUNKS && part_matches(
                parts@,
                old(self).next_number(),
                chunk_etag@,
            )),
            ok ==> final(self).next_number() == old(self).next_number() + 1 && final(self).completed() == old(self).completed().push(
                PartView { part_number: old(self).next_number() as i32, e_tag: chunk_etag@ },
            ),
            !ok ==> final(self).next_number() == old(self).next_number() && final(self).completed() == old(self).completed(),
    {
        if self.part_number as usize > S3_MULTIPART_UPLOAD_MAX_CHUNKS {
            return false;
        }
        let number = self.part_number;
        let mut i: usize = 0;
        while i < parts.len()
            invariant
                i <= parts@.len(),
                find_part(parts@.take(i as int), number as int) is None,
                *self == *old(self),
                self.wf(),
                number == self.part_number,
                number <= S3_MULTIPART_UPLOAD_MAX_CHUNKS,
            decreases parts@.len() - i,
        {
            proof {
                assert(parts@.take(i + 1).drop_last() == parts@.take(i as int));
            }
            if parts[i].part_number == number {
                proof {
                    lemma_find_part_prefix(parts@, number as int, i + 1);
                }
                if parts[i].e_tag == *chunk_etag {
                    let ghost before = self.completed();
                    self.completed_parts.push(
                        CompletedPart { part_number: number, e_tag: chunk_etag.clone() },
                    );
                    self.part_number = number + 1;
                    proof {
                        assert(self.completed() =~= before.push(
                            PartView { part_number: number, e_tag: chunk_etag@ },
                        ));
                    }
                    return true;
                }
                return false;
            }
            i = i + 1;
        }
        proof {
            assert(parts@.take(i as int) == parts@);
        }
        false
    }

    /// Takes over the parts that an earlier attempt left on the server.
    /// `etags` holds the ETags of the parts of the file, in their order, at
    /// least as many as the server holds parts. Where the parts of the
    /// server are the first parts of the file, they are taken over and the
    /// upload goes on behind them. Otherwise nothing is taken over: the
    /// upload is to be aborted and a new one created.
    pub fn verify_and_advance(&mut self, parts: &Vec<ServerPart>, etags: &Vec<String>) -> (ok:
        bool)
        requires
            old(self).wf(),
            old(self).next_number() == 1,
        ensures
            final(self).wf(),
            final(self).id() == old(self).id(),
            final(self).uploaded() == old(self).uploaded(),
            ok == parts_agree(parts@, etags@.map_values(|e: String| e@)),
            ok ==> final(self).next_number() == parts@.len() + 1 && final(self).completed()
                == first_parts(etags@.map_values(|e: String| e@), parts@.len() as int),
            !ok ==> final(self).next_number() == 1 && final(self).completed() == Seq::<
                PartView,
            >::empty(),
    {
        let ghost texts = etags@.map_values(|e: String| e@);
        let n = parts.len();
        if n > etags.len() || n > S3_MULTIPART_UPLOAD_MAX_CHUNKS {
            proof {
                assert(self.completed() =~= Seq::<PartView>::empty());
            }
            return false;
        }
        let mut k: usize = 0;
        proof {
            assert(self.completed() =~= first_parts(texts, 0));
        }
        while k < n
            invariant
                k <= n,
                n == parts@.len(),
                n <= etags@.len(),
                n <= S3_MULTIPART_UPLOAD_MAX_CHUNKS,
                texts == etags@.map_values(|e: String| e@),
                self.wf(),
                old(self).wf(),
                old(self).next_number() == 1,
                self.id() == old(self).id(),
                self.uploaded() == old(self).uploaded(),
                self.next_number() == k + 1,
                self.completed() == first_parts(texts, k as int),
                forall|m: int| 1 <= m <= k ==> part_matches(parts@, m, #[trigger] texts[m - 1]),
            decreases n - k,
        {
            assert(texts[k as int] == etags@[k as int]@);
            if !self.recover_part(parts, &etags[k]) {
                self.completed_parts = Vec::new();
                self.part_number = 1;
                proof {
                    assert(self.completed() =~= Seq::<PartView>::empty());
                    assert(!part_matches(parts@, k + 1, texts[k + 1 - 1]));
                }
                return false;
            }
            proof {
                assert(self.completed() =~= first_parts(texts, k + 1));
            }
            k = k + 1;
        }
        true
    }

    /// The number of the part that goes up next, or why none may.
    pub fn next_part(&self) -> (r: Result<i32, UploadError>)
        requires
            self.wf(),
        ensures
            r == if self.next_number() > S3_MULTIPART_UPLOAD_MAX_CHUNKS {
                Err::<i32, UploadError>(UploadError::FileTooLarge)
            } else {
                Ok::<i32, UploadError>(self.next_number() as i32)
            },
    {
        if self.part_number as usize > S3_MULTIPART_UPLOAD_MAX_CHUNKS {
            Err(UploadError::FileTooLarge)
        } else {
            Ok(self.part_number)
        }
    }

    /// Notes that the next part went up: `e_tag` is the ETag that the server
    /// gave it, the empty text where it gave none, and `size` the number of
    /// its bytes.
    pub fn part_uploaded(&mut self, e_tag: Option<String>, size: usize)
        requires
            old(self).wf(),
            old(self).next_number() <= S3_MULTIPART_UPLOAD_MAX_CHUNKS,
            size <= S3_MULTIPART_UPLOAD_CHUNK_SIZE,
        ensures
            final(self).wf(),
            final(self).id() == old(self).id(),
            final(self).next_number() == old(self).next_number() + 1,
            final(self).uploaded() == old(self).uploaded() + size,
            final(self).completed() == old(self).completed().push(
                PartView {
                    part_number: old(self).next_number() as i32,
                    e_tag: match e_tag {
                        Some(e) => e@,
                        None => Seq::empty(),
                    },
                },
            ),
    {
        let ghost before = self.completed();
        let e_tag = match e_tag {
            Some(e) => e,
            None => String::new(),
        };
        let ghost text = e_tag@;
        self.completed_parts.push(CompletedPart { part_number: self.part_number, e_tag });
        self.uploaded_size = self.uploaded_size + size as u64;
        self.part_number = self.part_number + 1;
        proof {
            assert(self.completed() =~= before.push(
                PartView { part_number: old(self).part_number, e_tag: text },
            ));
        }
    }

    /// Whether another part is to be read after a part of `len` bytes: not
    /// after a short one, which ended the file.
    pub fn read_on(len: usize) -> (more: bool)
        ensures
            more == (len >= S3_MULTIPART_UPLOAD_CHUNK_SIZE),
    {
        len >= S3_MULTIPART_UPLOAD_CHUNK_SIZE
    }

    /// Ends the upload: the parts to complete it with, in the order of
    /// their numbers, and the bytes that went up in this attempt.
    pub fn finish(self) -> (r: (Vec<CompletedPart>, u64))
        requires
            self.wf(),
        ensures
            part_views(r.0@) == self.completed(),
            r.1 == self.uploaded(),
            forall|i: int| 0 <= i < r.0@.len() ==> (#[trigger] r.0@[i]).part_number == i + 1,
    {
        (self.completed_parts, self.uploaded_size)
    }
}

/// What `find_part` finds among the first `k` parts, it finds among all.
pub proof fn lemma_find_part_prefix(parts: Seq<ServerPart>, number: int, k: int)
    requires
        0 <= k <= parts.len(),
        find_part(parts.take(k), number) is Some,
    ensures
        find_part(parts, number) == find_part(parts.take(k), number),
        find_part(parts, number)->Some_0 < k,
    decreases parts.len() - k,
{
    lemma_find_part_bound(parts.take(k), number);
    if k < parts.len() {
        assert(parts.take(k + 1).drop_last() == parts.take(k));
        lemma_find_part_prefix(parts, number, k + 1);
    } else {
        assert(parts.take(k) == parts);
    }
}

/// Where `find_part` finds a part, it has the number.
pub proof fn lemma_find_part_bound(parts: Seq<ServerPart>, number: int)
    ensures
        find_part(parts, number) matches Some(i) ==> 0 <= i < parts.len() && parts[i].part_number
            == number,
    decreases parts.len(),
{
    if parts.len() > 0 {
        lemma_find_part_bound(parts.drop_last(), number);
    }
}

} // verus!
