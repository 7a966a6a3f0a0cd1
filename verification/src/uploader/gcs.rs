//! Uploads to Google Cloud Storage: always as a resumable upload, in chunks
//! that the server acknowledges one by one.

use crate::encoding::{decimal, decimal_text, push_char};
use crate::text::{
    check_header_text, copy_range, find_bytes, first_occurrence, is_header_text, number_of,
    parse_number, same_bytes, text_bytes,
};
use vstd::prelude::*;
use vstd::string::StringExecFns;

verus! {

/// The size of a chunk: 8 MiB.
pub const GCS_UPLOAD_CHUNK_SIZE: usize = 8 * 1024 * 1024;

/// The address of the storage service.
pub open spec fn base_url() -> Seq<char> {
    "https://storage.googleapis.com/"@
}

/// The address of an object: the address of the service, the bucket, a slash
/// and the object key.
pub open spec fn object_url_of(bucket: Seq<char>, object_key: Seq<char>) -> Seq<char> {
    base_url() + bucket + seq!['/'] + object_key
}

/// The address of an object.
pub fn object_url(bucket: &str, object_key: &str) -> (url: String)
    ensures
        url@ == object_url_of(bucket@, object_key@),
{
    let mut url = String::from_str("https://storage.googleapis.com/");
    url.append(bucket);
    push_char(&mut url, '/');
    url.append(object_key);
    url
}

/// The bytes `md5=`.
pub open spec fn md5_token() -> Seq<u8> {
    seq![0x6du8, 0x64u8, 0x35u8, 0x3du8]
}

/// The MD5 hash that the values of the header `x-goog-hash` tell: what
/// follows the first `md5=` in the first value that holds one. `None` where
/// no value holds one, or where a value before it is no header text.
pub open spec fn header_hash(values: Seq<Vec<u8>>) -> Option<Seq<u8>>
    decreases values.len(),
{
    if values.len() == 0 {
        None
    } else {
        let first = values[0]@;
        if !is_header_text(first) {
            None
        } else {
            match first_occurrence(first, md5_token()) {
                Some(i) => Some(first.skip(i + 4)),
                None => header_hash(values.skip(1)),
            }
        }
    }
}

/// The MD5 hash that the values of the header `x-goog-hash` tell.
pub fn md5_hash_of_headers(values: &Vec<Vec<u8>>) -> (hash: Option<Vec<u8>>)
    ensures
        match hash {
            Some(h) => header_hash(values@) == Some(h@),
            None => header_hash(values@) is None,
        },
{
    let mut token: Vec<u8> = Vec::new();
    token.push(0x6d);
    token.push(0x64);
    token.push(0x35);
    token.push(0x3d);
    assert(token@ =~= md5_token());
    let mut k: usize = 0;
    proof {
        assert(values@.skip(0) =~= values@);
    }
    while k < values.len()
        invariant
            k <= values@.len(),
            token@ == md5_token(),
            header_hash(values@) == header_hash(values@.skip(k as int)),
        decreases values@.len() - k,
    {
        let value = &values[k];
        let ghost rest = values@.skip(k as int);
        proof {
            assert(rest[0] == values@[k as int]);
            assert(rest.skip(1) =~= values@.skip(k + 1));
        }
        if !check_header_text(value.as_slice()) {
            return None;
        }
        assert(token@.len() == 4);
        match find_bytes(value.as_slice(), token.as_slice()) {
            Some(i) => {
                proof {
                    assert(value@.skip(i + 4) =~= value@.subrange(i + 4, value@.len() as int));
                }
                let n = value.len();
                return Some(copy_range(value.as_slice(), i + 4, n));
            },
            None => {},
        }
        k = k + 1;
    }
    None
}

/// Whether a file is to be uploaded: not where the object exists with the
/// MD5 hash of the file.
pub fn need_upload(object_hash: Option<&Vec<u8>>, file_hash: &String) -> (need: bool)
    ensures
        need == !(object_hash matches Some(h) && h@ == text_bytes(file_hash@)),
{
    match object_hash {
        Some(h) => {
            let bytes = file_hash.as_str().as_bytes();
            !same_bytes(h.as_slice(), bytes)
        },
        None => true,
    }
}

/// What a chunk is for the upload.
#[derive(Clone, Copy, Debug, PartialEq, Eq, Structural)]
pub enum ChunkKind {
    /// A whole chunk: it goes up and the server is to answer with status 308
    /// and the range that it holds.
    Intermediate,
    /// A short chunk, which may be empty: it completes the upload and the
    /// server is to answer with a status of success.
    Final,
}

/// What a chunk of `len` bytes is for the upload.
pub fn chunk_kind(len: usize) -> (kind: ChunkKind)
    ensures
        kind == if len < GCS_UPLOAD_CHUNK_SIZE {
            ChunkKind::Final
        } else {
            ChunkKind::Intermediate
        },
{
    if len < GCS_UPLOAD_CHUNK_SIZE {
        ChunkKind::Final
    } else {
        ChunkKind::Intermediate
    }
}

/// The header `content-range` of a chunk that is not the last: the first and
/// the last byte that it holds, of a total that is not known yet.
pub open spec fn chunk_range_of(uploaded_bytes: nat, n: nat) -> Seq<char> {
    "bytes "@ + decimal(uploaded_bytes) + seq!['-'] + decimal((uploaded_bytes + n - 1) as nat)
        + "/*"@
}

/// The header `content-range` of the last chunk: the first and the last byte
/// that it holds and the total; for an empty chunk an asterisk and the total.
pub open spec fn final_range_of(uploaded_bytes: nat, n: nat) -> Seq<char> {
    if n != 0 {
        "bytes "@ + decimal(uploaded_bytes) + seq!['-'] + decimal(
            (uploaded_bytes + n - 1) as nat,
        ) + seq!['/'] + decimal(uploaded_bytes + n)
    } else {
        "bytes */"@ + decimal(uploaded_bytes)
    }
}

/// The header `content-range` of a chunk of `n` bytes that is not the last,
/// behind `uploaded_bytes` bytes.
pub fn chunk_content_range(uploaded_bytes: u64, n: usize) -> (text: String)
    requires
        n > 0,
        uploaded_bytes + n <= u64::MAX,
    ensures
        text@ == chunk_range_of(uploaded_bytes as nat, n as nat),
{
    let mut text = String::from_str("bytes ");
    text.append(decimal_text(uploaded_bytes).as_str());
    push_char(&mut text, '-');
    text.append(decimal_text(uploaded_bytes + n as u64 - 1).as_str());
    text.append("/*");
    text
}

/// The header `content-range` of the last chunk, of `n` bytes, behind
/// `uploaded_bytes` bytes.
pub fn final_content_range(uploaded_bytes: u64, n: usize) -> (text: String)
    requires
        uploaded_bytes + n <= u64::MAX,
    ensures
        text@ == final_range_of(uploaded_bytes as nat, n as nat),
{
    if n != 0 {
        let mut text = String::from_str("bytes ");
        text.append(decimal_text(uploaded_bytes).as_str());
        push_char(&mut text, '-');
        text.append(decimal_text(uploaded_bytes + n as u64 - 1).as_str());
        push_char(&mut text, '/');
        text.append(decimal_text(uploaded_bytes + n as u64).as_str());
        text
    } else {
        let mut text = String::from_str("bytes */");
        text.append(decimal_text(uploaded_bytes).as_str());
        text
    }
}

/// Why a request of the upload failed.
#[derive(Clone, Copy, Debug, PartialEq, Eq, Structural)]
pub enum ResponseError {
    /// The status is not the one that was expected.
    Status { status: u16 },
    /// The answer to creating the upload has no header `location`.
    MissingLocation,
    /// The answer to a chunk has no header `range`.
    MissingRange,
    /// The header `range` cannot be read.
    BadRange,
    /// The server holds another number of bytes than were sent.
    UploadedBytesMismatch { received_end: usize, uploaded_end: usize },
}

/// The last byte that a header `range` names: the number behind its first
/// hyphen. `None` where the value is no header text, has no hyphen or no
/// number behind it.
pub open spec fn range_end_of(value: Seq<u8>) -> Option<usize> {
    if !is_header_text(value) {
        None
    } else {
        match first_occurrence(value, seq![0x2du8]) {
            Some(i) => number_of(value.skip(i + 1)),
            None => None,
        }
    }
}

/// The last byte that a header `range` names.
pub fn parse_range_end(value: &[u8]) -> (end: Option<usize>)
    ensures
        end == range_end_of(value@),
{
    if !check_header_text(value) {
        return None;
    }
    let mut hyphen: Vec<u8> = Vec::new();
    hyphen.push(0x2d);
    assert(hyphen@ =~= seq![0x2du8]);
    assert(hyphen@.len() == 1);
    match find_bytes(value, hyphen.as_slice()) {
        Some(i) => {
            let n = value.len();
            let rest = copy_range(value, i + 1, n);
            proof {
                assert(value@.skip(i + 1) =~= value@.subrange(i + 1, value@.len() as int));
            }
            parse_number(rest.as_slice())
        },
        None => None,
    }
}

/// Whether a status tells success: 200 to 299.
pub fn is_success(status: u16) -> (ok: bool)
    ensures
        ok == (200 <= status < 300),
{
    200 <= status && status < 300
}

/// Judges the answer to creating the upload: it must tell success and carry
/// the address of the session in the header `location`.
pub fn check_create_response(status: u16, has_location: bool) -> (r: Result<(), ResponseError>)
    ensures
        r == if !(200 <= status < 300) {
            Err::<(), ResponseError>(ResponseError::Status { status })
        } else if !has_location {
            Err::<(), ResponseError>(ResponseError::MissingLocation)
        } else {
            Ok::<(), ResponseError>(())
        },
{
    if !is_success(status) {
        Err(ResponseError::Status { status })
    } else if !has_location {
        Err(ResponseError::MissingLocation)
    } else {
        Ok(())
    }
}

/// What the answer to a chunk that is not the last means: the status must be
/// 308 and the header `range` must end at the last byte that was sent.
pub open spec fn chunk_answer(status: u16, range: Option<Seq<u8>>, range_end: usize) -> Result<
    (),
    ResponseError,
> {
    if status != 308 {
        Err(ResponseError::Status { status })
    } else {
        match range {
            None => Err(ResponseError::MissingRange),
            Some(value) => match range_end_of(value) {
                None => Err(ResponseError::BadRange),
                Some(end) => if end != range_end {
                    Err(
                        ResponseError::UploadedBytesMismatch {
                            received_end: end,
                            uploaded_end: range_end,
                        },
                    )
                } else {
                    Ok(())
                },
            },
        }
    }
}

/// The view of an optional header value.
pub open spec fn header_view(value: Option<&[u8]>) -> Option<Seq<u8>> {
    match value {
        Some(v) => Some(v@),
        None => None,
    }
}

/// Judges the answer to a chunk that is not the last.
pub fn check_chunk_response(status: u16, range: Option<&[u8]>, range_end: usize) -> (r: Result<
    (),
    ResponseError,
>)
    ensures
        r == chunk_answer(status, header_view(range), range_end),
{
    if status != 308 {
        return Err(ResponseError::Status { status });
    }
    let value = match range {
        Some(value) => value,
        None => {
            return Err(ResponseError::MissingRange);
        },
    };
    match parse_range_end(value) {
        None => Err(ResponseError::BadRange),
        Some(end) => if end != range_end {
            Err(ResponseError::UploadedBytesMismatch { received_end: end, uploaded_end: range_end })
        } else {
            Ok(())
        },
    }
}

/// Judges the answer to the last chunk: the status must tell success.
pub fn check_final_response(status: u16) -> (r: Result<(), ResponseError>)
    ensures
        r == if 200 <= status < 300 {
            Ok::<(), ResponseError>(())
        } else {
            Err::<(), ResponseError>(ResponseError::Status { status })
        },
{
    if is_success(status) {
        Ok(())
    } else {
        Err(ResponseError::Status { status })
    }
}

/// What is sent with a chunk.
#[derive(Debug, PartialEq, Eq)]
pub struct ChunkRequest {
    /// Whether the chunk is the last.
    pub kind: ChunkKind,
    /// The header `content-length`.
    pub content_length: usize,
    /// The header `content-range`.
    pub content_range: String,
    /// Whether the header `content-md5` goes along: not with an empty chunk.
    pub with_md5: bool,
    /// The last byte of the chunk, which the header `range` of the answer is
    /// to name; for an empty chunk, the number of bytes before it. It is not
    /// used for the last chunk.
    pub range_end: u64,
}

/// A header of a request.
#[derive(Debug, PartialEq, Eq)]
pub struct Header {
    pub name: String,
    pub value: String,
}

/// A header as the contracts see it.
pub struct HeaderView {
    pub name: Seq<char>,
    pub value: Seq<char>,
}

impl View for Header {
    type V = HeaderView;

    open spec fn view(&self) -> HeaderView {
        HeaderView { name: self.name@, value: self.value@ }
    }
}

/// The views of a list of headers.
pub open spec fn header_views(headers: Seq<Header>) -> Seq<HeaderView> {
    headers.map_values(|h: Header| h@)
}

fn header(name: &str, value: &str) -> (h: Header)
    ensures
        h@ == (HeaderView { name: name@, value: value@ }),
{
    Header { name: name.to_owned(), value: value.to_owned() }
}

/// The headers that start a resumable upload, besides the configured ones:
/// no content, and the wish to start.
pub fn create_headers() -> (headers: Vec<Header>)
    ensures
        header_views(headers@) == seq![
            HeaderView { name: "content-length"@, value: "0"@ },
            HeaderView { name: "x-goog-resumable"@, value: "start"@ },
        ],
{
    let mut headers: Vec<Header> = Vec::new();
    headers.push(header("content-length", "0"));
    headers.push(header("x-goog-resumable", "start"));
    proof {
        assert(header_views(headers@) =~= seq![
            HeaderView { name: "content-length"@, value: "0"@ },
            HeaderView { name: "x-goog-resumable"@, value: "start"@ },
        ]);
    }
    headers
}

/// The headers that give up a resumable upload, besides the configured ones.
pub fn cancel_headers() -> (headers: Vec<Header>)
    ensures
        header_views(headers@) == seq![HeaderView { name: "content-length"@, value: "0"@ }],
{
    let mut headers: Vec<Header> = Vec::new();
    headers.push(header("content-length", "0"));
    proof {
        assert(header_views(headers@) =~= seq![
            HeaderView { name: "content-length"@, value: "0"@ },
        ]);
    }
    headers
}

/// The headers of a chunk as the contracts see them: its length, its type,
/// its range, and its MD5 digest unless it is empty.
pub open spec fn chunk_headers_of(
    content_length: nat,
    content_range: Seq<char>,
    content_md5: Option<Seq<char>>,
) -> Seq<HeaderView> {
    seq![
        HeaderView { name: "content-length"@, value: decimal(content_length) },
        HeaderView { name: "content-type"@, value: "application/octet-stream"@ },
        HeaderView { name: "content-range"@, value: content_range },
    ] + match content_md5 {
        Some(md5) => seq![HeaderView { name: "content-md5"@, value: md5 }],
        None => seq![],
    }
}

/// The headers that go along with a chunk, besides the configured ones.
/// `content_md5` is the base-64 text of the MD5 digest of the chunk.
pub fn chunk_headers(request: &ChunkRequest, content_md5: &str) -> (headers: Vec<Header>)
    ensures
        header_views(headers@) == chunk_headers_of(
            request.content_length as nat,
            request.content_range@,
            if request.with_md5 {
                Some(content_md5@)
            } else {
                None
            },
        ),
{
    let mut headers: Vec<Header> = Vec::new();
    headers.push(header("content-length", decimal_text(request.content_length as u64).as_str()));
    headers.push(header("content-type", "application/octet-stream"));
    headers.push(header("content-range", request.content_range.as_str()));
    if request.with_md5 {
        headers.push(header("content-md5", content_md5));
    }
    proof {
        assert(header_views(headers@) =~= chunk_headers_of(
            request.content_length as nat,
            request.content_range@,
            if request.with_md5 {
                Some(content_md5@)
            } else {
                None
            },
        ));
    }
    headers
}

/// What follows the answer to a chunk.
#[derive(Clone, Copy, Debug, PartialEq, Eq, Structural)]
pub enum ChunkOutcome {
    /// The next chunk is to be read and sent.
    Continue,
    /// The upload is complete: this many bytes went up.
    Complete { uploaded: u64 },
    /// The upload failed: the session is to be deleted, and the error
    /// counts.
    Cancel { error: ResponseError },
}

/// A resumable upload that is under way.
#[derive(Clone, Copy, Debug, PartialEq, Eq, Structural)]
pub struct ResumableUpload {
    uploaded_bytes: u64,
}

impl ResumableUpload {
    /// The bytes that the server has acknowledged.
    pub closed spec fn uploaded(&self) -> nat {
        self.uploaded_bytes as nat
    }

    /// The bytes that the server has acknowledged.
    pub fn uploaded_bytes(&self) -> (n: u64)
        ensures
            n == self.uploaded(),
    {
        self.uploaded_bytes
    }

    /// An upload of which nothing went up yet.
    pub fn new() -> (u: ResumableUpload)
        ensures
            u.uploaded() == 0,
    {
        ResumableUpload { uploaded_bytes: 0 }
    }

    /// What is sent with the chunk that was read: `len` is its length, at
    /// most the size of a chunk.
    pub fn request(&self, len: usize) -> (req: ChunkRequest)
        requires
            self.uploaded() + len <= u64::MAX,
        ensures
            req.kind == if len < GCS_UPLOAD_CHUNK_SIZE {
                ChunkKind::Final
            } else {
                ChunkKind::Intermediate
            },
            req.content_length == len,
            req.with_md5 == (len != 0),
            req.content_range@ == if len < GCS_UPLOAD_CHUNK_SIZE {
                final_range_of(self.uploaded(), len as nat)
            } else {
                chunk_range_of(self.uploaded(), len as nat)
            },
            req.range_end == if len > 0 {
                self.uploaded() + len - 1
            } else {
                self.uploaded() as int
            },
    {
        let kind = chunk_kind(len);
        let content_range = match kind {
            ChunkKind::Final => final_content_range(self.uploaded_bytes, len),
            ChunkKind::Intermediate => chunk_content_range(self.uploaded_bytes, len),
        };
        let range_end = if len > 0 {
            self.uploaded_bytes + len as u64 - 1
        } else {
            self.uploaded_bytes
        };
        ChunkRequest { kind, content_length: len, content_range, with_md5: len != 0, range_end }
    }

    /// Takes in the answer to the chunk of `len` bytes that was sent last.
    /// `range` is the header `range` of the answer, if it has one.
    pub fn response(&mut self, len: usize, status: u16, range: Option<&[u8]>) -> (outcome:
        ChunkOutcome)
        requires
            old(self).uploaded() + len <= u64::MAX,
            old(self).uploaded() + len <= usize::MAX,
        ensures
            len < GCS_UPLOAD_CHUNK_SIZE ==> outcome == if 200 <= status < 300 {
                ChunkOutcome::Complete { uploaded: (old(self).uploaded() + len) as u64 }
            } else {
                ChunkOutcome::Cancel { error: ResponseError::Status { status } }
            },
            len >= GCS_UPLOAD_CHUNK_SIZE ==> outcome == match chunk_answer(
                status,
                header_view(range),
                (old(self).uploaded() + len - 1) as usize,
            ) {
                Ok(_) => ChunkOutcome::Continue,
                Err(error) => ChunkOutcome::Cancel { error },
            },
            outcome is Cancel ==> final(self).uploaded() == old(self).uploaded(),
            !(outcome is Cancel) ==> final(self).uploaded() == old(self).uploaded() + len,
    {
        match chunk_kind(len) {
            ChunkKind::Final => match check_final_response(status) {
                Ok(()) => {
                    self.uploaded_bytes = self.uploaded_bytes + len as u64;
                    ChunkOutcome::Complete { uploaded: self.uploaded_bytes }
                },
                Err(error) => ChunkOutcome::Cancel { error },
            },
            ChunkKind::Intermediate => {
                let range_end = (self.uploaded_bytes + len as u64 - 1) as usize;
                match check_chunk_response(status, range, range_end) {
                    Ok(()) => {
                        self.uploaded_bytes = self.uploaded_bytes + len as u64;
                        ChunkOutcome::Continue
                    },
                    Err(error) => ChunkOutcome::Cancel { error },
                }
            },
        }
    }
}

} // verus!
