use md5::{Digest, Md5};
use vector_extensions::time::Timestamp;
use vector_extensions::uploader::azure::{self, BlobPath, BlockUpload};
use vector_extensions::uploader::gcs::{self, ChunkKind, ChunkOutcome, ResponseError, ResumableUpload};
use vector_extensions::uploader::s3::{
    self, CompletedPart, InProgressUpload, Initiation, MultipartUpload, ServerPart, UploadError,
    UploadPath,
};

const MIB8: usize = 8 * 1024 * 1024;

#[test]
fn s3_need_upload_compares_etags() {
    let file = "\"5d41402abc4b2a76b9719d911017c592\"".to_owned();
    assert!(s3::need_upload(None, &file));
    assert!(s3::need_upload(Some(&"\"other\"".to_owned()), &file));
    assert!(!s3::need_upload(Some(&file.clone()), &file));
}

#[test]
fn s3_path_by_size_of_first_read() {
    assert_eq!(s3::upload_path(0), UploadPath::SingleShot);
    assert_eq!(s3::upload_path(5), UploadPath::SingleShot);
    assert_eq!(s3::upload_path(MIB8 - 1), UploadPath::SingleShot);
    assert_eq!(s3::upload_path(MIB8), UploadPath::Multipart);
    assert_eq!(s3::S3_MULTIPART_UPLOAD_CHUNK_SIZE, MIB8);
    assert_eq!(s3::S3_MULTIPART_UPLOAD_MAX_CHUNKS, 10000);
}

fn upload(id: &str, initiated: i128) -> InProgressUpload {
    InProgressUpload { upload_id: id.to_owned(), initiated: Timestamp::from_nanos(initiated) }
}

#[test]
fn s3_initiation_takes_up_the_latest_upload() {
    assert_eq!(s3::plan_initiation(&vec![]), Initiation::Create);
    let uploads = vec![upload("a", 5), upload("b", 9), upload("c", 7), upload("d", 9)];
    let plan = s3::plan_initiation(&uploads);
    assert_eq!(plan, Initiation::Recover { latest: 3 });
    let aborted: Vec<bool> = (0..4).map(|i| s3::aborted_by(plan, i)).collect();
    assert_eq!(aborted, vec![true, true, true, false]);
    assert!(!s3::aborted_by(Initiation::Create, 0));
    assert_eq!(s3::plan_initiation(&vec![upload("a", 5)]), Initiation::Recover { latest: 0 });
}

#[test]
fn s3_part_etag_is_quoted_md5() {
    assert_eq!(s3::part_etag(b"hello"), "\"5d41402abc4b2a76b9719d911017c592\"");
    assert_eq!(s3::part_etag(b""), format!("\"{}\"", hex::encode(Md5::digest(b""))));
}

fn part(n: i32, etag: &str) -> ServerPart {
    ServerPart { part_number: n, e_tag: etag.to_owned() }
}

fn done(n: i32, etag: &str) -> CompletedPart {
    CompletedPart { part_number: n, e_tag: etag.to_owned() }
}

#[test]
fn s3_multipart_recovery() {
    // an earlier attempt left the parts one and two
    let chunks: Vec<&[u8]> = vec![b"aaaa", b"bbbb", b"cc"];
    let etags: Vec<String> = chunks.iter().map(|c| s3::part_etag(c)).collect();
    let server = vec![part(2, &etags[1]), part(1, &etags[0])];
    let mut up = MultipartUpload::new("id".to_owned());
    assert!(up.verify_and_advance(&server, &etags));
    // only part three goes up
    assert_eq!(up.next_part(), Ok(3));
    up.part_uploaded(Some(etags[2].clone()), 2);
    let (parts, size) = up.finish();
    assert_eq!(parts, vec![done(1, &etags[0]), done(2, &etags[1]), done(3, &etags[2])]);
    assert_eq!(size, 2);
}

#[test]
fn s3_recovery_fails_on_other_content_or_gap() {
    let etags: Vec<String> = vec![s3::part_etag(b"aaaa"), s3::part_etag(b"bbbb"), s3::part_etag(b"cc")];
    // another file
    let mut up = MultipartUpload::new("id".to_owned());
    assert!(!up.verify_and_advance(&vec![part(1, &etags[0]), part(2, "\"x\"")], &etags));
    assert_eq!(up.next_part(), Ok(1));
    assert_eq!(up.finish().0, vec![]);
    // a gap
    let mut up = MultipartUpload::new("id".to_owned());
    assert!(!up.verify_and_advance(&vec![part(1, &etags[0]), part(3, &etags[2])], &etags));
    assert_eq!(up.next_part(), Ok(1));
    // a part twice
    let mut up = MultipartUpload::new("id".to_owned());
    assert!(!up.verify_and_advance(&vec![part(1, &etags[0]), part(1, &etags[0])], &etags));
    // more parts than the file has
    let mut up = MultipartUpload::new("id".to_owned());
    assert!(!up.verify_and_advance(&vec![part(1, &etags[0]), part(2, &etags[1])], &etags[0..1].to_vec()));
    // nothing on the server: nothing to take over
    let mut up = MultipartUpload::new("id".to_owned());
    assert!(up.verify_and_advance(&vec![], &etags));
    assert_eq!(up.next_part(), Ok(1));
}

#[test]
fn s3_recover_part_by_part() {
    let mut up = MultipartUpload::new("id".to_owned());
    let server = vec![part(1, "\"a\""), part(2, "\"b\"")];
    assert!(up.recover_part(&server, &"\"a\"".to_owned()));
    assert!(!up.recover_part(&server, &"\"x\"".to_owned()));
    assert!(up.recover_part(&server, &"\"b\"".to_owned()));
    assert!(!up.recover_part(&server, &"\"c\"".to_owned()));
    assert_eq!(up.next_part(), Ok(3));
}

#[test]
fn s3_parts_are_numbered_from_one() {
    let mut up = MultipartUpload::new("id".to_owned());
    assert_eq!(up.next_part(), Ok(1));
    up.part_uploaded(Some("\"a\"".to_owned()), MIB8);
    assert_eq!(up.next_part(), Ok(2));
    up.part_uploaded(None, 7);
    let (parts, size) = up.finish();
    assert_eq!(parts, vec![done(1, "\"a\""), done(2, "")]);
    assert_eq!(size, MIB8 as u64 + 7);
    assert!(MultipartUpload::read_on(MIB8));
    assert!(!MultipartUpload::read_on(MIB8 - 1));
    assert!(!MultipartUpload::read_on(0));
}

#[test]
fn s3_file_with_too_many_parts() {
    let mut up = MultipartUpload::new("id".to_owned());
    for n in 1..=10000 {
        assert_eq!(up.next_part(), Ok(n));
        up.part_uploaded(None, 1);
    }
    assert_eq!(up.next_part(), Err(UploadError::FileTooLarge));
    assert!(!up.recover_part(&vec![part(10001, "")], &"".to_owned()));
}

#[test]
fn gcs_object_url() {
    assert_eq!(gcs::object_url("bucket", "folder/a"), "https://storage.googleapis.com/bucket/folder/a");
    assert_eq!(gcs::GCS_UPLOAD_CHUNK_SIZE, MIB8);
}

#[test]
fn gcs_md5_from_hash_header() {
    let values = vec![b"crc32c=AAAAAA==".to_vec(), b"md5=XUFAKrxLKna5cZ2REBfFkg==".to_vec()];
    assert_eq!(gcs::md5_hash_of_headers(&values), Some(b"XUFAKrxLKna5cZ2REBfFkg==".to_vec()));
    let joined = vec![b"crc32c=AAAAAA==,md5=abc".to_vec()];
    assert_eq!(gcs::md5_hash_of_headers(&joined), Some(b"abc".to_vec()));
    assert_eq!(gcs::md5_hash_of_headers(&vec![b"md5=".to_vec()]), Some(vec![]));
    assert_eq!(gcs::md5_hash_of_headers(&vec![b"md5=a md5=b".to_vec()]), Some(b"a md5=b".to_vec()));
    assert_eq!(gcs::md5_hash_of_headers(&vec![b"crc32c=AAAAAA==".to_vec()]), None);
    assert_eq!(gcs::md5_hash_of_headers(&vec![]), None);
    // a value that is no text ends the search
    assert_eq!(gcs::md5_hash_of_headers(&vec![vec![0xff], b"md5=abc".to_vec()]), None);
    assert_eq!(gcs::md5_hash_of_headers(&vec![b"md5=abc".to_vec(), vec![0xff]]), Some(b"abc".to_vec()));
}

#[test]
fn gcs_need_upload_compares_hashes() {
    let file = "XUFAKrxLKna5cZ2REBfFkg==".to_owned();
    assert!(gcs::need_upload(None, &file));
    assert!(gcs::need_upload(Some(&b"other".to_vec()), &file));
    assert!(!gcs::need_upload(Some(&b"XUFAKrxLKna5cZ2REBfFkg==".to_vec()), &file));
}

#[test]
fn gcs_content_ranges() {
    assert_eq!(gcs::chunk_content_range(0, MIB8), "bytes 0-8388607/*");
    assert_eq!(gcs::chunk_content_range(8388608, MIB8), "bytes 8388608-16777215/*");
    assert_eq!(gcs::final_content_range(16777216, 5), "bytes 16777216-16777220/16777221");
    assert_eq!(gcs::final_content_range(16777216, 0), "bytes */16777216");
    assert_eq!(gcs::final_content_range(0, 0), "bytes */0");
    assert_eq!(gcs::final_content_range(0, 5), "bytes 0-4/5");
    assert_eq!(gcs::chunk_kind(MIB8), ChunkKind::Intermediate);
    assert_eq!(gcs::chunk_kind(MIB8 - 1), ChunkKind::Final);
    assert_eq!(gcs::chunk_kind(0), ChunkKind::Final);
}

#[test]
fn gcs_range_header() {
    assert_eq!(gcs::parse_range_end(b"bytes=0-8388607"), Some(8388607));
    assert_eq!(gcs::parse_range_end(b"0-+5"), Some(5));
    assert_eq!(gcs::parse_range_end(b"bytes=0-"), None);
    assert_eq!(gcs::parse_range_end(b"bytes=0"), None);
    assert_eq!(gcs::parse_range_end(b"bytes=0-1-2"), None);
    assert_eq!(gcs::parse_range_end(b"bytes=0-12a"), None);
    assert_eq!(gcs::parse_range_end(b"bytes=0- 12"), None);
    assert_eq!(gcs::parse_range_end(b"bytes=0-99999999999999999999999999"), None);
    assert_eq!(gcs::parse_range_end(&[0xff, b'-', b'1']), None);
    assert_eq!(gcs::parse_range_end(b""), None);
}

#[test]
fn gcs_responses() {
    assert_eq!(gcs::check_create_response(200, true), Ok(()));
    assert_eq!(gcs::check_create_response(201, false), Err(ResponseError::MissingLocation));
    assert_eq!(gcs::check_create_response(403, true), Err(ResponseError::Status { status: 403 }));
    assert_eq!(gcs::check_chunk_response(308, Some(b"bytes=0-8388607"), 8388607), Ok(()));
    assert_eq!(
        gcs::check_chunk_response(200, Some(b"bytes=0-8388607"), 8388607),
        Err(ResponseError::Status { status: 200 })
    );
    assert_eq!(gcs::check_chunk_response(308, None, 8388607), Err(ResponseError::MissingRange));
    assert_eq!(gcs::check_chunk_response(308, Some(b"bytes"), 8388607), Err(ResponseError::BadRange));
    assert_eq!(
        gcs::check_chunk_response(308, Some(b"bytes=0-8388606"), 8388607),
        Err(ResponseError::UploadedBytesMismatch { received_end: 8388606, uploaded_end: 8388607 })
    );
    assert_eq!(gcs::check_final_response(200), Ok(()));
    assert_eq!(gcs::check_final_response(299), Ok(()));
    assert_eq!(gcs::check_final_response(308), Err(ResponseError::Status { status: 308 }));
    assert_eq!(gcs::check_final_response(199), Err(ResponseError::Status { status: 199 }));
    assert!(gcs::is_success(204));
    assert!(!gcs::is_success(300));
}

#[test]
fn gcs_resumable_upload_of_three_chunks() {
    let mut up = ResumableUpload::new();
    let first = up.request(MIB8);
    assert_eq!(first.kind, ChunkKind::Intermediate);
    assert_eq!(first.content_length, MIB8);
    assert_eq!(first.content_range, "bytes 0-8388607/*");
    assert!(first.with_md5);
    assert_eq!(first.range_end, 8388607);
    assert_eq!(up.response(MIB8, 308, Some(b"bytes=0-8388607")), ChunkOutcome::Continue);
    let second = up.request(MIB8);
    assert_eq!(second.content_range, "bytes 8388608-16777215/*");
    assert_eq!(up.response(MIB8, 308, Some(b"bytes=0-16777215")), ChunkOutcome::Continue);
    let last = up.request(4);
    assert_eq!(last.kind, ChunkKind::Final);
    assert_eq!(last.content_range, "bytes 16777216-16777219/16777220");
    assert_eq!(up.response(4, 200, None), ChunkOutcome::Complete { uploaded: 16777220 });
}

#[test]
fn gcs_file_of_whole_chunks_ends_with_empty_chunk() {
    let mut up = ResumableUpload::new();
    assert_eq!(up.response(MIB8, 308, Some(b"bytes=0-8388607")), ChunkOutcome::Continue);
    let last = up.request(0);
    assert_eq!(last.kind, ChunkKind::Final);
    assert_eq!(last.content_length, 0);
    assert_eq!(last.content_range, "bytes */8388608");
    assert!(!last.with_md5);
    assert_eq!(up.response(0, 201, None), ChunkOutcome::Complete { uploaded: 8388608 });
}

#[test]
fn gcs_range_one_byte_short_cancels_the_upload() {
    let mut up = ResumableUpload::new();
    assert_eq!(up.response(MIB8, 308, Some(b"bytes=0-8388607")), ChunkOutcome::Continue);
    assert_eq!(
        up.response(MIB8, 308, Some(b"bytes=0-16777214")),
        ChunkOutcome::Cancel {
            error: ResponseError::UploadedBytesMismatch { received_end: 16777214, uploaded_end: 16777215 }
        }
    );
    // nothing more counts as uploaded
    assert_eq!(up.request(1).content_range, "bytes 8388608-8388608/8388609");
    assert_eq!(
        up.response(1, 500, None),
        ChunkOutcome::Cancel { error: ResponseError::Status { status: 500 } }
    );
    assert_eq!(
        up.response(MIB8, 200, Some(b"bytes=0-16777215")),
        ChunkOutcome::Cancel { error: ResponseError::Status { status: 200 } }
    );
}

#[test]
fn azure_need_upload_compares_tag() {
    let file = "XUFAKrxLKna5cZ2REBfFkg==".to_owned();
    assert!(azure::need_upload(None, &file));
    assert!(azure::need_upload(Some(&"other".to_owned()), &file));
    assert!(!azure::need_upload(Some(&file.clone()), &file));
    assert_eq!(azure::etag_tag_name(), "o11y_etag");
    assert_eq!(azure::content_type(), "application/octet-stream");
}

#[test]
fn azure_path_by_file_size() {
    assert_eq!(azure::upload_path(0), BlobPath::Direct);
    assert_eq!(azure::upload_path(MIB8 as u64), BlobPath::Direct);
    assert_eq!(azure::upload_path(MIB8 as u64 + 1), BlobPath::Blocks);
    assert_eq!(azure::AZURE_BLOB_UPLOAD_CHUNK_SIZE, MIB8);
}

#[test]
fn azure_block_ids() {
    assert_eq!(azure::block_id(0), "00000000000000000000000000000000");
    assert_eq!(azure::block_id(7), "00000000000000000000000000000007");
    assert_eq!(azure::block_id(1234567890), "00000000000000000000001234567890");
    assert_eq!(azure::block_id(usize::MAX), format!("{:032}", usize::MAX));
}

#[test]
fn azure_upload_in_blocks() {
    let mut up = BlockUpload::new(MIB8 as u64 * 2 + 3);
    assert!(up.more());
    assert_eq!(up.block_read(MIB8), Some("00000000000000000000000000000000".to_owned()));
    assert!(up.more());
    assert_eq!(up.block_read(MIB8), Some("00000000000000000000000000000001".to_owned()));
    assert!(up.more());
    assert_eq!(up.block_read(3), Some("00000000000000000000000000000002".to_owned()));
    assert!(!up.more());
    let (ids, size) = up.finish();
    assert_eq!(
        ids,
        vec![
            "00000000000000000000000000000000".to_owned(),
            "00000000000000000000000000000001".to_owned(),
            "00000000000000000000000000000002".to_owned(),
        ]
    );
    assert_eq!(size, MIB8 as u64 * 2 + 3);
}

#[test]
fn azure_empty_read_ends_the_upload() {
    let mut up = BlockUpload::new(MIB8 as u64 * 2);
    assert_eq!(up.block_read(5), Some("00000000000000000000000000000000".to_owned()));
    assert_eq!(up.block_read(0), None);
    assert!(up.more());
    let (ids, size) = up.finish();
    assert_eq!(ids.len(), 1);
    assert_eq!(size, 5);
}

#[test]
fn s3_tagging_is_form_encoded() {
    let tag = |n: &str, v: &str| s3::Tag { name: n.to_owned(), value: v.to_owned() };
    assert_eq!(s3::tagging(&vec![]), "");
    assert_eq!(s3::tagging(&vec![tag("env", "prod")]), "env=prod");
    assert_eq!(
        s3::tagging(&vec![tag("a b", "c&d"), tag("\u{e9}", "*-._"), tag("", "")]),
        "a+b=c%26d&%C3%A9=*-._&="
    );
}

#[test]
fn gcs_request_headers() {
    let pairs = |headers: Vec<gcs::Header>| -> Vec<(String, String)> {
        headers.into_iter().map(|h| (h.name, h.value)).collect()
    };
    let pair = |n: &str, v: &str| (n.to_owned(), v.to_owned());
    assert_eq!(pairs(gcs::create_headers()), vec![pair("content-length", "0"), pair("x-goog-resumable", "start")]);
    assert_eq!(pairs(gcs::cancel_headers()), vec![pair("content-length", "0")]);
    let mut up = ResumableUpload::new();
    let first = up.request(MIB8);
    assert_eq!(
        pairs(gcs::chunk_headers(&first, "XUFAKrxLKna5cZ2REBfFkg==")),
        vec![
            pair("content-length", "8388608"),
            pair("content-type", "application/octet-stream"),
            pair("content-range", "bytes 0-8388607/*"),
            pair("content-md5", "XUFAKrxLKna5cZ2REBfFkg=="),
        ]
    );
    up.response(MIB8, 308, Some(b"bytes=0-8388607"));
    let last = up.request(0);
    assert_eq!(
        pairs(gcs::chunk_headers(&last, "1B2M2Y8AsgTpgAmY7PhCfg==")),
        vec![
            pair("content-length", "0"),
            pair("content-type", "application/octet-stream"),
            pair("content-range", "bytes */8388608"),
        ]
    );
}

#[test]
fn s3_uploads_aborted_before_the_file_goes_up() {
    let plan = Initiation::Recover { latest: 1 };
    assert!(s3::aborted_first(UploadPath::SingleShot, plan, 0));
    assert!(s3::aborted_first(UploadPath::SingleShot, plan, 1));
    assert!(s3::aborted_first(UploadPath::SingleShot, Initiation::Create, 0));
    assert!(s3::aborted_first(UploadPath::Multipart, plan, 0));
    assert!(!s3::aborted_first(UploadPath::Multipart, plan, 1));
    assert!(!s3::aborted_first(UploadPath::Multipart, Initiation::Create, 0));
}
