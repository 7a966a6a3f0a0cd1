use md5::{Digest, Md5};
use vector_extensions::encoding::{decimal_text, fingerprint_of, Fingerprint};
use vector_extensions::etag::{ChunkStep, EtagCalculator, EtagError};

fn md5_hex(data: &[u8]) -> String {
    hex::encode(Md5::digest(data))
}

#[test]
fn etag_of_empty_file() {
    let mut calc = EtagCalculator::new(8 * 1024 * 1024, 10000);
    let etag = calc.file(b"").unwrap();
    assert_eq!(etag, "\"d41d8cd98f00b204e9800998ecf8427e\"");
}

#[test]
fn etag_of_small_file_is_its_md5() {
    let mut calc = EtagCalculator::new(8 * 1024 * 1024, 10000);
    let etag = calc.file(b"hello").unwrap();
    assert_eq!(etag, "\"5d41402abc4b2a76b9719d911017c592\"");
}

#[test]
fn etag_of_file_in_parts() {
    let mut calc = EtagCalculator::new(4, 10);
    let etag = calc.file(b"hello world").unwrap();
    let mut concat = Vec::new();
    concat.extend_from_slice(&Md5::digest(b"hell"));
    concat.extend_from_slice(&Md5::digest(b"o wo"));
    concat.extend_from_slice(&Md5::digest(b"rld"));
    assert_eq!(etag, format!("\"{}-3\"", md5_hex(&concat)));
}

#[test]
fn etag_of_file_of_whole_parts() {
    let mut calc = EtagCalculator::new(4, 10);
    let etag = calc.file(b"12345678").unwrap();
    let mut concat = Vec::new();
    concat.extend_from_slice(&Md5::digest(b"1234"));
    concat.extend_from_slice(&Md5::digest(b"5678"));
    assert_eq!(etag, format!("\"{}-2\"", md5_hex(&concat)));
}

#[test]
fn etag_of_file_of_exactly_one_part() {
    let mut calc = EtagCalculator::new(4, 10);
    let etag = calc.file(b"1234").unwrap();
    let concat = Md5::digest(b"1234").to_vec();
    assert_eq!(etag, format!("\"{}-1\"", md5_hex(&concat)));
}

#[test]
fn etag_fails_for_too_many_parts() {
    let mut calc = EtagCalculator::new(4, 2);
    assert_eq!(calc.file(b"123456789"), Err(EtagError::FileTooLarge));
    // the calculator can be used again
    assert_eq!(calc.file(b"12345678").unwrap().ends_with("-2\""), true);
}

#[test]
fn etag_with_exactly_the_allowed_parts() {
    let mut calc = EtagCalculator::new(4, 2);
    assert!(calc.file(b"12345678").is_ok());
    assert!(calc.file(b"1234567").is_ok());
}

#[test]
fn etag_is_the_same_for_the_same_content() {
    let mut a = EtagCalculator::new(4, 100);
    let mut b = EtagCalculator::new(4, 100);
    let content = b"the quick brown fox jumps over the lazy dog";
    assert_eq!(a.file(content), b.file(content));
    assert_eq!(a.file(content), a.file(content));
}

#[test]
fn etag_streamed_equals_etag_of_content() {
    let content = b"hello world!";
    let mut streamed = EtagCalculator::new(4, 10);
    streamed.begin();
    assert_eq!(streamed.update(&content[0..4]), ChunkStep::ReadMore);
    assert_eq!(streamed.update(&content[4..8]), ChunkStep::ReadMore);
    assert_eq!(streamed.update(&content[8..12]), ChunkStep::ReadMore);
    assert!(!streamed.ended());
    assert_eq!(streamed.update(&content[12..12]), ChunkStep::Done);
    assert!(streamed.ended());
    let etag = streamed.finish();
    let mut whole = EtagCalculator::new(4, 10);
    assert_eq!(etag, whole.file(content).unwrap());
    assert!(etag.ends_with("-3\""));
}

#[test]
fn etag_stream_refuses_surplus_part() {
    let mut calc = EtagCalculator::new(2, 1);
    calc.begin();
    assert_eq!(calc.update(b"ab"), ChunkStep::ReadMore);
    assert_eq!(calc.update(b"c"), ChunkStep::TooLarge);
    assert_eq!(calc.part_size(), 2);
}

#[test]
fn content_md5_is_base64_of_md5() {
    assert_eq!(EtagCalculator::content_md5(b"hello"), "XUFAKrxLKna5cZ2REBfFkg==");
    assert_eq!(EtagCalculator::content_md5(b""), "1B2M2Y8AsgTpgAmY7PhCfg==");
}

#[test]
fn fingerprint_in_pieces_equals_fingerprint_of_whole() {
    let mut f = Fingerprint::new();
    f.update(b"hel");
    f.update(b"");
    f.update(b"lo");
    assert_eq!(f.finish(), "XUFAKrxLKna5cZ2REBfFkg==");
    assert_eq!(fingerprint_of(b"hello"), "XUFAKrxLKna5cZ2REBfFkg==");
    assert_eq!(fingerprint_of(b""), "1B2M2Y8AsgTpgAmY7PhCfg==");
}

#[test]
fn decimal_text_of_numbers() {
    assert_eq!(decimal_text(0), "0");
    assert_eq!(decimal_text(7), "7");
    assert_eq!(decimal_text(10), "10");
    assert_eq!(decimal_text(10000), "10000");
    assert_eq!(decimal_text(u64::MAX), "18446744073709551615");
}
