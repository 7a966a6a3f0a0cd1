//! Digests and text encodings of byte strings. The MD5 digest and the
//! base-64, hexadecimal and form encodings are the work of outside crates;
//! what is stated of them here is believed, not proved.

use vstd::prelude::*;

verus! {

/// The MD5 digest of a byte string.
pub uninterp spec fn md5_of(data: Seq<u8>) -> Seq<u8>;

/// The base-64 text of a byte string, in the standard alphabet, with padding.
pub uninterp spec fn base64_of(data: Seq<u8>) -> Seq<char>;

/// The hexadecimal digit of a value below sixteen, with the letters in lower
/// case.
pub open spec fn hex_digit_lower(v: int) -> char {
    if v < 10 {
        ('0' as u8 + v) as char
    } else {
        ('a' as u8 + (v - 10)) as char
    }
}

/// The hexadecimal digit of a value below sixteen, with the letters in upper
/// case.
pub open spec fn hex_digit_upper(v: int) -> char {
    if v < 10 {
        ('0' as u8 + v) as char
    } else {
        ('A' as u8 + (v - 10)) as char
    }
}

/// The hexadecimal text of a byte string in lower case: two digits per byte,
/// the high one first.
pub open spec fn hex_lower(data: Seq<u8>) -> Seq<char> {
    Seq::new(
        2 * data.len(),
        |i: int|
            if i % 2 == 0 {
                hex_digit_lower(data[i / 2] as int / 16)
            } else {
                hex_digit_lower(data[i / 2] as int % 16)
            },
    )
}

/// The hexadecimal text of a byte string in upper case: two digits per byte,
/// the high one first.
pub open spec fn hex_upper(data: Seq<u8>) -> Seq<char> {
    Seq::new(
        2 * data.len(),
        |i: int|
            if i % 2 == 0 {
                hex_digit_upper(data[i / 2] as int / 16)
            } else {
                hex_digit_upper(data[i / 2] as int % 16)
            },
    )
}

/// Calls `base64::encode`. Believed of it: the result depends on the bytes
/// alone.
#[verifier::external_body]
pub(crate) fn base64_encode(data: &[u8]) -> (text: String)
    ensures
        text@ == base64_of(data@),
{
    base64::encode(data)
}

/// Calls `hex::encode`. Believed of it: each byte becomes its two
/// hexadecimal digits, high one first, with the letters in lower case.
#[verifier::external_body]
pub(crate) fn hex_encode(data: &[u8]) -> (text: String)
    ensures
        text@ == hex_lower(data@),
{
    hex::encode(data)
}

/// Calls `hex::encode_upper`. Believed of it: each byte becomes its two
/// hexadecimal digits, high one first, with the letters in upper case.
#[verifier::external_body]
pub(crate) fn hex_encode_upper(data: &[u8]) -> (text: String)
    ensures
        text@ == hex_upper(data@),
{
    hex::encode_upper(data)
}

/// Whether a byte stands for itself in form encoding: a letter, a digit, or
/// one of `*`, `-`, `.` and `_`.
pub open spec fn form_unchanged(b: u8) -> bool {
    b == 0x2a || b == 0x2d || b == 0x2e || b == 0x5f || (0x30 <= b <= 0x39) || (0x41 <= b <= 0x5a)
        || (0x61 <= b <= 0x7a)
}

/// The form encoding of one byte: itself where it stands for itself, a plus
/// sign for a space, and otherwise a percent sign and its two hexadecimal
/// digits in upper case.
pub open spec fn form_encoded_byte(b: u8) -> Seq<char> {
    if form_unchanged(b) {
        seq![b as char]
    } else if b == 0x20 {
        seq!['+']
    } else {
        seq!['%', hex_digit_upper(b as int / 16), hex_digit_upper(b as int % 16)]
    }
}

/// The `application/x-www-form-urlencoded` encoding of a byte string.
pub open spec fn form_encoded(bytes: Seq<u8>) -> Seq<char>
    decreases bytes.len(),
{
    if bytes.len() == 0 {
        seq![]
    } else {
        form_encoded(bytes.drop_last()) + form_encoded_byte(bytes.last())
    }
}

/// Calls `url::form_urlencoded::byte_serialize` on the bytes of the text and
/// joins what it yields. Believed of it: every byte is encoded by itself, as
/// `form_encoded_byte` says.
#[verifier::external_body]
pub(crate) fn form_encode(text: &str) -> (encoded: String)
    ensures
        encoded@ == form_encoded(crate::text::text_bytes(text@)),
{
    url::form_urlencoded::byte_serialize(text.as_bytes()).collect()
}

/// Calls `String::push`, which appends one character.
#[verifier::external_body]
pub(crate) fn push_char(text: &mut String, c: char)
    ensures
        final(text)@ == old(text)@.push(c),
{
    text.push(c)
}

/// The decimal digits of `n`, without leading zeros.
pub open spec fn decimal(n: nat) -> Seq<char>
    decreases n,
{
    if n < 10 {
        seq![('0' as u8 + n) as char]
    } else {
        decimal(n / 10).push(('0' as u8 + n % 10) as char)
    }
}

/// The decimal text of `n`.
pub fn decimal_text(n: u64) -> (text: String)
    ensures
        text@ == decimal(n as nat),
{
    let mut digits: Vec<u8> = Vec::new();
    let mut rest = n;
    while rest >= 10
        invariant
            forall|k: int| 0 <= k < digits@.len() ==> digits@[k] < 10,
            decimal(n as nat) == with_digits(decimal(rest as nat), digits@),
        decreases rest,
    {
        let d = (rest % 10) as u8;
        proof {
            let before = digits@;
            assert(with_digits(decimal(rest as nat), before) == with_digits(
                decimal(rest as nat / 10),
                before.push(d),
            )) by {
                assert(before.push(d).drop_last() =~= before);
            }
        }
        digits.push(d);
        rest = rest / 10;
    }
    let mut text = String::new();
    push_char(&mut text, (48u8 + rest as u8) as char);
    assert(text@ =~= decimal(rest as nat));
    let mut i: usize = digits.len();
    assert(digits@.take(i as int) == digits@);
    while i > 0
        invariant
            i <= digits@.len(),
            forall|k: int| 0 <= k < digits@.len() ==> digits@[k] < 10,
            with_digits(text@, digits@.take(i as int)) == decimal(n as nat),
        decreases i,
    {
        i = i - 1;
        proof {
            assert(digits@.take(i + 1).drop_last() =~= digits@.take(i as int));
        }
        push_char(&mut text, (48u8 + digits[i]) as char);
    }
    text
}

/// `s` followed by the digits of `rev`, the last of them first.
pub open spec fn with_digits(s: Seq<char>, rev: Seq<u8>) -> Seq<char>
    decreases rev.len(),
{
    if rev.len() == 0 {
        s
    } else {
        with_digits(s.push(('0' as u8 + rev.last()) as char), rev.drop_last())
    }
}

/// A running MD5 computation of the outside crate `md5`. It is kept out of
/// the verifier's sight; `absorbed` names the bytes that it has taken in.
#[verifier::external_body]
pub struct Md5Stream {
    inner: md5::Md5,
}

/// The bytes that a running MD5 computation has taken in.
pub uninterp spec fn absorbed(stream: Md5Stream) -> Seq<u8>;

/// Calls `md5::Md5::new`. Believed of it: the new computation has taken in
/// nothing.
#[verifier::external_body]
pub(crate) fn md5_start() -> (stream: Md5Stream)
    ensures
        absorbed(stream) == Seq::<u8>::empty(),
{
    Md5Stream { inner: <md5::Md5 as md5::Digest>::new() }
}

/// Calls `md5::Md5::update`. Believed of it: the bytes are taken in behind
/// those that were taken in before.
#[verifier::external_body]
pub(crate) fn md5_update(stream: &mut Md5Stream, data: &[u8])
    ensures
        absorbed(*final(stream)) == absorbed(*old(stream)) + data@,
{
    md5::Digest::update(&mut stream.inner, data)
}

/// Calls `md5::Md5::finalize`. Believed of it: the result depends on the
/// bytes that were taken in alone, whatever the pieces in which they came.
#[verifier::external_body]
pub(crate) fn md5_finalize(stream: Md5Stream) -> (digest: Vec<u8>)
    ensures
        digest@ == md5_of(absorbed(stream)),
{
    md5::Digest::finalize(stream.inner).to_vec()
}

/// The MD5 digest of a byte string.
pub fn md5_digest(data: &[u8]) -> (digest: Vec<u8>)
    ensures
        digest@ == md5_of(data@),
{
    let mut stream = md5_start();
    md5_update(&mut stream, data);
    proof {
        assert(Seq::<u8>::empty() + data@ =~= data@);
    }
    md5_finalize(stream)
}

/// The fingerprint of a file that is read piece by piece: the base-64 text of
/// the MD5 digest of its content.
pub struct Fingerprint {
    stream: Md5Stream,
}

impl Fingerprint {
    /// The bytes that were taken in.
    pub closed spec fn taken(&self) -> Seq<u8> {
        absorbed(self.stream)
    }

    /// A fingerprint of no bytes yet.
    pub fn new() -> (f: Fingerprint)
        ensures
            f.taken() == Seq::<u8>::empty(),
    {
        Fingerprint { stream: md5_start() }
    }

    /// Takes in the next piece of the file.
    pub fn update(&mut self, piece: &[u8])
        ensures
            final(self).taken() == old(self).taken() + piece@,
    {
        md5_update(&mut self.stream, piece);
    }

    /// The fingerprint of the bytes that were taken in.
    pub fn finish(self) -> (text: String)
        ensures
            text@ == base64_of(md5_of(self.taken())),
    {
        let digest = md5_finalize(self.stream);
        base64_encode(digest.as_slice())
    }
}

/// The fingerprint of a file with this content.
pub fn fingerprint_of(content: &[u8]) -> (text: String)
    ensures
        text@ == base64_of(md5_of(content@)),
{
    let mut f = Fingerprint::new();
    f.update(content);
    proof {
        assert(Seq::<u8>::empty() + content@ =~= content@);
    }
    f.finish()
}

} // verus!
