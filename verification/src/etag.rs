//! The ETag that S3 gives an object: the MD5 digest of the content where it
//! was put in one piece, and the digest of the digests of its parts, with
//! their number, where it was put in parts.

use crate::encoding::{
    base64_encode, base64_of, decimal, decimal_text, hex_encode, hex_lower, md5_digest, md5_of,
    push_char,
};
use vstd::prelude::*;
use vstd::string::StringExecFns;

verus! {

/// Number of parts into which `len` bytes are cut, each of `c` bytes but the
/// last, which may be shorter.
pub open spec fn part_count(len: nat, c: nat) -> nat
    decreases len,
{
    if len == 0 || c == 0 {
        0
    } else if len <= c {
        1
    } else {
        1 + part_count((len - c) as nat, c)
    }
}

/// The MD5 digests of the parts of `content`, one behind the other.
pub open spec fn part_digests(content: Seq<u8>, c: nat) -> Seq<u8>
    decreases content.len(),
{
    if content.len() == 0 || c == 0 {
        seq![]
    } else if content.len() <= c {
        md5_of(content)
    } else {
        md5_of(content.take(c as int)) + part_digests(content.skip(c as int), c)
    }
}

/// What is read of a file in parts of `c` bytes: all of it, or nothing where
/// `c` is zero.
pub open spec fn readable(content: Seq<u8>, c: nat) -> Seq<u8> {
    if c == 0 {
        Seq::empty()
    } else {
        content
    }
}

/// The ETag of an object with this content that was put in parts of `c`
/// bytes, in double quotes. Content shorter than `c` goes in one piece and
/// has the hexadecimal MD5 digest of the content. Other content has the
/// hexadecimal MD5 digest of the digests of its parts, a hyphen and the
/// number of the parts.
pub open spec fn s3_etag(content: Seq<u8>, c: nat) -> Seq<char> {
    let read = readable(content, c);
    if read.len() < c {
        seq!['"'] + hex_lower(md5_of(read)) + seq!['"']
    } else {
        let digests = if read.len() == 0 {
            md5_of(read)
        } else {
            part_digests(read, c)
        };
        seq!['"'] + hex_lower(md5_of(digests)) + seq!['-'] + decimal(part_count(read.len(), c))
            + seq!['"']
    }
}

/// The content has more parts than are allowed.
pub open spec fn too_large(content: Seq<u8>, c: nat, max_parts: nat) -> bool {
    part_count(readable(content, c).len(), c) > max_parts
}

/// Whole parts followed by one more part: the digests and the number of the
/// parts grow by one.
pub proof fn lemma_append_part(content: Seq<u8>, part: Seq<u8>, c: nat, k: nat)
    requires
        c > 0,
        content.len() == k * c,
        0 < part.len() <= c,
    ensures
        part_digests(content + part, c) == part_digests(content, c) + md5_of(part),
        part_count((content + part).len(), c) == k + 1,
        part_count(content.len(), c) == k,
    decreases k,
{
    if k == 0 {
        assert(k * c == 0) by (nonlinear_arith)
            requires
                k == 0,
        ;
        assert(content + part =~= part);
        assert(part_digests(content, c) =~= Seq::<u8>::empty());
        assert(part_digests(content, c) + md5_of(part) =~= md5_of(part));
    } else {
        assert(content.len() >= c && (k - 1) * c == content.len() - c) by (nonlinear_arith)
            requires
                content.len() == k * c,
                k >= 1,
                c > 0,
        ;
        let rest = content.skip(c as int);
        lemma_append_part(rest, part, c, (k - 1) as nat);
        assert((content + part).take(c as int) =~= content.take(c as int));
        assert((content + part).skip(c as int) =~= rest + part);
        if content.len() <= c {
            assert(content.take(c as int) =~= content);
            assert(rest.len() == 0);
            assert(part_digests(rest, c) =~= Seq::<u8>::empty());
            assert(md5_of(content) + part_digests(rest, c) =~= md5_of(content));
        }
        assert(md5_of(content.take(c as int)) + (part_digests(rest, c) + md5_of(part)) =~= (md5_of(
            content.take(c as int),
        ) + part_digests(rest, c)) + md5_of(part));
    }
}

/// Why no ETag was computed.
#[derive(Clone, Copy, Debug, PartialEq, Eq)]
pub enum EtagError {
    /// The file has more parts than an upload may have.
    FileTooLarge,
}

/// What to do after a part was taken in.
#[derive(Clone, Copy, Debug, PartialEq, Eq)]
pub enum ChunkStep {
    /// The part was whole: read the next one.
    ReadMore,
    /// The part was short or empty: the file has ended.
    Done,
    /// The part is one more than an upload may have.
    TooLarge,
}

/// Computes ETags of files that are read part by part.
pub struct EtagCalculator {
    concat_md5: Vec<u8>,
    chunk_count: usize,
    reached: bool,
    ended: bool,
    content: Ghost<Seq<u8>>,
    multipart_upload_chunk_size: usize,
    multipart_upload_max_chunks: usize,
}

impl EtagCalculator {
    /// The size of a part.
    pub closed spec fn chunk_size(&self) -> nat {
        self.multipart_upload_chunk_size as nat
    }

    /// The highest number of parts.
    pub closed spec fn max_chunks(&self) -> nat {
        self.multipart_upload_max_chunks as nat
    }

    /// The bytes that were taken in since the last `begin`.
    pub closed spec fn taken(&self) -> Seq<u8> {
        self.content@
    }

    /// A short or empty part was taken in: the file has ended.
    pub closed spec fn has_ended(&self) -> bool {
        self.ended
    }

    /// The state agrees with the bytes that were taken in.
    pub closed spec fn wf(&self) -> bool {
        let c = self.chunk_size();
        &&& self.chunk_count <= self.multipart_upload_max_chunks
        &&& self.chunk_count == part_count(self.content@.len(), c)
        &&& self.concat_md5@ == part_digests(self.content@, c)
        &&& !self.ended ==> self.content@.len() == self.chunk_count * c
        &&& self.reached == (self.content@.len() >= c)
        &&& c == 0 ==> self.content@.len() == 0
    }

    /// A calculator for parts of the given size, with nothing taken in.
    pub fn new(multipart_upload_chunk_size: usize, multipart_upload_max_chunks: usize) -> (calc:
        EtagCalculator)
        ensures
            calc.wf(),
            calc.chunk_size() == multipart_upload_chunk_size,
            calc.max_chunks() == multipart_upload_max_chunks,
            calc.taken() == Seq::<u8>::empty(),
            !calc.has_ended(),
    {
        let calc = EtagCalculator {
            concat_md5: Vec::new(),
            chunk_count: 0,
            reached: multipart_upload_chunk_size == 0,
            ended: false,
            content: Ghost(Seq::empty()),
            multipart_upload_chunk_size,
            multipart_upload_max_chunks,
        };
        proof {
            assert(calc.concat_md5@ =~= part_digests(Seq::empty(), calc.chunk_size()));
            assert(0 == 0 * calc.chunk_size()) by (nonlinear_arith);
        }
        calc
    }

    /// The value of the `Content-MD5` header for a body: the base-64 text of
    /// its MD5 digest.
    pub fn content_md5(chunk: &[u8]) -> (text: String)
        ensures
            text@ == base64_of(md5_of(chunk@)),
    {
        let digest = md5_digest(chunk);
        base64_encode(digest.as_slice())
    }

    /// Forgets what was taken in.
    pub fn begin(&mut self)
        ensures
            final(self).wf(),
            final(self).chunk_size() == old(self).chunk_size(),
            final(self).max_chunks() == old(self).max_chunks(),
            final(self).taken() == Seq::<u8>::empty(),
            !final(self).has_ended(),
    {
        self.concat_md5.clear();
        self.chunk_count = 0;
        self.reached = self.multipart_upload_chunk_size == 0;
        self.ended = false;
        self.content = Ghost(Seq::empty());
        proof {
            assert(self.concat_md5@ =~= part_digests(Seq::empty(), self.chunk_size()));
            assert(0 == 0 * self.chunk_size()) by (nonlinear_arith);
        }
    }

    /// Whether a short or empty part was taken in.
    pub fn ended(&self) -> (ended: bool)
        ensures
            ended == self.has_ended(),
    {
        self.ended
    }

    /// The size of a part.
    pub fn part_size(&self) -> (size: usize)
        ensures
            size == self.chunk_size(),
    {
        self.multipart_upload_chunk_size
    }

    /// Takes in the next part of the file: what one read of at most
    /// `chunk_size` bytes gave. An empty part ends the file and so does a
    /// short one. A part that is one more than `max_chunks` is not taken in.
    pub fn update(&mut self, chunk: &[u8]) -> (step: ChunkStep)
        requires
            old(self).wf(),
            !old(self).has_ended(),
            chunk@.len() <= old(self).chunk_size(),
        ensures
            final(self).wf(),
            final(self).chunk_size() == old(self).chunk_size(),
            final(self).max_chunks() == old(self).max_chunks(),
            step is TooLarge <==> too_large(
                old(self).taken() + chunk@,
                old(self).chunk_size(),
                old(self).max_chunks(),
            ),
            step is TooLarge ==> final(self).taken() == old(self).taken(),
            step is TooLarge ==> !final(self).has_ended(),
            !(step is TooLarge) ==> final(self).taken() == old(self).taken() + chunk@,
            step is ReadMore <==> chunk@.len() == old(self).chunk_size() && chunk@.len() > 0 && !(
            step is TooLarge),
            step is Done <==> final(self).has_ended(),
    {
        let ghost c = self.chunk_size();
        let ghost before = self.content@;
        let ghost k = self.chunk_count as nat;
        let n = chunk.len();
        if n == 0 {
            self.ended = true;
            proof {
                assert(before + chunk@ =~= before);
            }
            return ChunkStep::Done;
        }
        proof {
            lemma_append_part(before, chunk@, c, k);
        }
        if self.chunk_count >= self.multipart_upload_max_chunks {
            return ChunkStep::TooLarge;
        }
        let digest = md5_digest(chunk);
        let mut i: usize = 0;
        let ghost digests_before = self.concat_md5@;
        while i < digest.len()
            invariant
                i <= digest@.len(),
                self.concat_md5@ == digests_before + digest@.take(i as int),
                self.chunk_count == old(self).chunk_count,
                self.reached == old(self).reached,
                self.ended == old(self).ended,
                self.content == old(self).content,
                self.multipart_upload_chunk_size == old(self).multipart_upload_chunk_size,
                self.multipart_upload_max_chunks == old(self).multipart_upload_max_chunks,
            decreases digest@.len() - i,
        {
            self.concat_md5.push(digest[i]);
            proof {
                assert(self.concat_md5@ =~= digests_before + digest@.take(i + 1));
            }
            i = i + 1;
        }
        proof {
            assert(digest@.take(i as int) == digest@);
        }
        self.chunk_count = self.chunk_count + 1;
        self.content = Ghost(before + chunk@);
        proof {
            if k >= 1 {
                assert(k * c >= c) by (nonlinear_arith)
                    requires
                        k >= 1,
                ;
            } else {
                assert(k * c == 0) by (nonlinear_arith)
                    requires
                        k == 0,
                ;
            }
        }
        self.reached = self.reached || n >= self.multipart_upload_chunk_size;
        if n < self.multipart_upload_chunk_size {
            self.ended = true;
            ChunkStep::Done
        } else {
            proof {
                assert((k + 1) * c == k * c + c) by (nonlinear_arith);
            }
            ChunkStep::ReadMore
        }
    }

    /// The ETag of the bytes that were taken in. Afterwards the calculator is
    /// as it is after `begin`.
    pub fn finish(&mut self) -> (etag: String)
        requires
            old(self).wf(),
            old(self).has_ended(),
        ensures
            etag@ == s3_etag(old(self).taken(), old(self).chunk_size()),
            final(self).wf(),
            final(self).chunk_size() == old(self).chunk_size(),
            final(self).max_chunks() == old(self).max_chunks(),
            final(self).taken() == Seq::<u8>::empty(),
            !final(self).has_ended(),
    {
        let ghost c = self.chunk_size();
        let ghost content = self.content@;
        let count = self.chunk_count;
        let mut digests: Vec<u8> = Vec::new();
        if count == 0 {
            digests = md5_digest(digests.as_slice());
        } else {
            core::mem::swap(&mut self.concat_md5, &mut digests);
        }
        proof {
            assert(readable(content, c) =~= content);
            if content.len() == 0 {
                assert(content =~= Seq::<u8>::empty());
            }
        }
        let mut etag = String::new();
        push_char(&mut etag, '"');
        if self.reached {
            let digest = md5_digest(digests.as_slice());
            let hex = hex_encode(digest.as_slice());
            etag.append(hex.as_str());
            push_char(&mut etag, '-');
            let number = decimal_text(count as u64);
            etag.append(number.as_str());
        } else {
            let hex = hex_encode(digests.as_slice());
            etag.append(hex.as_str());
        }
        push_char(&mut etag, '"');
        self.concat_md5 = Vec::new();
        self.chunk_count = 0;
        self.reached = self.multipart_upload_chunk_size == 0;
        self.ended = false;
        self.content = Ghost(Seq::empty());
        proof {
            assert(self.concat_md5@ =~= part_digests(Seq::empty(), c));
            assert(0 == 0 * c) by (nonlinear_arith);
            assert(etag@ =~= s3_etag(content, c));
        }
        etag
    }

    /// The ETag of a file with this content, or why it has none. The content
    /// is taken in part by part.
    pub fn file(&mut self, content: &[u8]) -> (r: Result<String, EtagError>)
        requires
            old(self).wf(),
        ensures
            final(self).wf(),
            final(self).chunk_size() == old(self).chunk_size(),
            final(self).max_chunks() == old(self).max_chunks(),
            r == if too_large(content@, old(self).chunk_size(), old(self).max_chunks()) {
                Err::<String, EtagError>(EtagError::FileTooLarge)
            } else {
                Ok::<String, EtagError>(r->Ok_0)
            },
            r matches Ok(etag) ==> etag@ == s3_etag(content@, old(self).chunk_size()),
    {
        self.begin();
        let size = self.multipart_upload_chunk_size;
        let len = content.len();
        let mut pos: usize = 0;
        loop
            invariant
                self.wf(),
                !self.has_ended(),
                self.chunk_size() == old(self).chunk_size(),
                self.max_chunks() == old(self).max_chunks(),
                size == self.chunk_size(),
                len == content@.len(),
                pos <= len,
                self.taken() == readable(content@, size as nat).take(pos as int),
                size == 0 ==> pos == 0,
            decreases len - pos,
        {
            let end = if size == 0 {
                pos
            } else if len - pos < size {
                len
            } else {
                pos + size
            };
            let chunk = slice_subrange(content, pos, end);
            let ghost read = readable(content@, size as nat);
            proof {
                if size > 0 {
                    assert(read.take(pos as int) + chunk@ =~= read.take(end as int));
                } else {
                    assert(read.take(pos as int) + chunk@ =~= read.take(pos as int));
                }
            }
            match self.update(chunk) {
                ChunkStep::TooLarge => {
                    proof {
                        lemma_prefix_parts(read, end as int, size as nat);
                    }
                    self.begin();
                    return Err(EtagError::FileTooLarge);
                },
                ChunkStep::Done => {
                    proof {
                        if size > 0 {
                            assert(end == len);
                            assert(read.take(end as int) =~= content@);
                        } else {
                            assert(read.take(pos as int) =~= read);
                        }
                        assert(self.taken() =~= read);
                        assert(s3_etag(read, size as nat) == s3_etag(content@, size as nat)) by {
                            assert(readable(read, size as nat) =~= readable(content@, size as nat));
                        }
                        assert(!too_large(content@, size as nat, self.max_chunks())) by {
                            assert(readable(read, size as nat) =~= readable(content@, size as nat));
                        }
                    }
                    let etag = self.finish();
                    return Ok(etag);
                },
                ChunkStep::ReadMore => {
                    pos = end;
                },
            }
        }
    }
}

/// A part of the content from its start has no more parts than all of it.
pub proof fn lemma_prefix_parts(content: Seq<u8>, k: int, c: nat)
    requires
        0 <= k <= content.len(),
    ensures
        part_count(k as nat, c) <= part_count(content.len(), c),
{
    lemma_part_count_monotone(k as nat, content.len(), c);
}

/// More bytes have no fewer parts.
pub proof fn lemma_part_count_monotone(a: nat, b: nat, c: nat)
    requires
        a <= b,
    ensures
        part_count(a, c) <= part_count(b, c),
    decreases b,
{
    if a > 0 && c > 0 && a > c {
        lemma_part_count_monotone((a - c) as nat, (b - c) as nat, c);
    }
}

/// The part of a slice between two positions.
fn slice_subrange(bytes: &[u8], from: usize, to: usize) -> (part: &[u8])
    requires
        from <= to <= bytes@.len(),
    ensures
        part@ == bytes@.subrange(from as int, to as int),
{
    &bytes[from..to]
}

} // verus!
