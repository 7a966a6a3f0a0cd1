//! Uploads to Azure Blob Storage: in one piece where the file is no longer
//! than a block, in blocks otherwise.

use crate::encoding::{decimal, decimal_text, push_char};
use vstd::prelude::*;
use vstd::string::{StrSliceExecFns, StringExecFns};

verus! {

/// The size of a block: 8 MiB.
pub const AZURE_BLOB_UPLOAD_CHUNK_SIZE: usize = 8 * 1024 * 1024;

/// The name of the tag that holds the fingerprint of a blob.
pub fn etag_tag_name() -> (name: &'static str)
    ensures
        name@ == "o11y_etag"@,
{
    "o11y_etag"
}

/// The content type of every blob.
pub fn content_type() -> (name: &'static str)
    ensures
        name@ == "application/octet-stream"@,
{
    "application/octet-stream"
}

/// Whether a file is to be uploaded: not where the blob carries the
/// fingerprint of the file in its tag. `blob_tag` is the value of the tag,
/// `None` where the properties of the blob could not be had or lack the tag.
pub fn need_upload(blob_tag: Option<&String>, file_hash: &String) -> (need: bool)
    ensures
        need == !(blob_tag matches Some(t) && t@ == file_hash@),
{
    match blob_tag {
        Some(t) => !(*t == *file_hash),
        None => true,
    }
}

/// How a file goes up.
#[derive(Clone, Copy, Debug, PartialEq, Eq, Structural)]
pub enum BlobPath {
    /// With one `PutBlockBlob`.
    Direct,
    /// Block by block, with a `PutBlockList` at the end.
    Blocks,
}

/// How a file of `file_size` bytes goes up.
pub fn upload_path(file_size: u64) -> (path: BlobPath)
    ensures
        path == if file_size <= AZURE_BLOB_UPLOAD_CHUNK_SIZE {
            BlobPath::Direct
        } else {
            BlobPath::Blocks
        },
{
    if file_size <= AZURE_BLOB_UPLOAD_CHUNK_SIZE as u64 {
        BlobPath::Direct
    } else {
        BlobPath::Blocks
    }
}

/// `n` zeros.
pub open spec fn zeros(n: nat) -> Seq<char> {
    Seq::new(n, |i: int| '0')
}

/// The identifier of the block with this index: the index in decimal
/// digits, filled up with zeros in front to 32 digits.
pub open spec fn block_id_of(index: nat) -> Seq<char> {
    let digits = decimal(index);
    if digits.len() >= 32 {
        digits
    } else {
        zeros((32 - digits.len()) as nat) + digits
    }
}

/// The identifier of the block with this index.
pub fn block_id(index: usize) -> (id: String)
    ensures
        id@ == block_id_of(index as nat),
{
    let digits = decimal_text(index as u64);
    let len = digits.as_str().unicode_len();
    let mut id = String::new();
    let mut i: usize = len;
    assert(id@ =~= zeros(0));
    while i < 32
        invariant
            len <= i,
            len >= 32 ==> i == len,
            len < 32 ==> i <= 32,
            id@ == zeros((i - len) as nat),
            len == digits@.len(),
        decreases 32 - i,
    {
        push_char(&mut id, '0');
        proof {
            assert(id@ =~= zeros((i + 1 - len) as nat));
        }
        i = i + 1;
    }
    let ghost pad = id@;
    id.append(digits.as_str());
    proof {
        assert(id@ == pad + digits@);
        if len >= 32 {
            assert(pad =~= Seq::<char>::empty());
            assert(id@ =~= digits@);
        }
    }
    id
}

/// The identifiers of the first `n` blocks.
pub open spec fn block_ids(n: nat) -> Seq<Seq<char>> {
    Seq::new(n, |i: int| block_id_of(i as nat))
}

/// An upload in blocks that is under way.
pub struct BlockUpload {
    block_list: Vec<String>,
    uploaded_size: u64,
    file_size: u64,
}

impl BlockUpload {
    /// The identifiers of the blocks that went up, in their order.
    pub closed spec fn blocks(&self) -> Seq<Seq<char>> {
        self.block_list@.map_values(|id: String| id@)
    }

    /// The bytes that went up.
    pub closed spec fn uploaded(&self) -> nat {
        self.uploaded_size as nat
    }

    /// The size of the file.
    pub closed spec fn size(&self) -> nat {
        self.file_size as nat
    }

    /// The blocks that went up are the blocks zero to `k`.
    pub closed spec fn wf(&self) -> bool {
        self.blocks() == block_ids(self.block_list@.len() as nat)
    }

    /// An upload of a file of `file_size` bytes of which nothing went up yet.
    pub fn new(file_size: u64) -> (u: BlockUpload)
        ensures
            u.wf(),
            u.size() == file_size,
            u.uploaded() == 0,
            u.blocks() == Seq::<Seq<char>>::empty(),
    {
        let u = BlockUpload { block_list: Vec::new(), uploaded_size: 0, file_size };
        proof {
            assert(u.blocks() =~= block_ids(0));
            assert(u.blocks() =~= Seq::<Seq<char>>::empty());
        }
        u
    }

    /// The bytes that went up.
    pub fn uploaded_size(&self) -> (n: u64)
        ensures
            n == self.uploaded(),
    {
        self.uploaded_size
    }

    /// Whether another block is to be read: not when all bytes went up.
    pub fn more(&self) -> (more: bool)
        ensures
            more == (self.uploaded() < self.size()),
    {
        self.uploaded_size < self.file_size
    }

    /// Takes in a block of `read_size` bytes that was read: the identifier
    /// under which it goes up, or `None` where it is empty, which ends the
    /// upload.
    pub fn block_read(&mut self, read_size: usize) -> (id: Option<String>)
        requires
            old(self).wf(),
            old(self).uploaded() + read_size <= u64::MAX,
        ensures
            final(self).wf(),
            final(self).size() == old(self).size(),
            read_size == 0 ==> (id is None && final(self).blocks() == old(self).blocks() && final(self).uploaded() == old(self).uploaded()),
            read_size > 0 ==> (id matches Some(text) && text@ == block_id_of(
                old(self).blocks().len(),
            ) && final(self).blocks() == old(self).blocks().push(text@) && final(self).uploaded()
                == old(self).uploaded() + read_size),
    {
        if read_size == 0 {
            return None;
        }
        let ghost before = self.blocks();
        let id = block_id(self.block_list.len());
        self.block_list.push(id.clone());
        self.uploaded_size = self.uploaded_size + read_size as u64;
        proof {
            assert(self.blocks() =~= before.push(id@));
            assert(self.blocks() =~= block_ids(self.block_list@.len() as nat));
        }
        Some(id)
    }

    /// Ends the upload: the identifiers for the block list, in their order,
    /// and the bytes that went up.
    pub fn finish(self) -> (r: (Vec<String>, u64))
        requires
            self.wf(),
        ensures
            r.0@.map_values(|id: String| id@) == block_ids(self.blocks().len()),
            r.1 == self.uploaded(),
    {
        (self.block_list, self.uploaded_size)
    }
}

} // verus!
