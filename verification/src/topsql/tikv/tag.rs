//! The resource group tag that names a record: the digests of a statement and
//! of its plan, and the kind of key that the statement touched. On the wire
//! it is a protobuf message with three optional fields: the two digests as
//! byte strings (fields 1 and 2) and the label as a number (field 3).

use vstd::prelude::*;

verus! {

/// A resource group tag.
#[derive(Debug, PartialEq, Eq)]
pub struct ResourceGroupTag {
    pub sql_digest: Option<Vec<u8>>,
    pub plan_digest: Option<Vec<u8>>,
    pub label: Option<i32>,
}

/// A resource group tag as the contracts see it.
pub struct TagView {
    pub sql_digest: Option<Seq<u8>>,
    pub plan_digest: Option<Seq<u8>>,
    pub label: Option<i32>,
}

/// The view of an optional byte string.
pub open spec fn bytes_view(bytes: Option<Vec<u8>>) -> Option<Seq<u8>> {
    match bytes {
        Some(b) => Some(b@),
        None => None,
    }
}

impl View for ResourceGroupTag {
    type V = TagView;

    open spec fn view(&self) -> TagView {
        TagView {
            sql_digest: bytes_view(self.sql_digest),
            plan_digest: bytes_view(self.plan_digest),
            label: self.label,
        }
    }
}

/// The tag that has no field.
pub open spec fn empty_tag() -> TagView {
    TagView { sql_digest: None, plan_digest: None, label: None }
}

/// One more than the highest value that a varint can still take on when `k`
/// of its bytes have been read: `2^(64 - 7k)`.
pub open spec fn cap(k: nat) -> int
    decreases 10 - k,
{
    if k >= 9 {
        2
    } else {
        128 * cap(k + 1)
    }
}

/// The varint whose byte number `k` stands at `pos`: its value from that byte
/// on, and the position behind its last byte. A varint holds seven bits per
/// byte, the lowest first; every byte but the last has its highest bit set;
/// it has at most ten bytes and fits 64 bits.
pub open spec fn varint_at(b: Seq<u8>, pos: int, k: nat) -> Option<(int, int)>
    decreases 10 - k,
{
    if k >= 10 || pos < 0 || pos >= b.len() {
        None
    } else if b[pos] < 0x80 {
        if k == 9 && b[pos] >= 2 {
            None
        } else {
            Some((b[pos] as int, pos + 1))
        }
    } else {
        match varint_at(b, pos + 1, k + 1) {
            Some((v, next)) => Some((b[pos] - 0x80 + 128 * v, next)),
            None => None,
        }
    }
}

/// The bytes of the varint of `v`.
pub open spec fn varint_bytes(v: int) -> Seq<u8>
    decreases v,
{
    if v < 0x80 {
        seq![v as u8]
    } else {
        seq![(0x80 + v % 128) as u8] + varint_bytes(v / 128)
    }
}

/// The number as which a label goes on the wire.
pub open spec fn label_number(label: i32) -> int {
    if label >= 0 {
        label as int
    } else {
        0x1_0000_0000_0000_0000 + label
    }
}

/// The label that a number on the wire stands for: its lowest 32 bits, read
/// as a signed number.
pub open spec fn label_of(v: int) -> i32 {
    let low = v % 0x1_0000_0000;
    if low < 0x8000_0000 {
        low as i32
    } else {
        (low - 0x1_0000_0000) as i32
    }
}

/// A field that holds a byte string: its key, the length, the bytes.
pub open spec fn bytes_field(key: u8, bytes: Seq<u8>) -> Seq<u8> {
    seq![key] + varint_bytes(bytes.len() as int) + bytes
}

/// The bytes of a tag: its fields in the order of their numbers, those that
/// are absent left out.
pub open spec fn spec_encode(tag: TagView) -> Seq<u8> {
    sql_field(tag) + plan_field(tag) + label_field(tag)
}

/// The field that starts at `pos`: the tag with that field taken in, and the
/// position behind the field. A later field of the same number replaces an
/// earlier one. Fields of other numbers are passed over.
pub open spec fn field_at(b: Seq<u8>, pos: int, tag: TagView) -> Option<(TagView, int)> {
    match varint_at(b, pos, 0) {
        None => None,
        Some((key, key_end)) => {
            let wire = key % 8;
            let number = key / 8;
            if key > u32::MAX || number == 0 || wire > 5 {
                None
            } else if number == 1 || number == 2 {
                if wire != 2 {
                    None
                } else {
                    match varint_at(b, key_end, 0) {
                        None => None,
                        Some((len, len_end)) => if len > b.len() - len_end {
                            None
                        } else {
                            let bytes = b.subrange(len_end, len_end + len);
                            if number == 1 {
                                Some((TagView { sql_digest: Some(bytes), ..tag }, len_end + len))
                            } else {
                                Some((TagView { plan_digest: Some(bytes), ..tag }, len_end + len))
                            }
                        },
                    }
                }
            } else if number == 3 {
                if wire != 0 {
                    None
                } else {
                    match varint_at(b, key_end, 0) {
                        None => None,
                        Some((v, len_end)) => Some((TagView { label: Some(label_of(v)), ..tag }, len_end)),
                    }
                }
            } else {
                match skipped_field(b, key_end, wire, number, RECURSION_LIMIT as nat) {
                    Some(end) => Some((tag, end)),
                    None => None,
                }
            }
        },
    }
}

/// How deep groups may be nested in a field that is passed over.
pub const RECURSION_LIMIT: usize = 100;

/// The key that starts at `pos`: the number of its field, the kind of its
/// value, and the position behind the key. A key is a varint of at most 32
/// bits; its lowest three bits tell the kind of the value, which is one of
/// six, and the rest the number of the field, which is not zero.
pub open spec fn key_at(b: Seq<u8>, pos: int) -> Option<(int, int, int)> {
    match varint_at(b, pos, 0) {
        None => None,
        Some((key, key_end)) => if key > u32::MAX || key / 8 == 0 || key % 8 > 5 {
            None
        } else {
            Some((key / 8, key % 8, key_end))
        },
    }
}

/// The position behind the value of a field that is passed over. The value
/// stands at `pos` and is of kind `wire`: a varint, eight bytes, a byte
/// string with its length in front, a group, or four bytes. `budget` is the
/// number of groups that may still be entered, plus one.
pub open spec fn skipped_field(b: Seq<u8>, pos: int, wire: int, number: int, budget: nat) -> Option<
    int,
>
    decreases b.len() - pos, 1nat,
{
    if budget == 0 || pos < 0 || pos > b.len() {
        None
    } else if wire == 0 {
        match varint_at(b, pos, 0) {
            None => None,
            Some((v, end)) => Some(end),
        }
    } else if wire == 1 {
        if 8 > b.len() - pos {
            None
        } else {
            Some(pos + 8)
        }
    } else if wire == 2 {
        match varint_at(b, pos, 0) {
            None => None,
            Some((len, len_end)) => if len > b.len() - len_end {
                None
            } else {
                Some(len_end + len)
            },
        }
    } else if wire == 3 {
        skipped_group(b, pos, number, budget)
    } else if wire == 5 {
        if 4 > b.len() - pos {
            None
        } else {
            Some(pos + 4)
        }
    } else {
        None
    }
}

/// The position behind a group that is passed over: behind the key that
/// ends the group of field `number`. The fields of the group stand at `pos`
/// and are passed over one by one.
pub open spec fn skipped_group(b: Seq<u8>, pos: int, number: int, budget: nat) -> Option<int>
    decreases b.len() - pos, 0nat,
{
    if budget == 0 || pos < 0 || pos > b.len() {
        None
    } else {
        match key_at(b, pos) {
            None => None,
            Some((inner_number, inner_wire, key_end)) => if !(pos < key_end <= b.len()) {
                None
            } else if inner_wire == 4 {
                if inner_number == number {
                    Some(key_end)
                } else {
                    None
                }
            } else {
                match skipped_field(b, key_end, inner_wire, inner_number, (budget - 1) as nat) {
                    None => None,
                    Some(end) => if key_end <= end <= b.len() {
                        skipped_group(b, end, number, budget)
                    } else {
                        None
                    },
                }
            },
        }
    }
}

/// The tag that the fields from `pos` on make of `tag`.
pub open spec fn fields_from(b: Seq<u8>, pos: int, tag: TagView) -> Option<TagView>
    decreases b.len() - pos,
{
    if pos >= b.len() {
        Some(tag)
    } else {
        match field_at(b, pos, tag) {
            None => None,
            Some((next_tag, next)) => if pos < next <= b.len() {
                fields_from(b, next, next_tag)
            } else {
                None
            },
        }
    }
}

/// The tag that the bytes hold, if they are well formed.
pub open spec fn spec_decode(bytes: Seq<u8>) -> Option<TagView> {
    fields_from(bytes, 0, empty_tag())
}

/// What a tag says of its record.
pub enum TagClass {
    /// The tag cannot be read, or names no statement.
    Unreadable,
    /// The tag names the empty digest: the record stands for the statements
    /// that have no record of their own.
    Others,
    /// The tag names a statement.
    Digest,
}

/// What the bytes of a tag say of its record.
pub open spec fn tag_class(tag: Seq<u8>) -> TagClass {
    match spec_decode(tag) {
        None => TagClass::Unreadable,
        Some(t) => match t.sql_digest {
            None => TagClass::Unreadable,
            Some(d) => if d.len() == 0 {
                TagClass::Others
            } else {
                TagClass::Digest
            },
        },
    }
}

/// The tag of the record of the "others": two empty digests and no label.
pub open spec fn others_tag() -> Seq<u8> {
    spec_encode(
        TagView {
            sql_digest: Some(Seq::<u8>::empty()),
            plan_digest: Some(Seq::<u8>::empty()),
            label: None,
        },
    )
}

proof fn lemma_cap()
    ensures
        cap(0) == 0x1_0000_0000_0000_0000,
        forall|k: nat| k < 9 ==> #[trigger] cap(k) == 128 * cap(k + 1),
        cap(9) == 2,
{
    reveal_with_fuel(cap, 11);
}

/// A varint lies behind its position and within its bounds.
pub proof fn lemma_varint_at(b: Seq<u8>, pos: int, k: nat)
    ensures
        match varint_at(b, pos, k) {
            Some((v, next)) => 0 <= v < cap(k) && pos < next <= b.len() && next <= pos + 10 - k,
            None => true,
        },
    decreases 10 - k,
{
    if k < 10 && 0 <= pos < b.len() && b[pos] >= 0x80 {
        lemma_varint_at(b, pos + 1, k + 1);
    }
    if k < 9 {
        assert(cap(k) == 128 * cap(k + 1));
        lemma_cap_positive(k + 1);
    }
}

proof fn lemma_cap_positive(k: nat)
    ensures
        cap(k) >= 2,
    decreases 10 - k,
{
    if k < 9 {
        lemma_cap_positive(k + 1);
    }
}

fn read_varint(bytes: &[u8], pos: usize, k: usize) -> (r: Option<(u64, usize)>)
    requires
        k <= 10,
    ensures
        match r {
            Some((v, next)) => varint_at(bytes@, pos as int, k as nat) == Some(
                (v as int, next as int),
            ),
            None => varint_at(bytes@, pos as int, k as nat) is None,
        },
    decreases 10 - k,
{
    if k >= 10 || pos >= bytes.len() {
        return None;
    }
    let byte = bytes[pos];
    if byte < 0x80 {
        if k == 9 && byte >= 2 {
            None
        } else {
            Some((byte as u64, pos + 1))
        }
    } else {
        match read_varint(bytes, pos + 1, k + 1) {
            Some((v, next)) => {
                proof {
                    lemma_varint_at(bytes@, pos + 1, (k + 1) as nat);
                    lemma_cap();
                    lemma_cap_bound(k as nat);
                }
                Some(((byte - 0x80) as u64 + 128 * v, next))
            },
            None => None,
        }
    }
}

proof fn lemma_cap_bound(k: nat)
    ensures
        cap(k) <= 0x1_0000_0000_0000_0000,
        k < 9 ==> 128 * cap(k + 1) <= 0x1_0000_0000_0000_0000,
    decreases k,
{
    lemma_cap();
    if k > 0 {
        lemma_cap_bound((k - 1) as nat);
        lemma_cap_positive(k);
    }
}

fn copy_range(bytes: &[u8], from: usize, to: usize) -> (copy: Vec<u8>)
    requires
        from <= to <= bytes@.len(),
    ensures
        copy@ == bytes@.subrange(from as int, to as int),
{
    let mut copy: Vec<u8> = Vec::new();
    let mut i: usize = from;
    while i < to
        invariant
            from <= i <= to,
            to <= bytes@.len(),
            copy@ == bytes@.subrange(from as int, i as int),
        decreases to - i,
    {
        copy.push(bytes[i]);
        assert(copy@ =~= bytes@.subrange(from as int, i + 1));
        i = i + 1;
    }
    copy
}

/// A passed-over field ends behind its start and within the bytes.
pub proof fn lemma_skipped_field(b: Seq<u8>, pos: int, wire: int, number: int, budget: nat)
    ensures
        skipped_field(b, pos, wire, number, budget) matches Some(end) ==> pos <= end <= b.len(),
        skipped_field(b, pos, wire, number, budget) matches Some(end) ==> wire == 3 ==> pos < end,
    decreases b.len() - pos, 1nat,
{
    if budget > 0 && 0 <= pos <= b.len() {
        if wire == 0 || wire == 2 {
            lemma_varint_at(b, pos, 0);
        } else if wire == 3 {
            lemma_skipped_group(b, pos, number, budget);
        }
    }
}

/// A passed-over group ends behind its start and within the bytes.
pub proof fn lemma_skipped_group(b: Seq<u8>, pos: int, number: int, budget: nat)
    ensures
        skipped_group(b, pos, number, budget) matches Some(end) ==> pos < end <= b.len(),
    decreases b.len() - pos, 0nat,
{
    if budget > 0 && 0 <= pos <= b.len() {
        lemma_varint_at(b, pos, 0);
        match key_at(b, pos) {
            None => {},
            Some((inner_number, inner_wire, key_end)) => {
                if pos < key_end <= b.len() && inner_wire != 4 {
                    lemma_skipped_field(b, key_end, inner_wire, inner_number, (budget - 1) as nat);
                    match skipped_field(b, key_end, inner_wire, inner_number, (budget - 1) as nat) {
                        None => {},
                        Some(end) => {
                            if key_end <= end <= b.len() {
                                lemma_skipped_group(b, end, number, budget);
                            }
                        },
                    }
                }
            },
        }
    }
}

fn read_key(bytes: &[u8], pos: usize) -> (r: Option<(u64, u64, usize)>)
    ensures
        match r {
            Some((number, wire, end)) => key_at(bytes@, pos as int) == Some(
                (number as int, wire as int, end as int),
            ) && pos < end <= bytes@.len(),
            None => key_at(bytes@, pos as int) is None,
        },
{
    proof {
        lemma_varint_at(bytes@, pos as int, 0);
    }
    match read_varint(bytes, pos, 0) {
        None => None,
        Some((key, end)) => if key > u32::MAX as u64 || key / 8 == 0 || key % 8 > 5 {
            None
        } else {
            Some((key / 8, key % 8, end))
        },
    }
}

fn skip_field(bytes: &[u8], pos: usize, wire: u64, number: u64, budget: usize) -> (r: Option<usize>)
    requires
        pos <= bytes@.len(),
    ensures
        match r {
            Some(end) => skipped_field(bytes@, pos as int, wire as int, number as int, budget as nat)
                == Some(end as int) && pos <= end <= bytes@.len(),
            None => skipped_field(bytes@, pos as int, wire as int, number as int, budget as nat)
                is None,
        },
    decreases bytes@.len() - pos, 1nat,
{
    proof {
        lemma_varint_at(bytes@, pos as int, 0);
    }
    if budget == 0 {
        None
    } else if wire == 0 {
        match read_varint(bytes, pos, 0) {
            Some((_, end)) => Some(end),
            None => None,
        }
    } else if wire == 1 {
        if 8 > bytes.len() - pos {
            None
        } else {
            Some(pos + 8)
        }
    } else if wire == 2 {
        match read_varint(bytes, pos, 0) {
            Some((len, len_end)) => if len > (bytes.len() - len_end) as u64 {
                None
            } else {
                Some(len_end + len as usize)
            },
            None => None,
        }
    } else if wire == 3 {
        skip_group(bytes, pos, number, budget)
    } else if wire == 5 {
        if 4 > bytes.len() - pos {
            None
        } else {
            Some(pos + 4)
        }
    } else {
        None
    }
}

fn skip_group(bytes: &[u8], pos: usize, number: u64, budget: usize) -> (r: Option<usize>)
    requires
        pos <= bytes@.len(),
    ensures
        match r {
            Some(end) => skipped_group(bytes@, pos as int, number as int, budget as nat) == Some(
                end as int,
            ) && pos < end <= bytes@.len(),
            None => skipped_group(bytes@, pos as int, number as int, budget as nat) is None,
        },
    decreases bytes@.len() - pos, 0nat,
{
    if budget == 0 {
        return None;
    }
    match read_key(bytes, pos) {
        None => None,
        Some((inner_number, inner_wire, key_end)) => {
            if inner_wire == 4 {
                if inner_number == number {
                    Some(key_end)
                } else {
                    None
                }
            } else {
                match skip_field(bytes, key_end, inner_wire, inner_number, budget - 1) {
                    None => None,
                    Some(end) => skip_group(bytes, end, number, budget),
                }
            }
        },
    }
}

impl ResourceGroupTag {
    /// Reads a tag from its bytes. `None` where they are not well formed.
    pub fn decode(bytes: &[u8]) -> (tag: Option<ResourceGroupTag>)
        ensures
            match tag {
                Some(t) => spec_decode(bytes@) == Some(t@),
                None => spec_decode(bytes@) is None,
            },
    {
        let mut tag = ResourceGroupTag { sql_digest: None, plan_digest: None, label: None };
        let mut pos: usize = 0;
        while pos < bytes.len()
            invariant
                pos <= bytes@.len(),
                spec_decode(bytes@) == fields_from(bytes@, pos as int, tag@),
            decreases bytes@.len() - pos,
        {
            let ghost b = bytes@;
            let ghost before = tag@;
            let ghost start = pos as int;
            proof {
                lemma_varint_at(b, pos as int, 0);
            }
            let (key, key_end) = match read_varint(bytes, pos, 0) {
                Some(r) => r,
                None => {
                    return None;
                },
            };
            let wire = key % 8;
            let number = key / 8;
            proof {
                lemma_varint_at(b, key_end as int, 0);
            }
            if key > u32::MAX as u64 || number == 0 || wire > 5 {
                return None;
            }
            if number == 1 || number == 2 {
                if wire != 2 {
                    return None;
                }
                let (len, len_end) = match read_varint(bytes, key_end, 0) {
                    Some(r) => r,
                    None => {
                        return None;
                    },
                };
                if len > (bytes.len() - len_end) as u64 {
                    return None;
                }
                let end = len_end + len as usize;
                let digest = copy_range(bytes, len_end, end);
                if number == 1 {
                    tag.sql_digest = Some(digest);
                } else {
                    tag.plan_digest = Some(digest);
                }
                pos = end;
            } else if number == 3 {
                if wire != 0 {
                    return None;
                }
                let (v, len_end) = match read_varint(bytes, key_end, 0) {
                    Some(r) => r,
                    None => {
                        return None;
                    },
                };
                let low = v % 0x1_0000_0000;
                let label = if low < 0x8000_0000 {
                    low as i32
                } else {
                    (low as i64 - 0x1_0000_0000) as i32
                };
                tag.label = Some(label);
                pos = len_end;
            } else {
                pos = match skip_field(bytes, key_end, wire, number, RECURSION_LIMIT) {
                    Some(end) => end,
                    None => {
                        return None;
                    },
                };
            }
            assert(field_at(b, start, before) == Some((tag@, pos as int)));
        }
        Some(tag)
    }

    /// The bytes of the tag.
    pub fn encode(&self) -> (bytes: Vec<u8>)
        ensures
            bytes@ == spec_encode(self@),
    {
        let mut out: Vec<u8> = Vec::new();
        match &self.sql_digest {
            Some(d) => {
                write_bytes_field(&mut out, 0x0a, d);
            },
            None => {},
        }
        let ghost first = out@;
        match &self.plan_digest {
            Some(d) => {
                write_bytes_field(&mut out, 0x12, d);
            },
            None => {},
        }
        let ghost second = out@;
        match self.label {
            Some(l) => {
                out.push(0x18);
                let number: u64 = if l >= 0 {
                    l as u64
                } else {
                    u64::MAX - ((-(l + 1)) as u64)
                };
                write_varint(&mut out, number);
                proof {
                    assert(out@ =~= second + (seq![0x18u8] + varint_bytes(label_number(l))));
                }
            },
            None => {},
        }
        proof {
            assert(out@ =~= spec_encode(self@));
        }
        out
    }
}

fn write_varint(out: &mut Vec<u8>, v: u64)
    ensures
        final(out)@ == old(out)@ + varint_bytes(v as int),
{
    let mut rest = v;
    while rest >= 0x80
        invariant
            old(out)@ + varint_bytes(v as int) == out@ + varint_bytes(rest as int),
        decreases rest,
    {
        let ghost before = out@;
        out.push((0x80 + rest % 128) as u8);
        proof {
            assert(before + varint_bytes(rest as int) =~= out@ + varint_bytes(rest as int / 128));
        }
        rest = rest / 128;
    }
    let ghost before = out@;
    out.push(rest as u8);
    proof {
        assert(before + varint_bytes(rest as int) =~= out@);
    }
}

fn write_bytes_field(out: &mut Vec<u8>, key: u8, bytes: &Vec<u8>)
    ensures
        final(out)@ == old(out)@ + bytes_field(key, bytes@),
{
    out.push(key);
    write_varint(out, bytes.len() as u64);
    let ghost head = out@;
    let mut i: usize = 0;
    while i < bytes.len()
        invariant
            i <= bytes@.len(),
            out@ == head + bytes@.take(i as int),
        decreases bytes@.len() - i,
    {
        out.push(bytes[i]);
        assert(out@ =~= head + bytes@.take(i + 1));
        i = i + 1;
    }
    proof {
        assert(bytes@.take(i as int) == bytes@);
        assert(out@ =~= old(out)@ + bytes_field(key, bytes@));
    }
}

/// What the tag of a record says of it.
pub fn classify(tag: &Vec<u8>) -> (class: TagClass)
    ensures
        class == tag_class(tag@),
{
    match ResourceGroupTag::decode(tag.as_slice()) {
        None => TagClass::Unreadable,
        Some(t) => match t.sql_digest {
            None => TagClass::Unreadable,
            Some(d) => if d.len() == 0 {
                TagClass::Others
            } else {
                TagClass::Digest
            },
        },
    }
}

/// The tag of the record of the "others".
pub fn encode_others_tag() -> (tag: Vec<u8>)
    ensures
        tag@ == others_tag(),
{
    let others = ResourceGroupTag {
        sql_digest: Some(Vec::new()),
        plan_digest: Some(Vec::new()),
        label: None,
    };
    proof {
        assert(others@.sql_digest == Some(Seq::<u8>::empty()));
        assert(others@.plan_digest == Some(Seq::<u8>::empty()));
    }
    others.encode()
}

/// A varint that was written is read back: where the bytes of the varint of
/// `v` stand at `pos`, reading there gives `v` and the position behind them.
pub proof fn lemma_varint_round_trip(b: Seq<u8>, pos: int, v: int, k: nat)
    requires
        0 <= v < cap(k),
        k <= 9,
        0 <= pos,
        pos + varint_bytes(v).len() <= b.len(),
        b.subrange(pos, pos + varint_bytes(v).len()) == varint_bytes(v),
    ensures
        varint_at(b, pos, k) == Some((v, pos + varint_bytes(v).len())),
    decreases v,
{
    let vb = varint_bytes(v);
    assert(b[pos] == b.subrange(pos, pos + vb.len())[0]);
    if v >= 0x80 {
        let rest = varint_bytes(v / 128);
        assert(vb =~= seq![(0x80 + v % 128) as u8] + rest);
        assert(k < 9) by {
            if k == 9 {
                assert(cap(9) == 2);
            }
        }
        assert(cap(k) == 128 * cap(k + 1));
        assert(b.subrange(pos + 1, pos + 1 + rest.len()) =~= rest) by {
            assert forall|i: int| 0 <= i < rest.len() implies b.subrange(
                pos + 1,
                pos + 1 + rest.len(),
            )[i] == rest[i] by {
                assert(b.subrange(pos, pos + vb.len())[i + 1] == vb[i + 1]);
            }
        }
        lemma_varint_round_trip(b, pos + 1, v / 128, k + 1);
    }
}

proof fn lemma_bytes_field_round_trip(b: Seq<u8>, pos: int, key: u8, d: Seq<u8>, tag: TagView)
    requires
        key == 0x0a || key == 0x12,
        d.len() < 0x1_0000_0000_0000_0000,
        0 <= pos,
        pos + bytes_field(key, d).len() <= b.len(),
        b.subrange(pos, pos + bytes_field(key, d).len()) == bytes_field(key, d),
    ensures
        field_at(b, pos, tag) == Some(
            (
                if key == 0x0a {
                    TagView { sql_digest: Some(d), ..tag }
                } else {
                    TagView { plan_digest: Some(d), ..tag }
                },
                pos + bytes_field(key, d).len(),
            ),
        ),
{
    let f = bytes_field(key, d);
    let lb = varint_bytes(d.len() as int);
    let whole = b.subrange(pos, pos + f.len());
    assert(b[pos] == whole[0]);
    assert(f[0] == key);
    assert(varint_at(b, pos, 0) == Some((key as int, pos + 1)));
    lemma_cap();
    assert(b.subrange(pos + 1, pos + 1 + lb.len()) =~= lb) by {
        assert forall|i: int| 0 <= i < lb.len() implies b.subrange(pos + 1, pos + 1 + lb.len())[i]
            == lb[i] by {
            assert(whole[i + 1] == f[i + 1]);
        }
    }
    lemma_varint_round_trip(b, pos + 1, d.len() as int, 0);
    let len_end = pos + 1 + lb.len();
    assert(b.subrange(len_end, len_end + d.len()) =~= d) by {
        assert forall|i: int| 0 <= i < d.len() implies b.subrange(len_end, len_end + d.len())[i] == d[i] by {
            assert(whole[1 + lb.len() + i] == f[1 + lb.len() + i]);
        }
    }
}

proof fn lemma_label_round_trip(b: Seq<u8>, pos: int, l: i32, tag: TagView)
    requires
        0 <= pos,
        pos + 1 + varint_bytes(label_number(l)).len() == b.len(),
        b.subrange(pos, b.len() as int) == seq![0x18u8] + varint_bytes(label_number(l)),
    ensures
        field_at(b, pos, tag) == Some((TagView { label: Some(l), ..tag }, b.len() as int)),
{
    let lb = varint_bytes(label_number(l));
    let whole = b.subrange(pos, b.len() as int);
    assert(b[pos] == whole[0]);
    assert(varint_at(b, pos, 0) == Some((0x18int, pos + 1)));
    lemma_cap();
    assert(b.subrange(pos + 1, pos + 1 + lb.len()) =~= lb) by {
        assert forall|i: int| 0 <= i < lb.len() implies b.subrange(pos + 1, pos + 1 + lb.len())[i]
            == lb[i] by {
            assert(whole[i + 1] == (seq![0x18u8] + lb)[i + 1]);
        }
    }
    lemma_varint_round_trip(b, pos + 1, label_number(l), 0);
    assert(label_of(label_number(l)) == l);
}

/// The field of the statement digest as it stands on the wire.
pub open spec fn sql_field(tag: TagView) -> Seq<u8> {
    match tag.sql_digest {
        Some(d) => bytes_field(0x0a, d),
        None => seq![],
    }
}

/// The field of the plan digest as it stands on the wire.
pub open spec fn plan_field(tag: TagView) -> Seq<u8> {
    match tag.plan_digest {
        Some(d) => bytes_field(0x12, d),
        None => seq![],
    }
}

/// The field of the label as it stands on the wire.
pub open spec fn label_field(tag: TagView) -> Seq<u8> {
    match tag.label {
        Some(l) => seq![0x18u8] + varint_bytes(label_number(l)),
        None => seq![],
    }
}

proof fn lemma_read_label(b: Seq<u8>, tag: TagView, len_end: int)
    requires
        b == sql_field(tag) + plan_field(tag) + label_field(tag),
        len_end == sql_field(tag).len() + plan_field(tag).len(),
    ensures
        fields_from(b, len_end, TagView { label: None, ..tag }) == Some(tag),
{
    let t2 = TagView { label: None, ..tag };
    match tag.label {
        Some(l) => {
            assert(b.subrange(len_end, b.len() as int) =~= label_field(tag));
            lemma_label_round_trip(b, len_end, l, t2);
            assert(field_at(b, len_end, t2) == Some((tag, b.len() as int)));
            assert(fields_from(b, b.len() as int, tag) == Some(tag));
            assert(len_end < b.len());
        },
        None => {
            assert(len_end == b.len());
            assert(t2 == tag);
        },
    }
}

proof fn lemma_read_plan(b: Seq<u8>, tag: TagView, key_end: int)
    requires
        tag.plan_digest matches Some(d) ==> d.len() < 0x1_0000_0000_0000_0000,
        b == sql_field(tag) + plan_field(tag) + label_field(tag),
        key_end == sql_field(tag).len(),
    ensures
        fields_from(b, key_end, TagView { plan_digest: None, label: None, ..tag }) == Some(tag),
{
    let t1 = TagView { plan_digest: None, label: None, ..tag };
    let t2 = TagView { label: None, ..tag };
    let len_end = key_end + plan_field(tag).len();
    lemma_read_label(b, tag, len_end);
    match tag.plan_digest {
        Some(d) => {
            assert(b.subrange(key_end, key_end + plan_field(tag).len()) =~= plan_field(tag));
            lemma_bytes_field_round_trip(b, key_end, 0x12, d, t1);
            assert(field_at(b, key_end, t1) == Some((t2, len_end)));
            assert(key_end < len_end <= b.len());
        },
        None => {
            assert(t1 == t2);
        },
    }
}

/// A tag that was written is read back.
pub proof fn lemma_decode_encode(tag: TagView)
    requires
        tag.sql_digest matches Some(d) ==> d.len() < 0x1_0000_0000_0000_0000,
        tag.plan_digest matches Some(d) ==> d.len() < 0x1_0000_0000_0000_0000,
    ensures
        spec_decode(spec_encode(tag)) == Some(tag),
{
    let b = spec_encode(tag);
    assert(b == sql_field(tag) + plan_field(tag) + label_field(tag));
    let t0 = empty_tag();
    let t1 = TagView { plan_digest: None, label: None, ..tag };
    let key_end = sql_field(tag).len() as int;
    lemma_read_plan(b, tag, key_end);
    match tag.sql_digest {
        Some(d) => {
            assert(b.subrange(0, key_end) =~= sql_field(tag));
            lemma_bytes_field_round_trip(b, 0, 0x0a, d, t0);
            assert(field_at(b, 0, t0) == Some((t1, key_end)));
            assert(0 < key_end <= b.len());
        },
        None => {
            assert(t0 == t1);
        },
    }
}

} // verus!
