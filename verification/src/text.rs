//! Small tools for the texts of headers: where a pattern stands in a byte
//! string, and the number that decimal digits tell.

use vstd::prelude::*;

verus! {

/// `needle` stands in `haystack` at position `i`.
pub open spec fn occurs_at(haystack: Seq<u8>, needle: Seq<u8>, i: int) -> bool {
    0 <= i && i + needle.len() <= haystack.len() && haystack.subrange(i, i + needle.len())
        == needle
}

/// The first position at which `needle` stands in `haystack`.
#[verifier::opaque]
pub open spec fn first_occurrence(haystack: Seq<u8>, needle: Seq<u8>) -> Option<int> {
    if exists|i: int| occurs_at(haystack, needle, i) {
        Some(
            choose|i: int|
                occurs_at(haystack, needle, i) && forall|j: int|
                    0 <= j < i ==> !occurs_at(haystack, needle, j),
        )
    } else {
        None
    }
}

/// A position at which the pattern stands, and before which it does not, is
/// the first.
pub proof fn lemma_first_occurrence(haystack: Seq<u8>, needle: Seq<u8>, i: int)
    requires
        occurs_at(haystack, needle, i),
        forall|j: int| 0 <= j < i ==> !occurs_at(haystack, needle, j),
    ensures
        first_occurrence(haystack, needle) == Some(i),
{
    reveal(first_occurrence);
    let c = choose|c: int|
        occurs_at(haystack, needle, c) && forall|j: int|
            0 <= j < c ==> !occurs_at(haystack, needle, j);
    if c < i {
        assert(!occurs_at(haystack, needle, c));
    }
    if i < c {
        assert(!occurs_at(haystack, needle, i));
    }
}

/// Where the pattern stands nowhere, there is no first position.
pub proof fn lemma_no_occurrence(haystack: Seq<u8>, needle: Seq<u8>)
    requires
        forall|j: int| !occurs_at(haystack, needle, j),
    ensures
        first_occurrence(haystack, needle) is None,
{
    reveal(first_occurrence);
}

/// The first position at which `needle` stands in `haystack`.
pub fn find_bytes(haystack: &[u8], needle: &[u8]) -> (found: Option<usize>)
    ensures
        match found {
            Some(i) => first_occurrence(haystack@, needle@) == Some(i as int) && i + needle@.len()
                <= haystack@.len(),
            None => first_occurrence(haystack@, needle@) is None,
        },
{
    let n = haystack.len();
    let m = needle.len();
    if m > n {
        proof {
            lemma_no_occurrence(haystack@, needle@);
        }
        return None;
    }
    let mut i: usize = 0;
    while i <= n - m
        invariant
            n == haystack@.len(),
            m == needle@.len(),
            m <= n,
            i <= n - m + 1,
            forall|j: int| 0 <= j < i ==> !occurs_at(haystack@, needle@, j),
        decreases n - m + 1 - i,
    {
        let mut k: usize = 0;
        while k < m && haystack[i + k] == needle[k]
            invariant
                n == haystack@.len(),
                m == needle@.len(),
                i + m <= n,
                k <= m,
                forall|l: int| 0 <= l < k ==> haystack@[i + l] == needle@[l],
            decreases m - k,
        {
            k = k + 1;
        }
        if k == m {
            proof {
                assert(haystack@.subrange(i as int, i + m) =~= needle@);
                lemma_first_occurrence(haystack@, needle@, i as int);
            }
            return Some(i);
        }
        proof {
            assert(!occurs_at(haystack@, needle@, i as int)) by {
                if occurs_at(haystack@, needle@, i as int) {
                    assert(haystack@.subrange(i as int, i + m)[k as int] == needle@[k as int]);
                }
            }
        }
        i = i + 1;
    }
    proof {
        assert forall|j: int| !occurs_at(haystack@, needle@, j) by {
            if occurs_at(haystack@, needle@, j) {
                assert(0 <= j < i);
            }
        }
        lemma_no_occurrence(haystack@, needle@);
    }
    None
}

/// Every byte is a decimal digit.
pub open spec fn all_digits(text: Seq<u8>) -> bool {
    forall|i: int| 0 <= i < text.len() ==> 0x30 <= #[trigger] text[i] <= 0x39
}

/// The number that decimal digits tell.
pub open spec fn digits_value(text: Seq<u8>) -> nat
    decreases text.len(),
{
    if text.len() == 0 {
        0
    } else {
        digits_value(text.drop_last()) * 10 + (text.last() - 0x30) as nat
    }
}

/// The digits of a number text: the text without a leading plus sign.
pub open spec fn unsigned_part(text: Seq<u8>) -> Seq<u8> {
    if text.len() > 0 && text[0] == 0x2b {
        text.skip(1)
    } else {
        text
    }
}

/// The number that a text tells: decimal digits, at least one, behind at
/// most one plus sign, with a value that fits `usize`.
pub open spec fn number_of(text: Seq<u8>) -> Option<usize> {
    let digits = unsigned_part(text);
    if digits.len() > 0 && all_digits(digits) && digits_value(digits) <= usize::MAX {
        Some(digits_value(digits) as usize)
    } else {
        None
    }
}

proof fn lemma_digits_value_grows(text: Seq<u8>, k: int)
    requires
        0 <= k <= text.len(),
        all_digits(text),
    ensures
        digits_value(text.take(k)) <= digits_value(text),
    decreases text.len() - k,
{
    if k < text.len() {
        assert(text.take(k + 1).drop_last() == text.take(k));
        assert(0x30 <= text[k] <= 0x39);
        lemma_digits_value_grows(text, k + 1);
    } else {
        assert(text.take(k) == text);
    }
}

/// Reads a number as `str::parse::<usize>` does.
pub fn parse_number(text: &[u8]) -> (r: Option<usize>)
    ensures
        r == number_of(text@),
{
    let n = text.len();
    let start: usize = if n > 0 && text[0] == 0x2b {
        1
    } else {
        0
    };
    let ghost digits = unsigned_part(text@);
    proof {
        assert(digits =~= text@.skip(start as int));
    }
    if start == n {
        return None;
    }
    let mut value: usize = 0;
    let mut i: usize = start;
    while i < n
        invariant
            n == text@.len(),
            start <= i <= n,
            digits == text@.skip(start as int),
            digits == unsigned_part(text@),
            digits.len() > 0,
            all_digits(digits.take(i - start)),
            value == digits_value(digits.take(i - start)),
        decreases n - i,
    {
        let b = text[i];
        proof {
            assert(digits[i - start] == b);
            assert(digits.take(i - start + 1).drop_last() == digits.take(i - start));
        }
        if b < 0x30 || b > 0x39 {
            proof {
                if all_digits(digits) {
                    assert(0x30 <= digits[i - start] <= 0x39);
                }
            }
            return None;
        }
        let d = (b - 0x30) as usize;
        if value > (usize::MAX - d) / 10 {
            proof {
                if all_digits(digits) {
                    lemma_digits_value_grows(digits, i - start + 1);
                    assert(digits.take(i - start + 1).last() == b);
                    assert(digits_value(digits.take(i - start + 1)) == value * 10 + d);
                }
            }
            return None;
        }
        value = value * 10 + d;
        proof {
            assert(digits.take(i - start + 1).last() == b);
            assert forall|j: int| 0 <= j < i - start + 1 implies 0x30 <= #[trigger] digits.take(
                i - start + 1,
            )[j] <= 0x39 by {
                if j < i - start {
                    assert(digits.take(i - start)[j] == digits[j]);
                }
            }
        }
        i = i + 1;
    }
    proof {
        assert(digits.take(i - start) == digits);
    }
    Some(value)
}

/// Every byte is a visible ASCII character or a tab: the bytes can be read
/// as the text of a header.
pub open spec fn is_header_text(value: Seq<u8>) -> bool {
    forall|i: int|
        0 <= i < value.len() ==> (32 <= #[trigger] value[i] < 127 || value[i] == 9)
}

/// Whether the bytes can be read as the text of a header.
pub fn check_header_text(value: &[u8]) -> (r: bool)
    ensures
        r == is_header_text(value@),
{
    let mut i: usize = 0;
    while i < value.len()
        invariant
            i <= value@.len(),
            forall|j: int| 0 <= j < i ==> (32 <= #[trigger] value@[j] < 127 || value@[j] == 9),
        decreases value@.len() - i,
    {
        let b = value[i];
        if !((32 <= b && b < 127) || b == 9) {
            return false;
        }
        i = i + 1;
    }
    true
}

/// The bytes of a text.
pub open spec fn text_bytes(text: Seq<char>) -> Seq<u8> {
    vstd::utf8::encode_utf8(text)
}

/// Whether two byte strings are the same.
pub fn same_bytes(a: &[u8], b: &[u8]) -> (r: bool)
    ensures
        r == (a@ == b@),
{
    if a.len() != b.len() {
        return false;
    }
    let mut i: usize = 0;
    while i < a.len()
        invariant
            i <= a@.len(),
            a@.len() == b@.len(),
            forall|j: int| 0 <= j < i ==> a@[j] == b@[j],
        decreases a@.len() - i,
    {
        if a[i] != b[i] {
            return false;
        }
        i = i + 1;
    }
    assert(a@ =~= b@);
    true
}

/// A copy of the bytes between two positions.
pub fn copy_range(bytes: &[u8], from: usize, to: usize) -> (copy: Vec<u8>)
    requires
        from <= to <= bytes@.len(),
    ensures
        copy@ == bytes@.subrange(from as int, to as int),
{
    let mut copy: Vec<u8> = Vec::new();
    let mut i: usize = from;
    while i < to
        invariant
            from <= i <= to,
            to <= bytes@.len(),
            copy@ == bytes@.subrange(from as int, i as int),
        decreases to - i,
    {
        copy.push(bytes[i]);
        assert(copy@ =~= bytes@.subrange(from as int, i + 1));
        i = i + 1;
    }
    copy
}

} // verus!
