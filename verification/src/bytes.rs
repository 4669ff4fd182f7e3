//! Byte-level helpers: ASCII case folding, whitespace trimming, line-ending
//! and byte-order-mark handling.
use vstd::prelude::*;
use vstd::slice::slice_subrange;

verus! {

/// ASCII whitespace as `u8::is_ascii_whitespace` defines it:
/// space, tab, line feed, form feed and carriage return.
pub open spec fn is_ascii_ws(b: u8) -> bool {
    b == 0x20u8 || b == 0x09u8 || b == 0x0Au8 || b == 0x0Cu8 || b == 0x0Du8
}

/// ASCII lower-casing of a single byte; non-letters are unchanged.
pub open spec fn ascii_lower(b: u8) -> u8 {
    if 0x41u8 <= b && b <= 0x5Au8 {
        (b + 0x20u8) as u8
    } else {
        b
    }
}

/// The two byte strings are equal up to ASCII case.
pub open spec fn eq_ignore_case(a: Seq<u8>, b: Seq<u8>) -> bool {
    &&& a.len() == b.len()
    &&& forall|i: int| 0 <= i < a.len() ==> #[trigger] ascii_lower(a[i]) == ascii_lower(b[i])
}

/// `s` with its leading ASCII whitespace removed.
pub open spec fn trim_start(s: Seq<u8>) -> Seq<u8>
    decreases s.len(),
{
    if s.len() > 0 && is_ascii_ws(s[0]) {
        trim_start(s.drop_first())
    } else {
        s
    }
}

/// `s` with its trailing ASCII whitespace removed.
pub open spec fn trim_end(s: Seq<u8>) -> Seq<u8>
    decreases s.len(),
{
    if s.len() > 0 && is_ascii_ws(s.last()) {
        trim_end(s.drop_last())
    } else {
        s
    }
}

/// `s` with leading and trailing ASCII whitespace removed.
pub open spec fn trim(s: Seq<u8>) -> Seq<u8> {
    trim_end(trim_start(s))
}

/// A line with one trailing carriage return removed, if it has one.
pub open spec fn trim_cr(s: Seq<u8>) -> Seq<u8> {
    if s.len() > 0 && s.last() == 0x0Du8 {
        s.drop_last()
    } else {
        s
    }
}

/// The UTF-8 byte order mark.
pub open spec fn utf8_bom() -> Seq<u8> {
    seq![0xEFu8, 0xBBu8, 0xBFu8]
}

/// `s` without a leading UTF-8 byte order mark, if it has one.
pub open spec fn strip_bom(s: Seq<u8>) -> Seq<u8> {
    if s.len() >= 3 && s.take(3) == utf8_bom() {
        s.skip(3)
    } else {
        s
    }
}

/// Exec form of `is_ascii_ws`.
pub fn is_ascii_whitespace(b: u8) -> (r: bool)
    ensures
        r == is_ascii_ws(b),
{
    b == 0x20u8 || b == 0x09u8 || b == 0x0Au8 || b == 0x0Cu8 || b == 0x0Du8
}

/// Exec form of `ascii_lower`.
pub fn to_ascii_lower(b: u8) -> (r: u8)
    ensures
        r == ascii_lower(b),
{
    if 0x41u8 <= b && b <= 0x5Au8 {
        b + 0x20u8
    } else {
        b
    }
}

/// Compares two byte strings, ignoring ASCII case.
pub fn eq_ignore_ascii_case(a: &[u8], b: &[u8]) -> (r: bool)
    ensures
        r == eq_ignore_case(a@, b@),
{
    if a.len() != b.len() {
        return false;
    }
    let mut i: usize = 0;
    while i < a.len()
        invariant
            0 <= i <= a@.len(),
            a@.len() == b@.len(),
            forall|j: int| 0 <= j < i ==> #[trigger] ascii_lower(a@[j]) == ascii_lower(b@[j]),
        decreases a@.len() - i,
    {
        if to_ascii_lower(a[i]) != to_ascii_lower(b[i]) {
            assert(ascii_lower(a@[i as int]) != ascii_lower(b@[i as int]));
            return false;
        }
        i += 1;
    }
    true
}

/// Removing leading whitespace from a suffix that starts at a whitespace byte
/// is the same as removing it from the next suffix.
proof fn lemma_trim_start_step(s: Seq<u8>, i: int)
    requires
        0 <= i < s.len(),
        is_ascii_ws(s[i]),
    ensures
        trim_start(s.subrange(i, s.len() as int)) == trim_start(s.subrange(i + 1, s.len() as int)),
{
    assert(s.subrange(i, s.len() as int).drop_first() =~= s.subrange(i + 1, s.len() as int));
}

/// Removing trailing whitespace from a prefix that ends in a whitespace byte
/// is the same as removing it from the shorter prefix.
proof fn lemma_trim_end_step(s: Seq<u8>, i: int, j: int)
    requires
        0 <= i < j <= s.len(),
        is_ascii_ws(s[j - 1]),
    ensures
        trim_end(s.subrange(i, j)) == trim_end(s.subrange(i, j - 1)),
{
    assert(s.subrange(i, j).drop_last() =~= s.subrange(i, j - 1));
}

/// Trims leading and trailing ASCII whitespace.
pub fn trim_ascii(bytes: &[u8]) -> (r: &[u8])
    ensures
        r@ == trim(bytes@),
{
    let len = bytes.len();
    let mut start: usize = 0;
    assert(bytes@.subrange(0, len as int) =~= bytes@);
    while start < len && is_ascii_whitespace(bytes[start])
        invariant
            len == bytes@.len(),
            0 <= start <= len,
            trim_start(bytes@) == trim_start(bytes@.subrange(start as int, len as int)),
        decreases len - start,
    {
        proof {
            lemma_trim_start_step(bytes@, start as int);
        }
        start += 1;
    }
    assert(trim_start(bytes@) == bytes@.subrange(start as int, len as int));
    let mut end: usize = len;
    while end > start && is_ascii_whitespace(bytes[end - 1])
        invariant
            len == bytes@.len(),
            0 <= start <= end <= len,
            trim(bytes@) == trim_end(bytes@.subrange(start as int, end as int)),
        decreases end,
    {
        proof {
            lemma_trim_end_step(bytes@, start as int, end as int);
        }
        end -= 1;
    }
    slice_subrange(bytes, start, end)
}

/// Removes one trailing carriage return.
pub fn trim_line_right(bytes: &[u8]) -> (r: &[u8])
    ensures
        r@ == trim_cr(bytes@),
{
    let len = bytes.len();
    if len > 0 && bytes[len - 1] == 0x0Du8 {
        let r = slice_subrange(bytes, 0, len - 1);
        assert(r@ =~= bytes@.drop_last());
        r
    } else {
        bytes
    }
}

/// Removes a leading UTF-8 byte order mark.
pub fn strip_utf8_bom(bytes: &[u8]) -> (r: &[u8])
    ensures
        r@ == strip_bom(bytes@),
{
    let len = bytes.len();
    if len >= 3 && bytes[0] == 0xEFu8 && bytes[1] == 0xBBu8 && bytes[2] == 0xBFu8 {
        assert(bytes@.take(3) =~= utf8_bom());
        slice_subrange(bytes, 3, len)
    } else {
        proof {
            if len >= 3 && bytes@.take(3) == utf8_bom() {
                assert(bytes@.take(3)[0] == bytes@[0]);
                assert(bytes@.take(3)[1] == bytes@[1]);
                assert(bytes@.take(3)[2] == bytes@[2]);
            }
        }
        bytes
    }
}

} // verus!
