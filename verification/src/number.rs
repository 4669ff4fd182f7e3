//! Decimal integer parsing with the grammar of `str::parse` for `u32` and
//! `i32`: an optional sign, then one or more ASCII digits, no whitespace.
use vstd::prelude::*;

verus! {

/// The byte is an ASCII decimal digit.
pub open spec fn is_digit(b: u8) -> bool {
    0x30u8 <= b && b <= 0x39u8
}

/// Every byte of `s` is an ASCII decimal digit.
pub open spec fn all_digits(s: Seq<u8>) -> bool {
    forall|i: int| 0 <= i < s.len() ==> #[trigger] is_digit(s[i])
}

/// The number that a string of decimal digits denotes.
pub open spec fn digits_value(s: Seq<u8>) -> nat
    decreases s.len(),
{
    if s.len() == 0 {
        0
    } else {
        digits_value(s.drop_last()) * 10 + (s.last() - 0x30u8) as nat
    }
}

/// `s` is a non-empty run of decimal digits whose value is at most `max`.
pub open spec fn digits_within(s: Seq<u8>, max: nat) -> bool {
    s.len() > 0 && all_digits(s) && digits_value(s) <= max
}

/// The digits that follow an optional leading `+`.
pub open spec fn unsigned_digits(s: Seq<u8>) -> Seq<u8> {
    if s.len() > 0 && s[0] == 0x2Bu8 {
        s.drop_first()
    } else {
        s
    }
}

/// What `str::parse::<u32>` gives for these bytes: `Some` exactly when they
/// are an optional `+` then one or more digits whose value fits in a `u32`.
pub open spec fn spec_parse_u32(s: Seq<u8>) -> Option<u32> {
    let d = unsigned_digits(s);
    if digits_within(d, u32::MAX as nat) {
        Some(digits_value(d) as u32)
    } else {
        None
    }
}

/// What `str::parse::<i32>` gives for these bytes: an optional `+` or `-`,
/// then one or more digits, the signed value within the range of `i32`.
pub open spec fn spec_parse_i32(s: Seq<u8>) -> Option<i32> {
    if s.len() > 0 && s[0] == 0x2Du8 {
        let d = s.drop_first();
        if digits_within(d, 0x8000_0000nat) {
            Some((0 - digits_value(d)) as i32)
        } else {
            None
        }
    } else {
        let d = unsigned_digits(s);
        if digits_within(d, i32::MAX as nat) {
            Some(digits_value(d) as i32)
        } else {
            None
        }
    }
}

/// Appending digits never makes the value smaller.
pub proof fn lemma_digits_value_prefix(s: Seq<u8>, k: int)
    requires
        0 <= k <= s.len(),
        all_digits(s),
    ensures
        digits_value(s.take(k)) <= digits_value(s),
    decreases s.len() - k,
{
    if k < s.len() {
        lemma_digits_value_prefix(s, k + 1);
        assert(s.take(k + 1).drop_last() =~= s.take(k));
        assert(is_digit(s[k]));
    } else {
        assert(s.take(k) =~= s);
    }
}

/// Value of the decimal digits `s[start..]`, when it is at most `max`;
/// `None` when a byte is not a digit, the run is empty or the value exceeds `max`.
fn parse_digits(s: &[u8], start: usize, max: u64) -> (r: Option<u64>)
    requires
        start <= s@.len(),
        max <= 0x1_0000_0000,
    ensures
        r == (if digits_within(s@.skip(start as int), max as nat) {
            Some(digits_value(s@.skip(start as int)) as u64)
        } else {
            None::<u64>
        }),
{
    let ghost d = s@.skip(start as int);
    let len = s.len();
    if start >= len {
        return None;
    }
    let mut acc: u64 = 0;
    let mut i: usize = start;
    while i < len
        invariant
            start <= i <= len,
            len == s@.len(),
            d == s@.skip(start as int),
            max <= 0x1_0000_0000,
            all_digits(d.take(i - start)),
            acc as nat == digits_value(d.take(i - start)),
            acc <= max,
        decreases len - i,
    {
        let b = s[i];
        if !(0x30u8 <= b && b <= 0x39u8) {
            assert(!is_digit(d[i - start]));
            return None;
        }
        let next = acc * 10 + (b - 0x30u8) as u64;
        proof {
            assert(d.take(i - start + 1).drop_last() =~= d.take(i - start));
            assert(d.take(i - start + 1).last() == b);
            assert(all_digits(d.take(i - start + 1)));
        }
        if next > max {
            proof {
                if all_digits(d) {
                    lemma_digits_value_prefix(d, i - start + 1);
                }
            }
            return None;
        }
        acc = next;
        i += 1;
    }
    assert(d.take(i - start) =~= d);
    Some(acc)
}

/// Whether every byte is an ASCII decimal digit.
pub fn all_ascii_digits(s: &[u8]) -> (r: bool)
    ensures
        r == all_digits(s@),
{
    let mut i: usize = 0;
    while i < s.len()
        invariant
            0 <= i <= s@.len(),
            forall|j: int| 0 <= j < i ==> #[trigger] is_digit(s@[j]),
        decreases s@.len() - i,
    {
        if !(0x30u8 <= s[i] && s[i] <= 0x39u8) {
            assert(!is_digit(s@[i as int]));
            return false;
        }
        i += 1;
    }
    true
}

/// Parses an unsigned 32-bit decimal number with an optional `+`.
pub fn parse_ascii_u32(s: &[u8]) -> (r: Option<u32>)
    ensures
        r == spec_parse_u32(s@),
{
    let start: usize = if s.len() > 0 && s[0] == 0x2Bu8 { 1 } else { 0 };
    assert(s@.skip(start as int) =~= unsigned_digits(s@));
    match parse_digits(s, start, 0xFFFF_FFFF) {
        Some(v) => Some(v as u32),
        None => None,
    }
}

/// Parses a signed 32-bit decimal number with an optional `+` or `-`.
pub fn parse_ascii_i32(s: &[u8]) -> (r: Option<i32>)
    ensures
        r == spec_parse_i32(s@),
{
    if s.len() > 0 && s[0] == 0x2Du8 {
        assert(s@.skip(1) =~= s@.drop_first());
        match parse_digits(s, 1, 0x8000_0000) {
            Some(v) => {
                let neg: i64 = 0 - (v as i64);
                Some(neg as i32)
            },
            None => None,
        }
    } else {
        let start: usize = if s.len() > 0 && s[0] == 0x2Bu8 { 1 } else { 0 };
        assert(s@.skip(start as int) =~= unsigned_digits(s@));
        match parse_digits(s, start, 0x7FFF_FFFF) {
            Some(v) => Some(v as i32),
            None => None,
        }
    }
}

} // verus!
