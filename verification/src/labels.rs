//! Label (username) format validators.
//!
//! A "person" label is a non-empty run of lowercase ASCII letters. A
//! "lite person" label has the shape `<dns-stem>.<digits>` where the stem is a
//! DNS label (`[a-z0-9-]`, not starting or ending with `-`) and at least
//! [`MIN_LITE_USERNAME_DIGITS`] ASCII digits follow the single `.`.
use vstd::prelude::*;

verus! {

/// Minimum number of trailing digits required in a lite-person label suffix
/// (the part after the `.`).
pub const MIN_LITE_USERNAME_DIGITS: usize = 2;

/// `b` is an ASCII lowercase letter.
pub open spec fn is_lower_byte(b: u8) -> bool {
    97 <= b <= 122
}

/// `b` is an ASCII digit.
pub open spec fn is_digit_byte(b: u8) -> bool {
    48 <= b <= 57
}

/// `b` may appear in a DNS label: `[a-z0-9-]`.
pub open spec fn is_dns_byte(b: u8) -> bool {
    is_lower_byte(b) || is_digit_byte(b) || b == 45
}

/// Non-empty and made of lowercase ASCII letters only.
pub open spec fn spec_is_person_label(s: Seq<u8>) -> bool {
    s.len() > 0 && forall|i: int| 0 <= i < s.len() ==> is_lower_byte(#[trigger] s[i])
}

/// A DNS label: non-empty, `[a-z0-9-]` only, no leading or trailing hyphen.
pub open spec fn spec_is_dns_label(s: Seq<u8>) -> bool {
    &&& s.len() > 0
    &&& s[0] != 45u8
    &&& s[s.len() - 1] != 45u8
    &&& forall|i: int| 0 <= i < s.len() ==> is_dns_byte(#[trigger] s[i])
}

/// `s` splits at its only `.` (at index `d`) into a DNS-label stem and a
/// suffix of at least `MIN_LITE_USERNAME_DIGITS` ASCII digits.
pub open spec fn lite_split_at(s: Seq<u8>, d: int) -> bool {
    &&& 0 <= d < s.len()
    &&& s[d] == 46u8
    &&& forall|i: int| 0 <= i < s.len() && i != d ==> #[trigger] s[i] != 46u8
    &&& spec_is_dns_label(s.subrange(0, d))
    &&& s.len() - (d + 1) >= MIN_LITE_USERNAME_DIGITS
    &&& forall|i: int| d < i < s.len() ==> is_digit_byte(#[trigger] s[i])
}

/// The lite-person label format `<dns-stem>.<digits>`.
pub open spec fn spec_is_lite_person_label(s: Seq<u8>) -> bool {
    exists|d: int| lite_split_at(s, d)
}

/// Returns whether `bytes` is a "person" label: non-empty and only lowercase
/// ASCII letters `[a-z]`.
pub fn is_person_label(bytes: &[u8]) -> (r: bool)
    ensures
        r == spec_is_person_label(bytes@),
{
    if bytes.len() == 0 {
        return false;
    }
    let mut i: usize = 0;
    while i < bytes.len()
        invariant
            i <= bytes@.len(),
            forall|j: int| 0 <= j < i ==> is_lower_byte(#[trigger] bytes@[j]),
        decreases bytes@.len() - i,
    {
        let b = bytes[i];
        if !(b >= 97 && b <= 122) {
            return false;
        }
        i += 1;
    }
    true
}

/// Returns whether `bytes[start..end]` is a DNS label: non-empty, only
/// `[a-z0-9-]`, and neither starting nor ending with a hyphen.
pub fn is_dns_label_range(bytes: &[u8], start: usize, end: usize) -> (r: bool)
    requires
        end <= start || end <= bytes@.len(),
    ensures
        end <= start ==> !r,
        start < end ==> r == spec_is_dns_label(bytes@.subrange(start as int, end as int)),
{
    if end <= start {
        return false;
    }
    let ghost s = bytes@.subrange(start as int, end as int);
    if bytes[start] == 45 || bytes[end - 1] == 45 {
        assert(s[0] == bytes@[start as int]);
        assert(s[s.len() - 1] == bytes@[end - 1]);
        return false;
    }
    let mut i: usize = start;
    while i < end
        invariant
            start <= i <= end,
            end <= bytes@.len(),
            s == bytes@.subrange(start as int, end as int),
            forall|j: int| 0 <= j < i - start ==> is_dns_byte(#[trigger] s[j]),
        decreases end - i,
    {
        let b = bytes[i];
        if !((b >= 97 && b <= 122) || (b >= 48 && b <= 57) || b == 45) {
            assert(s[i - start] == b);
            return false;
        }
        assert(s[i - start] == b);
        i += 1;
    }
    true
}

/// Returns whether `bytes` has the lite-person label format
/// `<dns-stem>.<digits{MIN_LITE_USERNAME_DIGITS,}>` (e.g. `alice.42`): exactly
/// one `.`, a DNS-valid stem before it, and at least two ASCII digits after.
pub fn is_lite_person_label(bytes: &[u8]) -> (r: bool)
    ensures
        r == spec_is_lite_person_label(bytes@),
{
    let length = bytes.len();
    if length < MIN_LITE_USERNAME_DIGITS + 2 {
        proof {
            if spec_is_lite_person_label(bytes@) {
                let d = choose|d: int| lite_split_at(bytes@, d);
                assert(bytes@.subrange(0, d).len() > 0);
            }
        }
        return false;
    }
    // Find the single `.` separator; reject inputs with more than one.
    let mut dot_index: usize = length;
    let mut i: usize = 0;
    while i < length
        invariant
            length == bytes@.len(),
            i <= length,
            dot_index == length || (dot_index < i && bytes@[dot_index as int] == 46u8),
            forall|j: int| 0 <= j < i && j != dot_index ==> #[trigger] bytes@[j] != 46u8,
        decreases length - i,
    {
        if bytes[i] == 46 {
            if dot_index != length {
                proof {
                    if spec_is_lite_person_label(bytes@) {
                        let d = choose|d: int| lite_split_at(bytes@, d);
                        assert(bytes@[i as int] == 46u8);
                    }
                }
                return false;
            }
            dot_index = i;
        }
        i += 1;
    }
    if dot_index == length {
        proof {
            if spec_is_lite_person_label(bytes@) {
                let d = choose|d: int| lite_split_at(bytes@, d);
                assert(bytes@[d] == 46u8);
            }
        }
        return false;
    }
    // Any witness split must be at `dot_index`, the only dot.
    assert forall|d: int| lite_split_at(bytes@, d) implies d == dot_index by {
        if d != dot_index {
            assert(bytes@[d] == 46u8);
        }
    }
    if !is_dns_label_range(bytes, 0, dot_index) {
        proof {
            if spec_is_lite_person_label(bytes@) {
                let d = choose|d: int| lite_split_at(bytes@, d);
                assert(d == dot_index);
            }
        }
        return false;
    }
    let suffix_start = dot_index + 1;
    if length - suffix_start < MIN_LITE_USERNAME_DIGITS {
        proof {
            if spec_is_lite_person_label(bytes@) {
                let d = choose|d: int| lite_split_at(bytes@, d);
                assert(d == dot_index);
            }
        }
        return false;
    }
    let mut k: usize = suffix_start;
    while k < length
        invariant
            length == bytes@.len(),
            suffix_start <= k <= length,
            suffix_start == dot_index + 1,
            dot_index < length,
            forall|d: int| lite_split_at(bytes@, d) ==> d == dot_index,
            forall|j: int| suffix_start <= j < k ==> is_digit_byte(#[trigger] bytes@[j]),
        decreases length - k,
    {
        let b = bytes[k];
        if !(b >= 48 && b <= 57) {
            proof {
                if spec_is_lite_person_label(bytes@) {
                    let d = choose|d: int| lite_split_at(bytes@, d);
                    assert(d == dot_index);
                    assert(is_digit_byte(bytes@[k as int]));
                }
            }
            return false;
        }
        k += 1;
    }
    assert(lite_split_at(bytes@, dot_index as int));
    true
}

} // verus!
