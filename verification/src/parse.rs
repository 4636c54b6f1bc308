//! Parsing of paired render parameters, such as `1000x750`.
//!
//! A pair is two decimal numbers split by a single one-byte separator;
//! the first occurrence of the separator splits the text.

use vstd::prelude::*;
use vstd::string::StringSliceAdditionalSpecFns;

verus! {

/// The byte is an ASCII decimal digit.
pub open spec fn is_digit(b: u8) -> bool {
    48 <= b <= 57
}

/// The bytes are a nonempty run of decimal digits.
pub open spec fn is_dec(s: Seq<u8>) -> bool {
    s.len() >= 1 && forall|i: int| 0 <= i < s.len() ==> is_digit(#[trigger] s[i])
}

/// The number the digit run denotes, most significant digit first.
pub open spec fn dec_val(s: Seq<u8>) -> int
    decreases s.len(),
{
    if s.len() == 0 {
        0
    } else {
        dec_val(s.drop_last()) * 10 + (s.last() - 48)
    }
}

/// Index `i` is the first occurrence of `sep`.
pub open spec fn sep_found(s: Seq<u8>, sep: u8, i: int) -> bool {
    0 <= i < s.len() && s[i] == sep && forall|j: int| 0 <= j < i ==> #[trigger] s[j] != sep
}

/// A digit run denotes a number that is not negative.
proof fn lemma_dec_val_nonneg(s: Seq<u8>)
    requires
        forall|i: int| 0 <= i < s.len() ==> is_digit(#[trigger] s[i]),
    ensures
        dec_val(s) >= 0,
    decreases s.len(),
{
    if s.len() > 0 {
        lemma_dec_val_nonneg(s.drop_last());
    }
}

/// Dropping trailing digits never increases the denoted number.
proof fn lemma_dec_val_prefix(s: Seq<u8>, k: int)
    requires
        0 <= k <= s.len(),
        forall|i: int| 0 <= i < s.len() ==> is_digit(#[trigger] s[i]),
    ensures
        dec_val(s.take(k)) <= dec_val(s),
    decreases s.len(),
{
    if k < s.len() && s.len() > 0 {
        assert(s.drop_last().take(k) =~= s.take(k));
        lemma_dec_val_prefix(s.drop_last(), k);
        lemma_dec_val_nonneg(s.drop_last());
    } else {
        assert(s.take(k) =~= s);
    }
}

/// Parses `bytes[start..end]` as a decimal number that fits the machine
/// word: `Some` exactly when the range is all digits, nonempty, and its
/// value is representable.
fn parse_usize(bytes: &[u8], start: usize, end: usize) -> (r: Option<usize>)
    requires
        start <= end <= bytes@.len(),
    ensures
        match r {
            Some(v) => is_dec(bytes@.subrange(start as int, end as int)) && dec_val(
                bytes@.subrange(start as int, end as int),
            ) == v,
            None => !(is_dec(bytes@.subrange(start as int, end as int)) && dec_val(
                bytes@.subrange(start as int, end as int),
            ) <= usize::MAX),
        },
{
    let ghost seg = bytes@.subrange(start as int, end as int);
    if start == end {
        return None;
    }
    let mut acc: usize = 0;
    let mut idx: usize = start;
    while idx < end
        invariant
            start <= idx <= end <= bytes@.len(),
            seg == bytes@.subrange(start as int, end as int),
            forall|j: int| start <= j < idx ==> is_digit(#[trigger] bytes@[j]),
            acc == dec_val(bytes@.subrange(start as int, idx as int)),
        decreases end - idx,
    {
        let b = bytes[idx];
        if b < 48 || b > 57 {
            proof {
                assert(seg[idx - start] == bytes@[idx as int]);
            }
            return None;
        }
        let d: usize = (b - 48) as usize;
        let ghost longer = bytes@.subrange(start as int, idx + 1);
        proof {
            assert(longer.drop_last() =~= bytes@.subrange(start as int, idx as int));
            assert(longer.last() == bytes@[idx as int]);
            assert(dec_val(longer) == acc * 10 + d);
        }
        if acc > (usize::MAX - d) / 10 {
            proof {
                if is_dec(seg) && dec_val(seg) <= usize::MAX {
                    assert(forall|i: int|
                        0 <= i < seg.len() ==> is_digit(#[trigger] seg[i]));
                    assert(forall|i: int|
                        start <= i < end ==> is_digit(#[trigger] bytes@[i])) by {
                        assert(forall|i: int|
                            start <= i < end ==> bytes@[i] == seg[i - start]);
                    }
                    lemma_dec_val_prefix(seg, idx + 1 - start);
                    assert(seg.take(idx + 1 - start) =~= longer);
                    assert(acc * 10 + d > usize::MAX);
                }
            }
            return None;
        }
        acc = acc * 10 + d;
        idx = idx + 1;
    }
    proof {
        assert(seg =~= bytes@.subrange(start as int, idx as int));
        assert(forall|i: int| 0 <= i < seg.len() ==> is_digit(#[trigger] seg[i])) by {
            assert(forall|i: int| 0 <= i < seg.len() ==> seg[i] == bytes@[i + start]);
        }
    }
    Some(acc)
}

/// Splits `s` at the first occurrence of `separator` and parses both
/// sides as decimal numbers. Returns the pair exactly when the separator
/// occurs and both sides are nonempty digit runs whose values fit the
/// machine word; otherwise nothing.
pub fn parse_pair(s: &str, separator: u8) -> (r: Option<(usize, usize)>)
    ensures
        match r {
            Some(p) => exists|i: int|
                #[trigger] sep_found(s.spec_bytes(), separator, i) && is_dec(
                    s.spec_bytes().subrange(0, i),
                ) && dec_val(s.spec_bytes().subrange(0, i)) == p.0 && is_dec(
                    s.spec_bytes().subrange(i + 1, s.spec_bytes().len() as int),
                ) && dec_val(s.spec_bytes().subrange(i + 1, s.spec_bytes().len() as int)) == p.1,
            None => forall|i: int|
                #[trigger] sep_found(s.spec_bytes(), separator, i) ==> !(is_dec(
                    s.spec_bytes().subrange(0, i),
                ) && dec_val(s.spec_bytes().subrange(0, i)) <= usize::MAX && is_dec(
                    s.spec_bytes().subrange(i + 1, s.spec_bytes().len() as int),
                ) && dec_val(s.spec_bytes().subrange(i + 1, s.spec_bytes().len() as int))
                    <= usize::MAX),
        },
{
    let bytes = s.as_bytes();
    let n = bytes.len();
    let mut idx: usize = 0;
    while idx < n
        invariant
            n == bytes@.len(),
            bytes@ == s.spec_bytes(),
            idx <= n,
            forall|j: int| 0 <= j < idx ==> #[trigger] bytes@[j] != separator,
        decreases n - idx,
    {
        if bytes[idx] == separator {
            proof {
                assert(sep_found(bytes@, separator, idx as int));
            }
            let left = parse_usize(bytes, 0, idx);
            let right = parse_usize(bytes, idx + 1, n);
            proof {
                assert(forall|i: int|
                    sep_found(bytes@, separator, i) ==> i == idx as int) by {
                    assert(forall|i: int|
                        #[trigger] sep_found(bytes@, separator, i) && i < idx ==> bytes@[i]
                            != separator);
                    assert(forall|i: int|
                        sep_found(bytes@, separator, i) && i > idx ==> #[trigger] bytes@[
                            idx as int] != separator);
                }
            }
            match (left, right) {
                (Some(l), Some(rr)) => {
                    return Some((l, rr));
                },
                _ => {
                    return None;
                },
            }
        }
        idx = idx + 1;
    }
    None
}

} // verus!
