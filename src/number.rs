//! Decimal integers and fixed-point decimals written in ASCII, as log lines
//! carry them.
use vstd::prelude::*;
use crate::scan::{in_class, ByteClass, byte_in_class};

verus! {

/// The value of a run of ASCII digits, most significant first.
pub open spec fn digits_value(s: Seq<u8>) -> int
    decreases s.len(),
{
    if s.len() == 0 {
        0
    } else {
        digits_value(s.drop_last()) * 10 + (s.last() - 0x30)
    }
}

/// `s` is non-empty and made of ASCII digits only.
pub open spec fn is_digit_text(s: Seq<u8>) -> bool {
    s.len() > 0 && forall|i: int| 0 <= i < s.len() ==> #[trigger] in_class(s[i], ByteClass::Digit)
}

/// The integer that `s` writes, with an optional leading `+` or `-`, if it
/// fits in an `i64`: the text that `str::parse::<i64>` accepts.
pub open spec fn int_of_text(s: Seq<u8>) -> Option<i64> {
    let signed = s.len() > 0 && (s[0] == 0x2b || s[0] == 0x2d);
    let body = if signed { s.drop_first() } else { s };
    let v = if signed && s[0] == 0x2d { -digits_value(body) } else { digits_value(body) };
    if is_digit_text(body) && i64::MIN <= v <= i64::MAX {
        Some(v as i64)
    } else {
        None
    }
}

/// One above the largest magnitude that an `i64` can hold (that of `i64::MIN`).
pub const MAGNITUDE_CAP: u64 = 9223372036854775809;

pub proof fn lemma_digits_value_nonneg(s: Seq<u8>)
    requires
        forall|i: int| 0 <= i < s.len() ==> #[trigger] in_class(s[i], ByteClass::Digit),
    ensures
        digits_value(s) >= 0,
    decreases s.len(),
{
    if s.len() > 0 {
        assert(in_class(s[s.len() - 1], ByteClass::Digit));
        assert forall|i: int| 0 <= i < s.drop_last().len() implies #[trigger] in_class(s.drop_last()[i], ByteClass::Digit) by {
            assert(s.drop_last()[i] == s[i]);
        }
        lemma_digits_value_nonneg(s.drop_last());
    }
}

pub open spec fn pow10(n: nat) -> int
    decreases n,
{
    if n == 0 {
        1
    } else {
        10 * pow10((n - 1) as nat)
    }
}

/// `n` digits write a number below `10^n`.
pub proof fn lemma_digits_value_below(s: Seq<u8>)
    requires
        forall|i: int| 0 <= i < s.len() ==> #[trigger] in_class(s[i], ByteClass::Digit),
    ensures
        0 <= digits_value(s) < pow10(s.len()),
    decreases s.len(),
{
    if s.len() > 0 {
        let init = s.drop_last();
        assert(in_class(s[s.len() - 1], ByteClass::Digit));
        assert forall|i: int| 0 <= i < init.len() implies #[trigger] in_class(init[i], ByteClass::Digit) by {
            assert(init[i] == s[i]);
        }
        lemma_digits_value_below(init);
        let v = digits_value(init);
        let p = pow10(init.len());
        let d = s.last() - 0x30;
        assert(v * 10 + d < 10 * p) by (nonlinear_arith)
            requires
                0 <= v < p,
                0 <= d <= 9,
        ;
    }
}

/// Appends the digits `b[lo..hi]` to a number whose digits so far are `prefix`,
/// with the value held as `min(value, MAGNITUDE_CAP)`.
pub fn accumulate_digits(b: &[u8], lo: usize, hi: usize, acc: u64, Ghost(prefix): Ghost<Seq<u8>>) -> (r: u64)
    requires
        lo <= hi <= b@.len(),
        forall|i: int| 0 <= i < prefix.len() ==> #[trigger] in_class(prefix[i], ByteClass::Digit),
        forall|i: int| lo <= i < hi ==> #[trigger] in_class(b@[i], ByteClass::Digit),
        acc as int == if digits_value(prefix) < MAGNITUDE_CAP { digits_value(prefix) } else { MAGNITUDE_CAP as int },
    ensures
        ({
            let v = digits_value(prefix + b@.subrange(lo as int, hi as int));
            r as int == if v < MAGNITUDE_CAP { v } else { MAGNITUDE_CAP as int }
        }),
{
    let mut acc: u64 = acc;
    let mut i: usize = lo;
    while i < hi
        invariant
            lo <= i <= hi <= b@.len(),
            forall|j: int| lo <= j < hi ==> #[trigger] in_class(b@[j], ByteClass::Digit),
            forall|j: int| 0 <= j < prefix.len() ==> #[trigger] in_class(prefix[j], ByteClass::Digit),
            ({
                let v = digits_value(prefix + b@.subrange(lo as int, i as int));
                acc as int == if v < MAGNITUDE_CAP { v } else { MAGNITUDE_CAP as int }
            }),
        decreases hi - i,
    {
        assert(in_class(b@[i as int], ByteClass::Digit));
        let d: u64 = (b[i] - 0x30) as u64;
        let ghost old_seq = prefix + b@.subrange(lo as int, i as int);
        let ghost new_seq = prefix + b@.subrange(lo as int, i + 1);
        proof {
            assert(new_seq.drop_last() =~= old_seq);
            assert(new_seq.last() == b@[i as int]);
            assert forall|j: int| 0 <= j < old_seq.len() implies #[trigger] in_class(old_seq[j], ByteClass::Digit) by {
                if j < prefix.len() {
                } else {
                    assert(old_seq[j] == b@[lo + j - prefix.len()]);
                }
            }
            lemma_digits_value_nonneg(old_seq);
        }
        if acc > 922337203685477580 {
            acc = MAGNITUDE_CAP;
        } else {
            acc = acc * 10 + d;
            if acc > MAGNITUDE_CAP {
                acc = MAGNITUDE_CAP;
            }
        }
        i = i + 1;
    }
    acc
}

/// Reads an `i64` written in decimal, as `str::parse::<i64>` does.
#[verifier::rlimit(40)]
pub fn parse_int(b: &[u8]) -> (r: Option<i64>)
    ensures
        r == int_of_text(b@),
{
    let n: usize = b.len();
    if n == 0 {
        return None;
    }
    let signed = b[0] == 0x2b || b[0] == 0x2d;
    let negative = b[0] == 0x2d;
    let start: usize = if signed { 1 } else { 0 };
    let ghost body = if signed { b@.drop_first() } else { b@ };
    proof {
        assert(body =~= b@.subrange(start as int, n as int));
    }
    if start == n {
        return None;
    }
    let mut i: usize = start;
    while i < n
        invariant
            n == b@.len(),
            start <= i <= n,
            body == b@.subrange(start as int, n as int),
            n > 0,
            signed == (b@[0] == 0x2b || b@[0] == 0x2d),
            negative == (b@[0] == 0x2d),
            body == (if signed { b@.drop_first() } else { b@ }),
            forall|j: int| start <= j < i ==> #[trigger] in_class(b@[j], ByteClass::Digit),
        decreases n - i,
    {
        if !byte_in_class(b[i], ByteClass::Digit) {
            proof {
                assert(body[i - start] == b@[i as int]);
                assert(!in_class(body[i - start], ByteClass::Digit));
                assert(!is_digit_text(body));
            }
            return None;
        }
        i = i + 1;
    }
    proof {
        assert(Seq::<u8>::empty() + b@.subrange(start as int, n as int) =~= body);
        assert forall|j: int| 0 <= j < body.len() implies #[trigger] in_class(body[j], ByteClass::Digit) by {
            assert(body[j] == b@[start + j]);
        }
        lemma_digits_value_nonneg(body);
    }
    let mag = accumulate_digits(b, start, n, 0, Ghost(Seq::empty()));
    if negative {
        if mag <= 9223372036854775808 {
            Some((0i128 - mag as i128) as i64)
        } else {
            None
        }
    } else {
        if mag <= 9223372036854775807 {
            Some(mag as i64)
        } else {
            None
        }
    }
}

/// A fixed-point decimal: `units / 10^scale`.
#[derive(Clone, Copy, PartialEq, Eq, Structural, Debug)]
pub struct Decimal {
    pub units: i64,
    pub scale: usize,
}

} // verus!
