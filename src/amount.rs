use vstd::prelude::*;
use vstd::string::StringSliceAdditionalSpecFns;

verus! {

/// The most digits an amount may have before its decimal point; with four
/// after it, every amount fits an `i64` count of ten-thousandths.
pub const MAX_INTEGER_DIGITS: usize = 14;

/// The most digits an amount may have after its decimal point.
pub const MAX_FRACTION_DIGITS: usize = 4;

pub open spec fn is_digit(b: u8) -> bool {
    48 <= b <= 57
}

pub open spec fn all_digits(s: Seq<u8>) -> bool {
    forall|i: int| 0 <= i < s.len() ==> #[trigger] is_digit(s[i])
}

/// The number that a string of ASCII digits writes in base ten.
pub open spec fn digits_value(s: Seq<u8>) -> int
    decreases s.len(),
{
    if s.len() == 0 {
        0
    } else {
        10 * digits_value(s.drop_last()) + (s.last() - 48)
    }
}

pub open spec fn pow10(n: nat) -> int
    decreases n,
{
    if n == 0 {
        1
    } else {
        10 * pow10((n - 1) as nat)
    }
}

/// The index of the first `.` at or after `i`, or the length if there is none.
pub open spec fn dot_from(s: Seq<u8>, i: int) -> int
    decreases s.len() - i,
{
    if i < 0 || i >= s.len() {
        s.len() as int
    } else if s[i] == 46 {
        i
    } else {
        dot_from(s, i + 1)
    }
}

/// The amount, in ten-thousandths, that `s` writes from index `start` on:
/// one to `MAX_INTEGER_DIGITS` digits, then optionally a `.` and one to
/// `MAX_FRACTION_DIGITS` digits.
pub open spec fn unsigned_amount(s: Seq<u8>, start: int) -> Option<int> {
    let k = dot_from(s, start);
    let whole = s.subrange(start, k);
    let frac = if k < s.len() {
        s.subrange(k + 1, s.len() as int)
    } else {
        Seq::<u8>::empty()
    };
    if 1 <= whole.len() <= MAX_INTEGER_DIGITS && all_digits(whole) && all_digits(frac)
        && frac.len() <= MAX_FRACTION_DIGITS && (k < s.len() ==> frac.len() >= 1) {
        Some(
            digits_value(whole) * pow10(MAX_FRACTION_DIGITS as nat) + digits_value(frac) * pow10(
                (MAX_FRACTION_DIGITS - frac.len()) as nat,
            ),
        )
    } else {
        None
    }
}

/// The amount, in ten-thousandths, that the text `s` writes: an unsigned
/// amount, optionally preceded by `-`.
pub open spec fn amount_value(s: Seq<u8>) -> Option<int> {
    if s.len() > 0 && s[0] == 45 {
        match unsigned_amount(s, 1) {
            Some(v) => Some(-v),
            None => None,
        }
    } else {
        unsigned_amount(s, 0)
    }
}

proof fn lemma_pow10_monotonic(a: nat, b: nat)
    requires
        a <= b,
    ensures
        1 <= pow10(a) <= pow10(b),
    decreases b,
{
    if b > 0 {
        if a < b {
            lemma_pow10_monotonic(a, (b - 1) as nat);
        } else {
            lemma_pow10_monotonic((a - 1) as nat, (b - 1) as nat);
        }
    }
}

/// The value of the digits `b[lo..hi]`.
fn digits_to_int(b: &[u8], lo: usize, hi: usize) -> (r: i64)
    requires
        lo <= hi <= b@.len(),
        hi - lo <= MAX_INTEGER_DIGITS,
        all_digits(b@.subrange(lo as int, hi as int)),
    ensures
        r == digits_value(b@.subrange(lo as int, hi as int)),
        0 <= r < pow10((hi - lo) as nat),
{
    proof {
        reveal_with_fuel(pow10, 15);
        lemma_pow10_monotonic((hi - lo) as nat, 14);
    }
    let mut acc: i64 = 0;
    let mut i: usize = lo;
    while i < hi
        invariant
            lo <= i <= hi <= b@.len(),
            hi - lo <= MAX_INTEGER_DIGITS,
            all_digits(b@.subrange(lo as int, hi as int)),
            pow10((hi - lo) as nat) <= 100000000000000,
            acc == digits_value(b@.subrange(lo as int, i as int)),
            0 <= acc < pow10((i - lo) as nat),
        decreases hi - i,
    {
        let ghost prev = b@.subrange(lo as int, i as int);
        let ghost next = b@.subrange(lo as int, i as int + 1);
        assert(next.drop_last() =~= prev);
        assert(next.last() == b@[i as int]);
        assert(is_digit(b@.subrange(lo as int, hi as int)[i - lo]));
        let d = (b[i] - 48u8) as i64;
        proof {
            lemma_pow10_monotonic((i + 1 - lo) as nat, (hi - lo) as nat);
            assert(pow10((i + 1 - lo) as nat) == 10 * pow10((i - lo) as nat));
            assert(10 * acc + d < 10 * pow10((i - lo) as nat)) by (nonlinear_arith)
                requires
                    acc < pow10((i - lo) as nat),
                    0 <= d <= 9,
            ;
        }
        acc = 10 * acc + d;
        i = i + 1;
    }
    acc
}

/// The index of the first `.` in `b` at or after `start`, or `b.len()`.
fn find_dot(b: &[u8], start: usize) -> (k: usize)
    requires
        start <= b@.len(),
    ensures
        k as int == dot_from(b@, start as int),
        start <= k <= b@.len(),
{
    let mut i: usize = start;
    while i < b.len()
        invariant
            start <= i <= b@.len(),
            dot_from(b@, start as int) == dot_from(b@, i as int),
        decreases b@.len() - i,
    {
        if b[i] == 46u8 {
            return i;
        }
        i = i + 1;
    }
    i
}

/// Whether `b[lo..hi]` holds ASCII digits only.
fn digits_only(b: &[u8], lo: usize, hi: usize) -> (r: bool)
    requires
        lo <= hi <= b@.len(),
    ensures
        r == all_digits(b@.subrange(lo as int, hi as int)),
{
    let mut i: usize = lo;
    while i < hi
        invariant
            lo <= i <= hi <= b@.len(),
            all_digits(b@.subrange(lo as int, i as int)),
        decreases hi - i,
    {
        if b[i] < 48u8 || b[i] > 57u8 {
            assert(!is_digit(b@.subrange(lo as int, hi as int)[i - lo]));
            return false;
        }
        assert(all_digits(b@.subrange(lo as int, i + 1 as int))) by {
            assert forall|j: int| 0 <= j < i + 1 - lo implies #[trigger] is_digit(
                b@.subrange(lo as int, i + 1 as int)[j],
            ) by {
                if j < i - lo {
                    assert(b@.subrange(lo as int, i as int)[j] == b@[lo + j]);
                }
            }
        }
        i = i + 1;
    }
    true
}

fn parse_unsigned(b: &[u8], start: usize) -> (r: Option<i64>)
    requires
        start <= b@.len(),
    ensures
        match unsigned_amount(b@, start as int) {
            Some(v) => r == Some(v as i64) && 0 <= v < 1_000_000_000_000_000_000,
            None => r is None,
        },
{
    let k = find_dot(b, start);
    let n = b.len();
    if k - start < 1 || k - start > MAX_INTEGER_DIGITS || !digits_only(b, start, k) {
        return None;
    }
    let (flo, fhi) = if k < n {
        (k + 1, n)
    } else {
        (n, n)
    };
    assert(b@.subrange(n as int, n as int) =~= Seq::<u8>::empty());
    if fhi - flo > MAX_FRACTION_DIGITS || (k < n && fhi - flo < 1) || !digits_only(b, flo, fhi) {
        return None;
    }
    let whole = digits_to_int(b, start, k);
    let frac = digits_to_int(b, flo, fhi);
    let scale: i64 = match fhi - flo {
        0 => 10000,
        1 => 1000,
        2 => 100,
        3 => 10,
        _ => 1,
    };
    proof {
        reveal_with_fuel(pow10, 15);
        lemma_pow10_monotonic((k - start) as nat, 14);
        lemma_pow10_monotonic((fhi - flo) as nat, 4);
        assert(whole * 10000 <= 999999999999990000) by (nonlinear_arith)
            requires
                0 <= whole < 100000000000000,
        ;
        let p = pow10((fhi - flo) as nat);
        assert(p * scale == 10000) by {
            assert(fhi - flo == 0 || fhi - flo == 1 || fhi - flo == 2 || fhi - flo == 3 || fhi
                - flo == 4);
        }
        assert(0 <= frac * scale < 10000) by (nonlinear_arith)
            requires
                0 <= frac < p,
                p * scale == 10000,
                scale > 0,
        ;
        assert(scale == pow10((MAX_FRACTION_DIGITS - (fhi - flo)) as nat));
        assert(pow10(MAX_FRACTION_DIGITS as nat) == 10000);
        let frac_spec = if k < n {
            b@.subrange(k + 1, n as int)
        } else {
            Seq::<u8>::empty()
        };
        assert(frac_spec == b@.subrange(flo as int, fhi as int));
    }
    Some(whole * 10000 + frac * scale)
}

/// Reads a decimal amount such as `12.5` or `-0.0001` as a count of
/// ten-thousandths; `None` where the text is not such an amount.
pub fn parse_amount(text: &str) -> (r: Option<i64>)
    ensures
        match amount_value(text.spec_bytes()) {
            Some(v) => r == Some(v as i64),
            None => r is None,
        },
        r matches Some(v) ==> -1_000_000_000_000_000_000 < v < 1_000_000_000_000_000_000,
{
    let b = text.as_bytes();
    if b.len() > 0 && b[0] == 45u8 {
        match parse_unsigned(b, 1) {
            Some(v) => Some(-v),
            None => None,
        }
    } else {
        parse_unsigned(b, 0)
    }
}

/// Splits an amount of ten-thousandths for display: whether it is negative,
/// its whole units, and the ten-thousandths beyond them.
pub fn amount_parts(v: i64) -> (r: (bool, u64, u64))
    ensures
        r.0 == (v < 0),
        r.1 as int * 10000 + r.2 as int == if v < 0 {
            -(v as int)
        } else {
            v as int
        },
        r.2 < 10000,
{
    let magnitude: u64 = if v < 0 {
        if v == i64::MIN {
            9223372036854775808u64
        } else {
            (-v) as u64
        }
    } else {
        v as u64
    };
    (v < 0, magnitude / 10000, magnitude % 10000)
}

} // verus!
