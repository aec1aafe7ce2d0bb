//! Fixed-point decimal numbers: a price or a size is a count of 10^-8 units.

use vstd::prelude::*;

verus! {

/// Units per whole: 10^8.
pub const SCALE: u64 = 100_000_000;

pub open spec fn is_digit(c: char) -> bool {
    '0' <= c && c <= '9'
}

pub open spec fn digit_value(c: char) -> nat {
    (c as int - '0' as int) as nat
}

pub open spec fn all_digits(s: Seq<char>) -> bool {
    forall|i: int| 0 <= i < s.len() ==> is_digit(#[trigger] s[i])
}

/// The number written by a string of decimal digits (0 for the empty string).
pub open spec fn digits_value(s: Seq<char>) -> nat
    decreases s.len(),
{
    if s.len() == 0 {
        0
    } else {
        digits_value(s.drop_last()) * 10 + digit_value(s.last())
    }
}

pub open spec fn pow10(n: nat) -> nat
    decreases n,
{
    if n == 0 {
        1
    } else {
        10 * pow10((n - 1) as nat)
    }
}

/// Index of the first '.' at or after `i`, or the length when there is none.
pub open spec fn dot_from(s: Seq<char>, i: int) -> int
    decreases s.len() - i,
{
    if i >= s.len() {
        s.len() as int
    } else if s[i] == '.' {
        i
    } else {
        dot_from(s, i + 1)
    }
}

/// The value, in 10^-8 units, of a decimal string `I` or `I.F`, where `I` is
/// one or more digits and `F` one to eight digits; `None` for any other text.
pub open spec fn decimal_units(s: Seq<char>) -> Option<nat> {
    let k = dot_from(s, 0);
    let whole = s.subrange(0, k);
    if whole.len() == 0 || !all_digits(whole) {
        None
    } else if k == s.len() {
        Some(digits_value(whole) * pow10(8))
    } else {
        let frac = s.subrange(k + 1, s.len() as int);
        if 1 <= frac.len() <= 8 && all_digits(frac) {
            Some(digits_value(whole) * pow10(8) + digits_value(frac) * pow10(
                (8 - frac.len()) as nat,
            ))
        } else {
            None
        }
    }
}

proof fn lemma_digits_step(s: Seq<char>, i: int)
    requires
        0 <= i < s.len(),
    ensures
        digits_value(s.subrange(0, i + 1)) == digits_value(s.subrange(0, i)) * 10 + digit_value(
            s[i],
        ),
{
    assert(s.subrange(0, i + 1).drop_last() =~= s.subrange(0, i));
}

proof fn lemma_digits_prefix_mono(s: Seq<char>, i: int, j: int)
    requires
        0 <= i <= j <= s.len(),
    ensures
        digits_value(s.subrange(0, i)) <= digits_value(s.subrange(0, j)),
    decreases j - i,
{
    if i < j {
        lemma_digits_prefix_mono(s, i, j - 1);
        lemma_digits_step(s, j - 1);
    }
}

/// Reads `c[lo..hi]` as a run of decimal digits whose value fits in a `u64`.
fn read_digits(c: &Vec<char>, lo: usize, hi: usize) -> (r: Option<u128>)
    requires
        lo <= hi <= c.len(),
    ensures
        ({
            let d = c@.subrange(lo as int, hi as int);
            match r {
                Some(v) => all_digits(d) && v == digits_value(d) && v <= u64::MAX,
                None => !all_digits(d) || digits_value(d) > u64::MAX,
            }
        }),
{
    let ghost d = c@.subrange(lo as int, hi as int);
    let mut acc: u128 = 0;
    let mut i: usize = lo;
    while i < hi
        invariant
            lo <= i <= hi <= c.len(),
            d == c@.subrange(lo as int, hi as int),
            all_digits(d.subrange(0, i - lo)),
            acc == digits_value(d.subrange(0, i - lo)),
            acc <= u64::MAX,
        decreases hi - i,
    {
        let ch = c[i];
        if !('0' <= ch && ch <= '9') {
            assert(d[i - lo] == ch);
            return None;
        }
        proof {
            lemma_digits_step(d, i - lo);
        }
        let next: u128 = acc * 10 + (ch as u32 - '0' as u32) as u128;
        assert(all_digits(d.subrange(0, i - lo + 1))) by {
            assert forall|j: int| 0 <= j < i - lo + 1 implies is_digit(
                #[trigger] d.subrange(0, i - lo + 1)[j],
            ) by {
                if j < i - lo {
                    assert(d.subrange(0, i - lo + 1)[j] == d.subrange(0, i - lo)[j]);
                }
            }
        }
        if next > u64::MAX as u128 {
            proof {
                lemma_digits_prefix_mono(d, i - lo + 1, d.len() as int);
                assert(d.subrange(0, d.len() as int) =~= d);
            }
            return None;
        }
        acc = next;
        i = i + 1;
    }
    assert(d.subrange(0, hi - lo) =~= d);
    Some(acc)
}

/// The value of a decimal string in 10^-8 units, when it is well formed and
/// fits in a `u64`.
pub open spec fn decimal_u64(s: Seq<char>) -> Option<u64> {
    match decimal_units(s) {
        Some(v) => if v <= u64::MAX {
            Some(v as u64)
        } else {
            None
        },
        None => None,
    }
}

/// The characters of `s`, in order.
pub(crate) fn chars_of(s: &str) -> (r: Vec<char>)
    ensures
        r@ == s@,
{
    let mut r: Vec<char> = Vec::new();
    for c in it: s.chars()
        invariant
            r@ == it.seq().subrange(0, it.index() as int),
            it.seq() == s@,
    {
        r.push(c);
    }
    r
}

proof fn lemma_pow10_bounds(n: nat)
    ensures
        1 <= pow10(n),
        n <= 8 ==> pow10(n) <= 100_000_000,
    decreases n,
{
    reveal_with_fuel(pow10, 9);
    if n > 0 {
        lemma_pow10_bounds((n - 1) as nat);
        if n <= 8 {
            lemma_pow10_bounds((n - 1) as nat);
            assert(pow10((n - 1) as nat) <= pow10(7)) by {
                lemma_pow10_mono((n - 1) as nat, 7);
            }
        }
    }
}

proof fn lemma_pow10_mono(i: nat, j: nat)
    requires
        i <= j,
    ensures
        pow10(i) <= pow10(j),
    decreases j - i,
{
    if i < j {
        lemma_pow10_mono(i, (j - 1) as nat);
    }
}

fn pow10_exec(n: u64) -> (r: u128)
    requires
        n <= 8,
    ensures
        r == pow10(n as nat),
        1 <= r <= 100_000_000,
{
    let mut r: u128 = 1;
    let mut i: u64 = 0;
    while i < n
        invariant
            i <= n <= 8,
            r == pow10(i as nat),
        decreases n - i,
    {
        proof {
            lemma_pow10_bounds(i as nat);
        }
        r = r * 10;
        i = i + 1;
    }
    proof {
        lemma_pow10_bounds(n as nat);
    }
    r
}

/// Parses a decimal string such as `"93811.50"` or `"27"` into 10^-8 units.
/// At most eight digits may follow the point. Returns `None` for any other
/// text and for a value that does not fit in a `u64`.
pub fn parse_decimal(s: &str) -> (r: Option<u64>)
    ensures
        r == decimal_u64(s@),
{
    let c = chars_of(s);
    let n = c.len();
    let mut k: usize = 0;
    while k < n && c[k] != '.'
        invariant
            k <= n == c.len(),
            c@ == s@,
            dot_from(c@, 0) == dot_from(c@, k as int),
        decreases n - k,
    {
        k = k + 1;
    }
    assert(dot_from(c@, k as int) == k);
    if k == 0 {
        return None;
    }
    let scale = pow10_exec(8);
    let whole = match read_digits(&c, 0, k) {
        Some(w) => w,
        None => {
            proof {
                let w = digits_value(c@.subrange(0, k as int));
                lemma_pow10_bounds(8);
                assert(w * pow10(8) >= w) by (nonlinear_arith)
                    requires pow10(8) >= 1;
            }
            return None;
        },
    };
    assert(whole * scale <= u64::MAX as u128 * 100_000_000) by (nonlinear_arith)
        requires whole <= u64::MAX, scale <= 100_000_000;
    let base: u128 = whole * scale;
    if k == n {
        if base > u64::MAX as u128 {
            return None;
        }
        return Some(base as u64);
    }
    let len: usize = n - k - 1;
    if len == 0 || len > 8 {
        return None;
    }
    let frac = match read_digits(&c, k + 1, n) {
        Some(f) => f,
        None => {
            proof {
                let f = digits_value(c@.subrange(k + 1, n as int));
                let p = pow10((8 - len) as nat);
                lemma_pow10_bounds((8 - len) as nat);
                assert(f * p >= f) by (nonlinear_arith)
                    requires p >= 1;
            }
            return None;
        },
    };
    let p = pow10_exec((8 - len) as u64);
    assert(frac * p <= u64::MAX as u128 * 100_000_000) by (nonlinear_arith)
        requires frac <= u64::MAX, p <= 100_000_000;
    let units: u128 = base + frac * p;
    if units > u64::MAX as u128 {
        return None;
    }
    Some(units as u64)
}

} // verus!
