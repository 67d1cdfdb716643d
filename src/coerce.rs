//! Coercion of loosely typed scalar values into integers.
//!
//! A decimal such as `42.6` or `1.5e3` is rounded to the nearest integer,
//! halves away from zero. The arithmetic is exact: the rounding is decided by
//! the first digit after the point, once the exponent has moved it.

use vstd::prelude::*;
use crate::payload::JsonValue;

verus! {

broadcast use vstd::string::group_string_axioms;

pub open spec fn is_digit(c: char) -> bool {
    '0' <= c && c <= '9'
}

pub open spec fn digit_value(c: char) -> int {
    c as int - '0' as int
}

pub open spec fn all_digits(s: Seq<char>) -> bool {
    forall|i: int| 0 <= i < s.len() ==> is_digit(#[trigger] s[i])
}

/// The number written by the decimal digits `s` (0 for no digits).
pub open spec fn digits_value(s: Seq<char>) -> int
    decreases s.len(),
{
    if s.len() == 0 {
        0
    } else {
        10 * digits_value(s.drop_last()) + digit_value(s.last())
    }
}

/// How many digits `s` starts with.
pub open spec fn leading_digits(s: Seq<char>) -> nat
    decreases s.len(),
{
    if s.len() > 0 && is_digit(s[0]) {
        1 + leading_digits(s.drop_first())
    } else {
        0
    }
}

/// The digit at position `i` of `ds`, 0 outside of it.
pub open spec fn digit_at(ds: Seq<char>, i: int) -> int {
    if 0 <= i < ds.len() {
        digit_value(ds[i])
    } else {
        0
    }
}

/// The integer part of the number written by the digits `ds` with the point
/// after the first `p` of them, zeros padding `ds` on the right.
pub open spec fn shifted_value(ds: Seq<char>, p: int) -> int
    decreases p,
{
    if p <= 0 {
        0
    } else {
        10 * shifted_value(ds, p - 1) + digit_at(ds, p - 1)
    }
}

/// That number rounded half away from zero: up when the first digit after
/// the point is 5 or more.
pub open spec fn rounded_at(ds: Seq<char>, p: int) -> int {
    shifted_value(ds, p) + if digit_at(ds, p) >= 5 {
        1int
    } else {
        0int
    }
}

/// How many digits follow the point of `u`, if it has one after its leading
/// digits.
pub open spec fn fraction_len(u: Seq<char>) -> int {
    let k = leading_digits(u) as int;
    if k < u.len() && u[k] == '.' {
        leading_digits(u.skip(k + 1)) as int
    } else {
        0
    }
}

/// Where the digits and point that begin `u` end.
pub open spec fn mantissa_end(u: Seq<char>) -> int {
    let k = leading_digits(u) as int;
    if k < u.len() && u[k] == '.' {
        k + 1 + fraction_len(u)
    } else {
        k
    }
}

/// The digits before and after the point that begin `u`.
pub open spec fn mantissa_digits(u: Seq<char>) -> Seq<char> {
    u.take(leading_digits(u) as int) + u.subrange(mantissa_end(u) - fraction_len(u), mantissa_end(u))
}

/// The value of a non-empty run of digits.
pub open spec fn exponent_digits(z: Seq<char>) -> Option<int> {
    if z.len() > 0 && all_digits(z) {
        Some(digits_value(z))
    } else {
        None
    }
}

/// The exponent that `x` writes: 0 for nothing, else `e` or `E`, an optional
/// sign and digits.
pub open spec fn exponent_of(x: Seq<char>) -> Option<int> {
    if x.len() == 0 {
        Some(0)
    } else if x[0] == 'e' || x[0] == 'E' {
        let y = x.skip(1);
        if y.len() > 0 && y[0] == '-' {
            match exponent_digits(y.skip(1)) {
                Some(v) => Some(-v),
                None => None,
            }
        } else if y.len() > 0 && y[0] == '+' {
            exponent_digits(y.skip(1))
        } else {
            exponent_digits(y)
        }
    } else {
        None
    }
}

/// An unsigned decimal (`ddd`, `ddd.ddd`, `ddd.` or `.ddd`, then an optional
/// exponent such as `e-7`), rounded half away from zero.
pub open spec fn rounded_magnitude(u: Seq<char>) -> Option<int> {
    let ds = mantissa_digits(u);
    if ds.len() == 0 {
        None
    } else {
        match exponent_of(u.skip(mantissa_end(u))) {
            Some(e) => Some(rounded_at(ds, leading_digits(u) + e)),
            None => None,
        }
    }
}

/// A decimal with an optional sign, rounded half away from zero.
pub open spec fn rounded_decimal(s: Seq<char>) -> Option<int> {
    if s.len() > 0 && s[0] == '-' {
        match rounded_magnitude(s.skip(1)) {
            Some(m) => Some(-m),
            None => None,
        }
    } else if s.len() > 0 && s[0] == '+' {
        rounded_magnitude(s.skip(1))
    } else {
        rounded_magnitude(s)
    }
}

/// The rounded value of the decimal `s`, where it is one and fits in `i64`.
pub open spec fn decimal_to_i64(s: Seq<char>) -> Option<i64> {
    match rounded_decimal(s) {
        Some(v) => if i64::MIN <= v <= i64::MAX {
            Some(v as i64)
        } else {
            None
        },
        None => None,
    }
}

/// What `s` is once its leading and trailing whitespace is removed.
pub uninterp spec fn trimmed(s: Seq<char>) -> Seq<char>;

/// The integer that a value stands for: an integer as it is, a decimal number
/// rounded, a string rounded after trimming; nothing for any other value.
pub open spec fn coerced(v: JsonValue) -> Option<i64> {
    match v {
        JsonValue::Integer(n) => Some(n),
        JsonValue::Decimal(t) => decimal_to_i64(t@),
        JsonValue::Text(t) => decimal_to_i64(trimmed(t@)),
        _ => None,
    }
}

proof fn lemma_leading_digits(s: Seq<char>)
    ensures
        leading_digits(s) <= s.len(),
        forall|i: int| 0 <= i < leading_digits(s) ==> is_digit(#[trigger] s[i]),
        leading_digits(s) < s.len() ==> !is_digit(s[leading_digits(s) as int]),
    decreases s.len(),
{
    if s.len() > 0 && is_digit(s[0]) {
        lemma_leading_digits(s.drop_first());
        assert forall|i: int| 0 <= i < leading_digits(s) implies is_digit(#[trigger] s[i]) by {
            if i > 0 {
                assert(s[i] == s.drop_first()[i - 1]);
            }
        }
    }
}

proof fn lemma_leading_digits_exact(s: Seq<char>, k: int)
    requires
        0 <= k <= s.len(),
        forall|i: int| 0 <= i < k ==> is_digit(#[trigger] s[i]),
        k < s.len() ==> !is_digit(s[k]),
    ensures
        leading_digits(s) == k,
    decreases k,
{
    if k > 0 {
        assert forall|i: int| 0 <= i < k - 1 implies is_digit(#[trigger] s.drop_first()[i]) by {
            assert(s.drop_first()[i] == s[i + 1]);
        }
        if k < s.len() {
            assert(s.drop_first()[k - 1] == s[k]);
        }
        lemma_leading_digits_exact(s.drop_first(), k - 1);
    }
}

proof fn lemma_digits_value_step(s: Seq<char>, k: int)
    requires
        0 <= k < s.len(),
    ensures
        digits_value(s.take(k + 1)) == 10 * digits_value(s.take(k)) + digit_value(s[k]),
{
    assert(s.take(k + 1).drop_last() =~= s.take(k));
}

spec fn pow10(j: nat) -> int
    decreases j,
{
    if j == 0 {
        1
    } else {
        10 * pow10((j - 1) as nat)
    }
}

proof fn lemma_digits_value_nonneg(s: Seq<char>)
    requires
        all_digits(s),
    ensures
        digits_value(s) >= 0,
    decreases s.len(),
{
    if s.len() > 0 {
        assert(all_digits(s.drop_last())) by {
            assert forall|i: int| 0 <= i < s.len() - 1 implies is_digit(#[trigger] s.drop_last()[i]) by {
                assert(s.drop_last()[i] == s[i]);
            }
        }
        assert(is_digit(s[s.len() - 1]));
        lemma_digits_value_nonneg(s.drop_last());
    }
}

proof fn lemma_shifted_nonneg(ds: Seq<char>, p: int)
    requires
        all_digits(ds),
    ensures
        shifted_value(ds, p) >= 0,
    decreases p,
{
    if p > 0 {
        lemma_shifted_nonneg(ds, p - 1);
        if 0 <= p - 1 < ds.len() {
            assert(is_digit(ds[p - 1]));
        }
    }
}

proof fn lemma_shifted_monotone(ds: Seq<char>, t: int, p: int)
    requires
        all_digits(ds),
        t <= p,
    ensures
        shifted_value(ds, t) <= shifted_value(ds, p),
    decreases p - t,
{
    if t < p {
        lemma_shifted_monotone(ds, t, p - 1);
        lemma_shifted_nonneg(ds, p - 1);
        if 0 <= p - 1 < ds.len() {
            assert(is_digit(ds[p - 1]));
        }
    }
}

proof fn lemma_shifted_zero_stays(ds: Seq<char>, t: int, p: int)
    requires
        ds.len() <= t <= p,
        shifted_value(ds, t) == 0,
    ensures
        shifted_value(ds, p) == 0,
    decreases p - t,
{
    if t < p {
        lemma_shifted_zero_stays(ds, t, p - 1);
    }
}

proof fn lemma_shifted_grows(ds: Seq<char>, t: int, j: nat)
    requires
        all_digits(ds),
        0 <= ds.len() <= t,
        shifted_value(ds, t) >= 1,
    ensures
        shifted_value(ds, t + j) >= pow10(j),
    decreases j,
{
    if j > 0 {
        lemma_shifted_grows(ds, t, (j - 1) as nat);
        assert(shifted_value(ds, t + j) == 10 * shifted_value(ds, t + j - 1));
    }
}

/// A string that reads as a decimal is made of ASCII characters.
proof fn lemma_decimal_is_ascii(s: Seq<char>)
    requires
        rounded_decimal(s) is Some,
    ensures
        vstd::utf8::is_ascii_chars(s),
{
    let start: int = if s.len() > 0 && (s[0] == '-' || s[0] == '+') {
        1
    } else {
        0
    };
    let u = s.skip(start);
    assert(s.skip(0) =~= s);
    assert(rounded_magnitude(u) is Some);
    lemma_leading_digits(u);
    let k = leading_digits(u) as int;
    let end = mantissa_end(u);
    if k < u.len() && u[k] == '.' {
        lemma_leading_digits(u.skip(k + 1));
    }
    let x = u.skip(end);
    assert(exponent_of(x) is Some);
    assert forall|i: int| 0 <= i < s.len() implies '\0' <= #[trigger] s[i] <= '\u{7f}' by {
        if i >= start {
            let a = i - start;
            assert(s[i] == u[a]);
            if k < a < end {
                assert(u[a] == u.skip(k + 1)[a - k - 1]);
            } else if a >= end {
                assert(u[a] == x[a - end]);
                let y = x.skip(1);
                if a - end >= 1 {
                    assert(x[a - end] == y[a - end - 1]);
                    if y.len() > 0 && (y[0] == '-' || y[0] == '+') && a - end >= 2 {
                        assert(y[a - end - 1] == y.skip(1)[a - end - 2]);
                    }
                }
            }
        }
    }
}

const MAGNITUDE_LIMIT: u64 = 9223372036854775808;

/// The index of the first byte at or after `from` that is no ASCII digit.
fn scan_digits(b: &[u8], from: usize) -> (r: usize)
    requires
        from <= b@.len(),
    ensures
        from <= r <= b@.len(),
        forall|j: int| from <= j < r ==> 48 <= #[trigger] b@[j] <= 57,
        r < b@.len() ==> !(48 <= b@[r as int] <= 57),
{
    let mut i = from;
    while i < b.len() && 48u8 <= b[i] && b[i] <= 57u8
        invariant
            from <= i <= b@.len(),
            forall|j: int| from <= j < i ==> 48 <= #[trigger] b@[j] <= 57,
        decreases b@.len() - i,
    {
        i = i + 1;
    }
    i
}

/// `rounded_at(ds, p_true)` where it is at most `limit`, from the values of
/// the digits `ds` and a point `p` that is `p_true`, or lies with it so far
/// left or right of the digits that the result is the same.
fn round_shifted(
    vals: &Vec<u8>,
    Ghost(ds): Ghost<Seq<char>>,
    p: i128,
    Ghost(p_true): Ghost<int>,
    limit: u64,
) -> (r: Option<u64>)
    requires
        vals@.len() == ds.len(),
        all_digits(ds),
        forall|t: int| 0 <= t < ds.len() ==> vals@[t] as int == digit_value(#[trigger] ds[t]),
        p == p_true || (p < 0 && p_true <= p) || (p >= ds.len() + 20 && p_true >= p),
        MAGNITUDE_LIMIT - 1 <= limit <= MAGNITUDE_LIMIT,
    ensures
        r == if rounded_at(ds, p_true) <= limit {
            Some(rounded_at(ds, p_true) as u64)
        } else {
            None::<u64>
        },
        r is Some ==> r->0 as int == rounded_at(ds, p_true) && r->0 <= limit,
{
    let dl = vals.len();
    let mut v: u64 = 0;
    let mut t: i128 = 0;
    while t < p
        invariant
            vals@.len() == ds.len(),
            dl == ds.len(),
            all_digits(ds),
            forall|j: int| 0 <= j < ds.len() ==> vals@[j] as int == digit_value(#[trigger] ds[j]),
            p == p_true || (p < 0 && p_true <= p) || (p >= ds.len() + 20 && p_true >= p),
            MAGNITUDE_LIMIT - 1 <= limit <= MAGNITUDE_LIMIT,
            0 <= t,
            p >= 0 ==> t <= p,
            p < 0 ==> t == 0,
            v == shifted_value(ds, t as int),
            v <= limit,
            t > dl ==> shifted_value(ds, dl as int) > 0,
        decreases p - t,
    {
        if t >= dl as i128 && v == 0 {
            proof {
                lemma_shifted_zero_stays(ds, t as int, p_true);
            }
            return Some(0);
        }
        let d: u64 = if t < dl as i128 {
            proof {
                assert(is_digit(ds[t as int]));
            }
            vals[t as usize] as u64
        } else {
            0
        };
        assert(d as int == digit_at(ds, t as int));
        if v > (limit - d) / 10 {
            proof {
                assert(10 * v + d > limit) by (nonlinear_arith)
                    requires v > (limit - d) / 10, d <= 9, d <= limit;
                lemma_shifted_monotone(ds, t + 1, p_true);
                lemma_shifted_nonneg(ds, p_true);
            }
            return None;
        }
        v = v * 10 + d;
        t = t + 1;
    }
    proof {
        if p >= ds.len() + 20 && p_true != p {
            lemma_shifted_grows(ds, dl as int, 20);
            lemma_shifted_monotone(ds, dl + 20, p as int);
            reveal_with_fuel(pow10, 21);
            assert(pow10(20) == 100000000000000000000);
        }
        if p < 0 {
            assert(shifted_value(ds, p_true) == 0);
        }
    }
    let rd: u64 = if 0 <= p && p < dl as i128 {
        proof {
            assert(is_digit(ds[p as int]));
        }
        vals[p as usize] as u64
    } else {
        0
    };
    assert(rd as int == digit_at(ds, p_true));
    assert(v == shifted_value(ds, p_true));
    if rd >= 5 {
        if v == limit {
            return None;
        }
        Some(v + 1)
    } else {
        Some(v)
    }
}

/// The byte string `b` spells the characters `s`, all of them ASCII.
spec fn spells(b: Seq<u8>, s: Seq<char>) -> bool {
    &&& b.len() == s.len()
    &&& forall|m: int| 0 <= m < s.len() ==> b[m] as int == #[trigger] s[m] as int
}

/// Reads the digits, point and digits that begin `s` at `start`: where there
/// is at least one digit, their number before the point, where they end, and
/// their values.
fn read_mantissa(b: &[u8], start: usize, Ghost(s): Ghost<Seq<char>>) -> (r: Option<(usize, usize, Vec<u8>)>)
    requires
        spells(b@, s),
        start <= s.len(),
    ensures
        ({
            let u = s.skip(start as int);
            let ds = mantissa_digits(u);
            match r {
                None => ds.len() == 0,
                Some((k, end, vals)) => {
                    &&& ds.len() > 0
                    &&& ds.len() <= end - start
                    &&& k == leading_digits(u)
                    &&& end - start == mantissa_end(u)
                    &&& start <= end <= s.len()
                    &&& all_digits(ds)
                    &&& vals@.len() == ds.len()
                    &&& forall|t: int| 0 <= t < ds.len() ==> vals@[t] as int == digit_value(#[trigger] ds[t])
                }
            }
        }),
{
    let ghost u = s.skip(start as int);
    let n = b.len();
    let int_end = scan_digits(b, start);
    let ghost k = int_end - start;
    proof {
        assert forall|j: int| 0 <= j < k implies is_digit(#[trigger] u[j]) by {
            assert(u[j] == s[start + j]);
            assert(48 <= b@[start + j] <= 57);
        }
        if int_end < n {
            assert(u[k] == s[int_end as int]);
        }
        lemma_leading_digits_exact(u, k);
    }
    let mut frac_end = int_end;
    let mut has_point = false;
    if int_end < n && b[int_end] == 46u8 {
        assert(u[k] == s[int_end as int]);
        has_point = true;
        frac_end = scan_digits(b, int_end + 1);
        proof {
            let w = u.skip(k + 1);
            let f = frac_end - int_end - 1;
            assert forall|j: int| 0 <= j < f implies is_digit(#[trigger] w[j]) by {
                assert(w[j] == s[int_end + 1 + j]);
                assert(48 <= b@[int_end + 1 + j] <= 57);
            }
            if frac_end < n {
                assert(w[f] == s[frac_end as int]);
            }
            lemma_leading_digits_exact(w, f);
        }
    } else if int_end < n {
        assert(u[k] == s[int_end as int]);
    }
    let f: usize = if has_point {
        frac_end - int_end - 1
    } else {
        0
    };
    let frac_start: usize = frac_end - f;
    let ghost ds = mantissa_digits(u);
    assert(f == fraction_len(u));
    assert(frac_end - start == mantissa_end(u));
    assert(ds == u.take(k) + u.subrange(frac_start - start, frac_end - start));
    assert(ds.len() == k + f);
    if int_end == start && f == 0 {
        return None;
    }
    let mut vals: Vec<u8> = Vec::new();
    let mut j: usize = start;
    while j < int_end
        invariant
            start <= j <= int_end <= frac_start <= frac_end <= s.len(),
            int_end - start == k,
            frac_end - frac_start == f,
            spells(b@, s),
            u == s.skip(start as int),
            ds == u.take(k) + u.subrange(frac_start - start, frac_end - start),
            forall|m: int| start <= m < int_end ==> 48 <= #[trigger] b@[m] <= 57,
            vals@.len() == j - start,
            forall|t: int| 0 <= t < j - start ==> vals@[t] as int == digit_value(#[trigger] ds[t]),
        decreases int_end - j,
    {
        assert(ds[j - start] == u[j - start]);
        assert(u[j - start] == s[j as int]);
        vals.push(b[j] - 48u8);
        j = j + 1;
    }
    let mut j: usize = frac_start;
    while j < frac_end
        invariant
            frac_start <= j <= frac_end <= s.len(),
            start <= int_end <= frac_start,
            int_end - start == k,
            frac_end - frac_start == f,
            spells(b@, s),
            u == s.skip(start as int),
            ds == u.take(k) + u.subrange(frac_start - start, frac_end - start),
            forall|m: int| frac_start <= m < frac_end ==> 48 <= #[trigger] b@[m] <= 57,
            vals@.len() == k + (j - frac_start),
            forall|t: int| 0 <= t < vals@.len() ==> vals@[t] as int == digit_value(#[trigger] ds[t]),
        decreases frac_end - j,
    {
        let ghost t = k + (j - frac_start);
        assert(ds[t] == u[j - start]);
        assert(u[j - start] == s[j as int]);
        vals.push(b[j] - 48u8);
        j = j + 1;
    }
    assert(all_digits(ds)) by {
        assert forall|t: int| 0 <= t < ds.len() implies is_digit(#[trigger] ds[t]) by {
            if t < k {
                assert(ds[t] == u[t]);
                assert(u[t] == s[start + t]);
                assert(48 <= b@[start + t] <= 57);
            } else {
                let m = frac_start + (t - k);
                assert(ds[t] == u[m - start]);
                assert(u[m - start] == s[m]);
                assert(48 <= b@[m] <= 57);
            }
        }
    }
    Some((int_end - start, frac_end, vals))
}

/// `negative` and `magnitude` give the sign of `e` and its magnitude, held at
/// no more than `cap`.
spec fn read_exponent_matches(negative: bool, magnitude: int, e: int, cap: int) -> bool {
    let size = if e < 0 {
        -e
    } else {
        e
    };
    &&& negative ==> e <= 0
    &&& !negative ==> e >= 0
    &&& magnitude == if size < cap {
        size
    } else {
        cap
    }
}

/// Reads the exponent that `s` writes from `from` on (`e` or `E`, an
/// optional sign, digits): whether it is negative, and its magnitude, held at
/// no more than `cap`.
fn read_exponent(b: &[u8], from: usize, cap: u128, Ghost(s): Ghost<Seq<char>>) -> (r: Option<(bool, u128)>)
    requires
        spells(b@, s),
        from <= s.len(),
        cap < 0x1_0000_0000_0000_0000_0000,
    ensures
        match exponent_of(s.skip(from as int)) {
            None => r is None,
            Some(e) => match r {
                Some((negative, magnitude)) => read_exponent_matches(negative, magnitude as int, e, cap as int),
                None => false,
            },
        },
{
    let n = b.len();
    let ghost x = s.skip(from as int);
    if from == n {
        return Some((false, 0));
    }
    assert(x[0] == s[from as int]);
    if b[from] != 101u8 && b[from] != 69u8 {
        return None;
    }
    let ghost y = x.skip(1);
    let mut negative = false;
    let mut j: usize = from + 1;
    if j < n && b[j] == 45u8 {
        assert(y[0] == s[j as int]);
        negative = true;
        j = j + 1;
    } else if j < n && b[j] == 43u8 {
        assert(y[0] == s[j as int]);
        j = j + 1;
    } else if j < n {
        assert(y[0] == s[j as int]);
    }
    let dstart = j;
    let ghost z = s.skip(dstart as int);
    assert(exponent_of(x) == if negative {
        match exponent_digits(z) {
            Some(v) => Some(-v),
            None => None::<int>,
        }
    } else {
        exponent_digits(z)
    }) by {
        if dstart == from + 2 {
            assert(y.skip(1) =~= z);
        } else {
            assert(y =~= z);
        }
    }
    if j == n {
        return None;
    }
    let mut value: u128 = 0;
    assert(z.take(0) =~= Seq::<char>::empty());
    while j < n
        invariant
            dstart <= j <= n,
            n == s.len(),
            spells(b@, s),
            z == s.skip(dstart as int),
            x == s.skip(from as int),
            cap < 0x1_0000_0000_0000_0000_0000,
            value <= cap,
            exponent_of(x) == if negative {
                match exponent_digits(z) {
                    Some(v) => Some(-v),
                    None => None::<int>,
                }
            } else {
                exponent_digits(z)
            },
            forall|m: int| 0 <= m < j - dstart ==> is_digit(#[trigger] z[m]),
            value as int == if digits_value(z.take(j - dstart)) < cap {
                digits_value(z.take(j - dstart))
            } else {
                cap as int
            },
        decreases n - j,
    {
        assert(z[j - dstart] == s[j as int]);
        if b[j] < 48u8 || b[j] > 57u8 {
            return None;
        }
        let d = (b[j] - 48u8) as u128;
        proof {
            lemma_digits_value_step(z, j - dstart);
            assert(all_digits(z.take(j - dstart))) by {
                assert forall|m: int| 0 <= m < j - dstart implies is_digit(#[trigger] z.take(j - dstart)[m]) by {
                    assert(z.take(j - dstart)[m] == z[m]);
                }
            }
            lemma_digits_value_nonneg(z.take(j - dstart));
        }
        let next = value * 10 + d;
        value = if next > cap {
            cap
        } else {
            next
        };
        j = j + 1;
    }
    assert(z.take(z.len() as int) =~= z);
    assert(all_digits(z));
    proof {
        lemma_digits_value_nonneg(z);
    }
    Some((negative, value))
}

/// The point read with a capped exponent lies where the true one does, or
/// with it far enough left or right of the digits.
proof fn lemma_capped_point(k: int, e: int, dl: int, n: int, negative: bool, magnitude: int)
    requires
        read_exponent_matches(negative, magnitude, e, n + 40),
        0 <= dl <= n,
        0 <= k <= n,
    ensures
        ({
            let p = if negative {
                k - magnitude
            } else {
                k + magnitude
            };
            p == k + e || (p < 0 && k + e <= p) || (p >= dl + 20 && k + e >= p)
        }),
{
}

/// Reads `text` as a decimal with an optional sign and exponent and rounds it
/// to the nearest integer, halves away from zero; `None` when `text` is no
/// such decimal or the rounded value does not fit in `i64`.
#[verifier::rlimit(40)]
pub fn parse_rounded(text: &str) -> (r: Option<i64>)
    ensures
        r == decimal_to_i64(text@),
{
    let ghost s = text@;
    if !text.is_ascii() {
        proof {
            if rounded_decimal(s) is Some {
                lemma_decimal_is_ascii(s);
            }
        }
        return None;
    }
    let b = text.as_bytes();
    assert(b@.len() == s.len());
    assert(forall|i: int| 0 <= i < s.len() ==> b@[i] == #[trigger] s[i] as u8);
    assert(forall|i: int| 0 <= i < s.len() ==> '\0' <= #[trigger] s[i] <= '\u{7f}');
    assert(spells(b@, s));
    let n = b.len();
    let mut negative = false;
    let mut start: usize = 0;
    if n > 0 && b[0] == 45u8 {
        negative = true;
        start = 1;
    } else if n > 0 && b[0] == 43u8 {
        start = 1;
    }
    let ghost u = s.skip(start as int);
    assert(start == 0 ==> u =~= s);
    assert(rounded_decimal(s) == match rounded_magnitude(u) {
        Some(m) => if negative { Some(-m) } else { Some(m) },
        None => None::<int>,
    });
    let limit: u64 = if negative {
        MAGNITUDE_LIMIT
    } else {
        MAGNITUDE_LIMIT - 1
    };
    let (k, end, vals) = match read_mantissa(b, start, Ghost(s)) {
        None => return None,
        Some(m) => m,
    };
    let ghost ds = mantissa_digits(u);
    assert(s.skip(end as int) =~= u.skip(mantissa_end(u)));
    let cap: u128 = n as u128 + 40;
    let (exp_neg, exp) = match read_exponent(b, end, cap, Ghost(s)) {
        None => return None,
        Some(x) => x,
    };
    let ghost e = exponent_of(u.skip(mantissa_end(u)))->0;
    let p: i128 = if exp_neg {
        k as i128 - exp as i128
    } else {
        k as i128 + exp as i128
    };
    let ghost p_true = k + e;
    proof {
        lemma_capped_point(k as int, e, ds.len() as int, n as int, exp_neg, exp as int);
    }
    assert(rounded_magnitude(u) == Some(rounded_at(ds, p_true)));
    match round_shifted(&vals, Ghost(ds), p, Ghost(p_true), limit) {
        None => None,
        Some(m) => {
            if negative {
                if m == MAGNITUDE_LIMIT {
                    Some(i64::MIN)
                } else {
                    Some(-(m as i64))
                }
            } else {
                Some(m as i64)
            }
        },
    }
}

/// Relies on `str::trim`: the text without its leading and trailing
/// whitespace, a function of the characters alone.
#[verifier::external_body]
fn trim_whitespace(s: &str) -> (r: &str)
    ensures
        r@ == trimmed(s@),
{
    s.trim()
}

/// Reads a string field as a number: trims it, then rounds the decimal.
pub fn coerce_text(text: &str) -> (r: Option<i64>)
    ensures
        r == decimal_to_i64(trimmed(text@)),
{
    parse_rounded(trim_whitespace(text))
}

/// Coerces a loosely typed value into an integer.
pub fn value_to_i64(value: &JsonValue) -> (r: Option<i64>)
    ensures
        r == coerced(*value),
{
    match value {
        JsonValue::Integer(n) => Some(*n),
        JsonValue::Decimal(t) => parse_rounded(t.as_str()),
        JsonValue::Text(t) => coerce_text(t.as_str()),
        _ => None,
    }
}

} // verus!
