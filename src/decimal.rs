//! Decimal numbers of millimetres, read into micrometres rounded to the nearest one.
use vstd::prelude::*;
use vstd::string::*;

verus! {

/// Largest number of mantissa digits after its leading zeros, before and
/// after the decimal point together, that the parser reads.
pub const MAX_MANTISSA_DIGITS: usize = 36;

/// Size at which an exponent is held while it is read: any larger exponent
/// gives a number too large to store, or one that rounds to zero.
pub const EXPONENT_CAP: i128 = 1_000_000_000_000_000_000_000_000;

/// Magnitude bound of every value the parser produces, in micrometres.
pub const MAX_MICROS: i64 = 1_000_000_000_000;

pub open spec fn is_digit(c: char) -> bool {
    '0' <= c && c <= '9'
}

pub open spec fn digit_value(c: char) -> int {
    c as int - '0' as int
}

pub open spec fn all_digits(s: Seq<char>) -> bool {
    forall|i: int| 0 <= i < s.len() ==> is_digit(#[trigger] s[i])
}

/// The number written by a string of decimal digits.
pub open spec fn digits_value(s: Seq<char>) -> int
    decreases s.len(),
{
    if s.len() == 0 {
        0
    } else {
        digits_value(s.drop_last()) * 10 + digit_value(s.last())
    }
}

pub open spec fn pow10(n: nat) -> int
    decreases n,
{
    if n == 0 {
        1
    } else {
        10 * pow10((n - 1) as nat)
    }
}

/// Length of the longest prefix of `s` made of digits.
pub open spec fn digit_run(s: Seq<char>) -> nat
    decreases s.len(),
{
    if all_digits(s) {
        s.len()
    } else {
        digit_run(s.drop_last())
    }
}

pub open spec fn all_zeros(s: Seq<char>) -> bool {
    forall|i: int| 0 <= i < s.len() ==> #[trigger] s[i] == '0'
}

/// Length of the longest prefix of `s` made of zeros.
pub open spec fn zero_run(s: Seq<char>) -> nat
    decreases s.len(),
{
    if all_zeros(s) {
        s.len()
    } else {
        zero_run(s.drop_last())
    }
}

/// Number of digits of a mantissa `whole.frac` after its leading zeros.
pub open spec fn mantissa_digits(whole: Seq<char>, frac: Seq<char>) -> int {
    if zero_run(whole) < whole.len() {
        whole.len() - zero_run(whole) + frac.len()
    } else {
        frac.len() - zero_run(frac)
    }
}

/// The fraction digits that follow a decimal point at the start of `r`, and
/// what follows them.
pub open spec fn fraction_part(r: Seq<char>) -> (Seq<char>, Seq<char>) {
    if r.len() > 0 && r[0] == '.' {
        let t = r.skip(1);
        let n = digit_run(t);
        (t.take(n as int), t.skip(n as int))
    } else {
        (Seq::empty(), r)
    }
}

/// The power of ten written by an exponent part `e12`, `E-3`, `e+5`, or by
/// nothing at all.
pub open spec fn exponent_of(r: Seq<char>) -> Option<int> {
    if r.len() == 0 {
        Some(0)
    } else if r[0] == 'e' || r[0] == 'E' {
        let t = r.skip(1);
        let negative = t.len() > 0 && t[0] == '-';
        let d = if t.len() > 0 && (t[0] == '-' || t[0] == '+') {
            t.skip(1)
        } else {
            t
        };
        if 1 <= d.len() && all_digits(d) {
            Some(
                if negative {
                    -digits_value(d)
                } else {
                    digits_value(d)
                },
            )
        } else {
            None
        }
    } else {
        None
    }
}

/// `m * 10^k` rounded to the nearest whole number, a half rounded up.
pub open spec fn rounded_scale(m: int, k: int) -> int {
    if k >= 0 {
        m * pow10(k as nat)
    } else {
        let p = pow10((-k) as nat);
        m / p + if 2 * (m % p) >= p {
            1int
        } else {
            0int
        }
    }
}

/// `e` held within `EXPONENT_CAP` in size.
pub open spec fn capped(e: int) -> int {
    if e > EXPONENT_CAP {
        EXPONENT_CAP as int
    } else if e < -EXPONENT_CAP {
        -EXPONENT_CAP
    } else {
        e
    }
}

/// `m * 10^k` rounded to a whole number, when that is below `MAX_MICROS`.
pub open spec fn scaled_micros(m: int, k: int) -> Option<int> {
    let x = rounded_scale(m, k);
    if x < MAX_MICROS {
        Some(x)
    } else {
        None
    }
}

/// Micrometres written by an unsigned decimal number of millimetres: digits
/// with an optional decimal point (`12`, `880.5`, `.25`, `3.`), then an
/// optional exponent (`1.98e3`, `5E-1`), rounded to the nearest micrometre.
pub open spec fn unsigned_micros(s: Seq<char>) -> Option<int> {
    let n = digit_run(s);
    let whole = s.take(n as int);
    let (frac, rest) = fraction_part(s.skip(n as int));
    if whole.len() + frac.len() == 0 || mantissa_digits(whole, frac) > MAX_MANTISSA_DIGITS {
        None
    } else {
        match exponent_of(rest) {
            Some(e) => scaled_micros(
                digits_value(whole) * pow10(frac.len()) + digits_value(frac),
                e - frac.len() + 3,
            ),
            None => None,
        }
    }
}

/// Micrometres written by a decimal number of millimetres with an optional sign.
pub open spec fn parse_model(s: Seq<char>) -> Option<int> {
    if s.len() > 0 && s[0] == '-' {
        match unsigned_micros(s.skip(1)) {
            Some(m) => Some(-m),
            None => None,
        }
    } else if s.len() > 0 && s[0] == '+' {
        unsigned_micros(s.skip(1))
    } else {
        unsigned_micros(s)
    }
}

proof fn lemma_digits_value_bound(s: Seq<char>)
    requires
        all_digits(s),
    ensures
        0 <= digits_value(s) < pow10(s.len()),
    decreases s.len(),
{
    if s.len() > 0 {
        let t = s.drop_last();
        assert(all_digits(t)) by {
            assert forall|i: int| 0 <= i < t.len() implies is_digit(#[trigger] t[i]) by {
                assert(t[i] == s[i]);
            }
        }
        lemma_digits_value_bound(t);
        assert(is_digit(s[s.len() - 1]));
        let p = pow10(t.len());
        let d = digits_value(t);
        assert(pow10(s.len()) == 10 * p);
        assert(d * 10 + digit_value(s.last()) < 10 * p) by (nonlinear_arith)
            requires
                0 <= d < p,
                0 <= digit_value(s.last()) <= 9,
        ;
    }
}

proof fn lemma_digits_value_push(s: Seq<char>, c: char)
    ensures
        digits_value(s.push(c)) == digits_value(s) * 10 + digit_value(c),
{
    assert(s.push(c).drop_last() =~= s);
}

proof fn lemma_digit_run_exact(s: Seq<char>, i: int)
    requires
        0 <= i <= s.len(),
        all_digits(s.take(i)),
        i == s.len() || !is_digit(s[i]),
    ensures
        digit_run(s) == i,
    decreases s.len(),
{
    if all_digits(s) {
        if i < s.len() {
            assert(is_digit(s[i]));
        }
    } else {
        if i == s.len() {
            assert(s.take(i) =~= s);
        }
        let t = s.drop_last();
        assert(t.take(i) =~= s.take(i));
        if i < t.len() {
            assert(t[i] == s[i]);
        }
        lemma_digit_run_exact(t, i);
    }
}

proof fn lemma_zero_run_exact(s: Seq<char>, i: int)
    requires
        0 <= i <= s.len(),
        all_zeros(s.take(i)),
        i == s.len() || s[i] != '0',
    ensures
        zero_run(s) == i,
    decreases s.len(),
{
    if all_zeros(s) {
        if i < s.len() {
            assert(s[i] == '0');
        }
    } else {
        if i == s.len() {
            assert(s.take(i) =~= s);
        }
        let t = s.drop_last();
        assert(t.take(i) =~= s.take(i));
        if i < t.len() {
            assert(t[i] == s[i]);
        }
        lemma_zero_run_exact(t, i);
    }
}

/// Leading zeros do not change the number a string of digits writes.
proof fn lemma_digits_value_zeros(s: Seq<char>, z: int)
    requires
        0 <= z <= s.len(),
        all_zeros(s.take(z)),
    ensures
        digits_value(s) == digits_value(s.skip(z)),
    decreases s.len(),
{
    if s.len() > 0 {
        let t = s.drop_last();
        if z == s.len() {
            assert(t.take(z - 1) =~= s.take(z - 1));
            assert(s.take(z)[z - 1] == '0');
            lemma_digits_value_zeros(t, z - 1);
            assert(t.skip(z - 1) =~= Seq::<char>::empty());
            assert(s.skip(z) =~= Seq::<char>::empty());
        } else {
            assert(t.take(z) =~= s.take(z));
            lemma_digits_value_zeros(t, z);
            assert(s.skip(z).drop_last() =~= t.skip(z));
        }
    }
}

proof fn lemma_digit_run_le_len(s: Seq<char>)
    ensures
        digit_run(s) <= s.len(),
    decreases s.len(),
{
    if !all_digits(s) {
        lemma_digit_run_le_len(s.drop_last());
    }
}

proof fn lemma_digit_run_at_least(s: Seq<char>, k: int)
    requires
        0 <= k <= s.len(),
        all_digits(s.take(k)),
    ensures
        digit_run(s) >= k,
    decreases s.len(),
{
    if !all_digits(s) {
        let t = s.drop_last();
        if k == s.len() {
            assert(s.take(k) =~= s);
        }
        assert(t.take(k) =~= s.take(k));
        lemma_digit_run_at_least(t, k);
    }
}

/// Reads digits of `s` from `start` for as long as they last, at most
/// `limit` of them. Returns the index after the last digit read and their value,
/// or `None` when more than `limit` digits follow `start`.
fn read_digits(s: &str, len: usize, start: usize, limit: usize) -> (r: Option<(usize, i128)>)
    requires
        len == s@.len(),
        start <= len,
        limit <= MAX_MANTISSA_DIGITS,
    ensures
        match r {
            Some((end, v)) => {
                &&& start <= end <= len
                &&& end - start <= limit
                &&& all_digits(s@.subrange(start as int, end as int))
                &&& (end == len || !is_digit(s@[end as int]))
                &&& v == digits_value(s@.subrange(start as int, end as int))
                &&& 0 <= v < pow10((end - start) as nat)
            },
            None => start + limit < len && all_digits(
                s@.subrange(start as int, start + limit + 1),
            ),
        },
{
    let mut i: usize = start;
    let mut v: i128 = 0;
    proof {
        lemma_pow10_mono(0, MAX_MANTISSA_DIGITS as nat);
        assert(s@.subrange(start as int, start as int) =~= Seq::<char>::empty());
    }
    while i < len
        invariant
            len == s@.len(),
            start <= i <= len,
            i - start <= limit,
            limit <= MAX_MANTISSA_DIGITS,
            all_digits(s@.subrange(start as int, i as int)),
            v == digits_value(s@.subrange(start as int, i as int)),
            0 <= v < pow10((i - start) as nat),
            pow10((i - start) as nat) <= pow10(MAX_MANTISSA_DIGITS as nat),
        decreases len - i,
    {
        let c = s.get_char(i);
        if !('0' <= c && c <= '9') {
            return Some((i, v));
        }
        let ghost prev = s@.subrange(start as int, i as int);
        assert(s@.subrange(start as int, i + 1) =~= prev.push(c));
        if i - start == limit {
            return None;
        }
        proof {
            lemma_digits_value_push(prev, c);
            assert(all_digits(prev.push(c)));
            lemma_digits_value_bound(prev.push(c));
            lemma_pow10_values();
            lemma_pow10_mono((i + 1 - start) as nat, MAX_MANTISSA_DIGITS as nat);
        }
        let d = (c as u32 - '0' as u32) as i128;
        v = v * 10 + d;
        i = i + 1;
    }
    Some((i, v))
}

proof fn lemma_pow10_values()
    ensures
        pow10(0) == 1,
        pow10(1) == 10,
        pow10(2) == 100,
        pow10(3) == 1000,
        pow10(12) == 1_000_000_000_000,
        pow10(13) == 10_000_000_000_000,
        pow10(MAX_MANTISSA_DIGITS as nat) == 1_000_000_000_000_000_000_000_000_000_000_000_000,
        pow10(37) == 10_000_000_000_000_000_000_000_000_000_000_000_000,
        pow10(38) == 100_000_000_000_000_000_000_000_000_000_000_000_000,
{
    reveal_with_fuel(pow10, 40);
}

proof fn lemma_pow10_add(a: nat, b: nat)
    ensures
        pow10(a + b) == pow10(a) * pow10(b),
    decreases a,
{
    if a > 0 {
        lemma_pow10_add((a - 1) as nat, b);
        assert(pow10(a + b) == 10 * pow10((a - 1 + b) as nat));
        assert(10 * (pow10((a - 1) as nat) * pow10(b)) == (10 * pow10((a - 1) as nat)) * pow10(b))
            by (nonlinear_arith);
    }
}

proof fn lemma_pow10_mono(a: nat, b: nat)
    requires
        a <= b,
    ensures
        pow10(a) <= pow10(b),
        pow10(a) >= 1,
    decreases b,
{
    if a < b {
        lemma_pow10_mono(a, (b - 1) as nat);
    } else if a > 0 {
        lemma_pow10_mono((a - 1) as nat, (a - 1) as nat);
    }
}

/// The run of digits of `s` that starts at `start`, when it has at most `limit`
/// digits: the index after it and its value. `None` when it is longer.
fn digit_span(s: &str, len: usize, start: usize, limit: usize) -> (r: Option<(usize, i128)>)
    requires
        len == s@.len(),
        start <= len,
        limit <= MAX_MANTISSA_DIGITS,
    ensures
        match r {
            Some((end, v)) => {
                &&& start <= end <= len
                &&& end - start == digit_run(s@.skip(start as int))
                &&& (end == len || !is_digit(s@[end as int]))
                &&& end - start <= limit
                &&& all_digits(s@.skip(start as int).take(end - start))
                &&& v == digits_value(s@.skip(start as int).take(end - start))
                &&& 0 <= v < pow10((end - start) as nat)
            },
            None => {
                &&& digit_run(s@.skip(start as int)) > limit
                &&& start + limit < len
                &&& all_digits(s@.subrange(start as int, start + limit + 1))
            },
        },
{
    let ghost body = s@.skip(start as int);
    match read_digits(s, len, start, limit) {
        None => {
            proof {
                assert(body.take(limit + 1) =~= s@.subrange(start as int, start + limit + 1));
                lemma_digit_run_at_least(body, limit + 1);
            }
            None
        },
        Some((end, v)) => {
            proof {
                assert(body.take(end - start) =~= s@.subrange(start as int, end as int));
                if end < len {
                    assert(body[end - start] == s@[end as int]);
                }
                lemma_digit_run_exact(body, end - start);
            }
            Some((end, v))
        },
    }
}

/// Reads digits from `start` to the end of `s`: their value held within
/// `EXPONENT_CAP`, or `None` when a character there is not a digit.
fn read_capped_digits(s: &str, len: usize, start: usize) -> (r: Option<i128>)
    requires
        len == s@.len(),
        start <= len,
    ensures
        match r {
            Some(v) => all_digits(s@.skip(start as int)) && v == capped(
                digits_value(s@.skip(start as int)),
            ),
            None => !all_digits(s@.skip(start as int)),
        },
{
    let mut i: usize = start;
    let mut v: i128 = 0;
    assert(s@.subrange(start as int, start as int) =~= Seq::<char>::empty());
    while i < len
        invariant
            len == s@.len(),
            start <= i <= len,
            all_digits(s@.subrange(start as int, i as int)),
            0 <= digits_value(s@.subrange(start as int, i as int)),
            v == capped(digits_value(s@.subrange(start as int, i as int))),
        decreases len - i,
    {
        let c = s.get_char(i);
        if !('0' <= c && c <= '9') {
            proof {
                assert(s@.skip(start as int)[i - start] == c);
            }
            return None;
        }
        let ghost prev = s@.subrange(start as int, i as int);
        proof {
            assert(s@.subrange(start as int, i + 1) =~= prev.push(c));
            lemma_digits_value_push(prev, c);
            assert(all_digits(prev.push(c)));
        }
        let d = (c as u32 - '0' as u32) as i128;
        if v >= EXPONENT_CAP {
            v = EXPONENT_CAP;
        } else {
            let next = v * 10 + d;
            v = if next > EXPONENT_CAP {
                EXPONENT_CAP
            } else {
                next
            };
        }
        i = i + 1;
    }
    assert(s@.subrange(start as int, len as int) =~= s@.skip(start as int));
    Some(v)
}

/// Reads the exponent part that starts at `pos` and runs to the end of `s`,
/// held within `EXPONENT_CAP`.
fn read_exponent(s: &str, len: usize, pos: usize) -> (r: Option<i128>)
    requires
        len == s@.len(),
        pos <= len,
    ensures
        match exponent_of(s@.skip(pos as int)) {
            Some(e) => r == Some(capped(e) as i128),
            None => r is None,
        },
{
    let ghost r0 = s@.skip(pos as int);
    if pos == len {
        return Some(0);
    }
    let c = s.get_char(pos);
    if c != 'e' && c != 'E' {
        return None;
    }
    let ghost t = r0.skip(1);
    assert(t =~= s@.skip(pos + 1));
    let mut start = pos + 1;
    let mut negative = false;
    if start < len {
        let sign = s.get_char(start);
        if sign == '-' {
            negative = true;
            start = start + 1;
        } else if sign == '+' {
            start = start + 1;
        }
    }
    let ghost d = s@.skip(start as int);
    assert(d =~= t.skip(1) || d =~= t);
    if start == len {
        return None;
    }
    match read_capped_digits(s, len, start) {
        None => None,
        Some(v) => if negative {
            Some(-v)
        } else {
            Some(v)
        },
    }
}

proof fn lemma_scaled_large(m: int, k: int)
    requires
        0 <= m,
        k > 12,
    ensures
        scaled_micros(m, k) == if m > 0 {
            None
        } else {
            Some(0int)
        },
{
    lemma_pow10_values();
    let p = pow10(k as nat);
    lemma_pow10_mono(13, k as nat);
    assert(rounded_scale(m, k) == m * p);
    if m > 0 {
        assert(m * p >= p) by (nonlinear_arith)
            requires
                m >= 1,
                p >= 1,
        ;
    } else {
        assert(m * p == 0);
    }
}

proof fn lemma_scaled_tiny(m: int, k: int)
    requires
        0 <= m < pow10(MAX_MANTISSA_DIGITS as nat),
        k < -38,
    ensures
        scaled_micros(m, k) == Some(0int),
{
    lemma_pow10_values();
    let p = pow10((-k) as nat);
    lemma_pow10_mono(37, (-k) as nat);
    vstd::arithmetic::div_mod::lemma_small_mod(m as nat, p as nat);
    vstd::arithmetic::div_mod::lemma_basic_div(m, p);
    assert(m / p == 0);
    assert(m % p == m);
    assert(2 * (m % p) < p);
    assert(rounded_scale(m, k) == 0);
}

/// Far enough from the micrometre, the power of ten no longer matters: the
/// number is out of range (or zero), or it rounds to zero.
proof fn lemma_scaled_far(m: int, k1: int, k2: int)
    requires
        0 <= m < pow10(MAX_MANTISSA_DIGITS as nat),
        (k1 > 12 && k2 > 12) || (k1 < -38 && k2 < -38),
    ensures
        scaled_micros(m, k1) == scaled_micros(m, k2),
{
    if k1 > 12 {
        lemma_scaled_large(m, k1);
        lemma_scaled_large(m, k2);
    } else {
        lemma_scaled_tiny(m, k1);
        lemma_scaled_tiny(m, k2);
    }
}

/// `10^n`.
fn pow10_exec(n: usize) -> (r: i128)
    requires
        n <= 38,
    ensures
        r == pow10(n as nat),
{
    let mut r: i128 = 1;
    let mut i: usize = 0;
    proof {
        lemma_pow10_values();
    }
    while i < n
        invariant
            i <= n <= 38,
            r == pow10(i as nat),
            pow10(38) == 100_000_000_000_000_000_000_000_000_000_000_000_000,
        decreases n - i,
    {
        proof {
            lemma_pow10_mono((i + 1) as nat, 38);
        }
        r = r * 10;
        i = i + 1;
    }
    r
}

/// `m * 10^k` rounded to a whole number, when that is below `MAX_MICROS`.
fn scale_micros(m: i128, k: i128) -> (r: Option<i64>)
    requires
        0 <= m < pow10(MAX_MANTISSA_DIGITS as nat),
    ensures
        match scaled_micros(m as int, k as int) {
            Some(v) => r == Some(v as i64) && 0 <= v < MAX_MICROS,
            None => r is None,
        },
{
    proof {
        lemma_pow10_values();
    }
    if k >= 0 {
        if m == 0 {
            return Some(0);
        }
        if k > 12 || m >= MAX_MICROS as i128 {
            proof {
                let p = pow10(k as nat);
                lemma_pow10_mono(0, k as nat);
                if k > 12 {
                    lemma_pow10_mono(13, k as nat);
                }
                assert(m * p >= p && m * p >= m) by (nonlinear_arith)
                    requires
                        m >= 1,
                        p >= 1,
                ;
            }
            return None;
        }
        let p = pow10_exec(k as usize);
        proof {
            lemma_pow10_mono(k as nat, 12);
            assert(m * p <= 1_000_000_000_000 * 1_000_000_000_000) by (nonlinear_arith)
                requires
                    0 <= m < 1_000_000_000_000,
                    1 <= p <= 1_000_000_000_000,
            ;
        }
        let v = m * p;
        if v < MAX_MICROS as i128 {
            Some(v as i64)
        } else {
            None
        }
    } else {
        if k < -38 {
            proof {
                let j = (-k) as nat;
                lemma_pow10_mono(37, j);
                vstd::arithmetic::div_mod::lemma_small_mod(m as nat, pow10(j) as nat);
                vstd::arithmetic::div_mod::lemma_basic_div(m as int, pow10(j));
            }
            return Some(0);
        }
        let j = (-k) as usize;
        proof {
            lemma_pow10_mono(j as nat, 38);
        }
        let p = pow10_exec(j);
        let q = m / p;
        let rem = m % p;
        proof {
            vstd::arithmetic::div_mod::lemma_div_nonincreasing(m as int, p as int);
            vstd::arithmetic::div_mod::lemma_mod_pos_bound(m as int, p as int);
            assert(0 <= m / p) by (nonlinear_arith)
                requires
                    m >= 0,
                    p > 0,
            ;
        }
        let v = if rem >= p - rem {
            q + 1
        } else {
            q
        };
        if v < MAX_MICROS as i128 {
            Some(v as i64)
        } else {
            None
        }
    }
}

/// The run of digits of `s` that starts at `start`, when at most `limit` of
/// them follow its leading zeros: the index after it, the number of leading
/// zeros and its value.
fn read_significant(s: &str, len: usize, start: usize, limit: usize) -> (r: Option<
    (usize, usize, i128),
>)
    requires
        len == s@.len(),
        start <= len,
        limit <= MAX_MANTISSA_DIGITS,
    ensures
        match r {
            Some((end, z, v)) => {
                let run = s@.skip(start as int).take(end - start);
                &&& start + z <= end <= len
                &&& end - start == digit_run(s@.skip(start as int))
                &&& z == zero_run(run)
                &&& end - start - z <= limit
                &&& v == digits_value(run)
                &&& 0 <= v < pow10((end - start - z) as nat)
            },
            None => {
                let d = digit_run(s@.skip(start as int));
                d - zero_run(s@.skip(start as int).take(d as int)) > limit
            },
        },
{
    let ghost t = s@.skip(start as int);
    let mut i: usize = start;
    let mut more = true;
    assert(s@.subrange(start as int, start as int) =~= Seq::<char>::empty());
    while more && i < len
        invariant
            len == s@.len(),
            start <= i <= len,
            all_zeros(s@.subrange(start as int, i as int)),
            !more ==> i < len && s@[i as int] != '0',
        decreases len - i + if more {
            1int
        } else {
            0int
        },
    {
        if s.get_char(i) == '0' {
            assert(s@.subrange(start as int, i + 1) =~= s@.subrange(start as int, i as int).push(
                '0',
            ));
            i = i + 1;
        } else {
            more = false;
        }
    }
    let ghost z = i - start;
    assert(t.take(z) =~= s@.subrange(start as int, i as int));
    assert(s@.skip(i as int) =~= t.skip(z));
    match digit_span(s, len, i, limit) {
        None => {
            proof {
                assert(t.take(z + limit + 1) =~= s@.subrange(start as int, i as int) + s@.subrange(
                    i as int,
                    i + limit + 1,
                ));
                assert(all_digits(t.take(z + limit + 1))) by {
                    assert forall|j: int| 0 <= j < z + limit + 1 implies is_digit(
                        #[trigger] t.take(z + limit + 1)[j],
                    ) by {
                        if j < z {
                            assert(t.take(z)[j] == '0');
                            assert(t.take(z + limit + 1)[j] == t.take(z)[j]);
                        } else {
                            assert(t.take(z + limit + 1)[j] == s@.subrange(
                                i as int,
                                i + limit + 1,
                            )[j - z]);
                        }
                    }
                }
                lemma_digit_run_at_least(t, z + limit + 1);
                lemma_digit_run_le_len(t);
                let d = digit_run(t) as int;
                let w = t.take(d);
                assert(w.take(z) =~= t.take(z));
                assert(w[z] == s@[i as int]);
                lemma_zero_run_exact(w, z);
            }
            None
        },
        Some((end, v)) => {
            let ghost n = end - start;
            let ghost w = t.take(n);
            proof {
                let u = s@.skip(i as int).take(end - i);
                assert(w =~= t.take(z) + u);
                assert(all_digits(w)) by {
                    assert forall|j: int| 0 <= j < n implies is_digit(#[trigger] w[j]) by {
                        if j < z {
                            assert(t.take(z)[j] == '0');
                            assert(w[j] == t.take(z)[j]);
                        } else {
                            assert(w[j] == u[j - z]);
                        }
                    }
                }
                if end < len {
                    assert(t[n] == s@[end as int]);
                }
                lemma_digit_run_exact(t, n);
                assert(w.take(z) =~= t.take(z));
                if z < n {
                    assert(w[z] == s@[i as int]);
                }
                lemma_zero_run_exact(w, z);
                lemma_digits_value_zeros(w, z);
                assert(w.skip(z) =~= u);
            }
            Some((end, i - start, v))
        },
    }
}

proof fn lemma_mantissa_bound(w: int, f: int, a: nat, b: nat)
    requires
        0 <= w < pow10(a),
        0 <= f < pow10(b),
        a + b <= MAX_MANTISSA_DIGITS,
    ensures
        0 <= w * pow10(b) + f < pow10(MAX_MANTISSA_DIGITS as nat),
{
    lemma_pow10_add(a, b);
    lemma_pow10_mono(a + b, MAX_MANTISSA_DIGITS as nat);
    lemma_pow10_mono(0, b);
    let pw = pow10(a);
    let pf = pow10(b);
    assert(0 <= w * pf + f < pw * pf) by (nonlinear_arith)
        requires
            0 <= w < pw,
            0 <= f < pf,
    ;
}

/// Parses the unsigned decimal that starts at `start` and runs to the end of `s`.
#[verifier::rlimit(100)]
fn parse_unsigned(s: &str, len: usize, start: usize) -> (r: Option<i64>)
    requires
        len == s@.len(),
        start <= len,
    ensures
        match unsigned_micros(s@.skip(start as int)) {
            Some(m) => r == Some(m as i64) && 0 <= m < MAX_MICROS,
            None => r is None,
        },
{
    let ghost body = s@.skip(start as int);
    proof {
        lemma_digit_run_le_len(body);
        lemma_pow10_values();
    }
    let (end, z1, w) = match read_significant(s, len, start, MAX_MANTISSA_DIGITS) {
        None => {
            return None;
        },
        Some(p) => p,
    };
    let sig = end - start - z1;
    let ghost n = end - start;
    let ghost whole = body.take(n);
    let ghost after = body.skip(n);
    assert(after =~= s@.skip(end as int));
    let mut pos = end;
    let mut frac_len: usize = 0;
    let mut m: i128 = w;
    if end < len && s.get_char(end) == '.' {
        assert(after.skip(1) =~= s@.skip(end + 1));
        proof {
            lemma_digit_run_le_len(after.skip(1));
        }
        if sig > 0 {
            match digit_span(s, len, end + 1, MAX_MANTISSA_DIGITS - sig) {
                None => {
                    return None;
                },
                Some((fend, fv)) => {
                    assert(after.skip(1).skip(fend - end - 1) =~= s@.skip(fend as int));
                    pos = fend;
                    frac_len = fend - end - 1;
                    proof {
                        lemma_mantissa_bound(w as int, fv as int, sig as nat, frac_len as nat);
                    }
                    let p = pow10_exec(frac_len);
                    m = w * p + fv;
                    assert(fraction_part(after).0 =~= s@.skip(end + 1).take(fend - end - 1));
                    assert(m == digits_value(whole) * pow10(frac_len as nat) + digits_value(
                        fraction_part(after).0,
                    ));
                },
            }
        } else {
            match read_significant(s, len, end + 1, MAX_MANTISSA_DIGITS) {
                None => {
                    return None;
                },
                Some((fend, z2, fv)) => {
                    assert(after.skip(1).skip(fend - end - 1) =~= s@.skip(fend as int));
                    pos = fend;
                    frac_len = fend - end - 1;
                    proof {
                        lemma_pow10_mono((fend - end - 1 - z2) as nat, MAX_MANTISSA_DIGITS as nat);
                    }
                    m = fv;
                    assert(fraction_part(after).0 =~= s@.skip(end + 1).take(fend - end - 1));
                    assert(w == 0);
                    assert(digits_value(whole) * pow10(frac_len as nat) == 0);
                },
            }
        }
    } else {
        assert(fraction_part(after).0 =~= Seq::<char>::empty());
        proof {
            lemma_pow10_mono(sig as nat, MAX_MANTISSA_DIGITS as nat);
        }
        assert(digits_value(fraction_part(after).0) == 0);
    }
    let ghost frac = fraction_part(after).0;
    assert(frac.len() == frac_len);
    assert(fraction_part(after).1 =~= s@.skip(pos as int));
    assert(m == digits_value(whole) * pow10(frac.len()) + digits_value(frac));
    assert(0 <= m < pow10(MAX_MANTISSA_DIGITS as nat));
    if (end - start) + frac_len == 0 {
        return None;
    }
    let e = match read_exponent(s, len, pos) {
        None => {
            return None;
        },
        Some(e) => e,
    };
    let ghost real_e = exponent_of(fraction_part(after).1)->0;
    proof {
        if real_e > EXPONENT_CAP || real_e < -EXPONENT_CAP {
            lemma_scaled_far(m as int, real_e - frac_len + 3, e - frac_len + 3);
        }
    }
    scale_micros(m, e - frac_len as i128 + 3)
}

/// Parses a decimal number of millimetres (`-12`, `880.5`, `+.25`, `3.`,
/// `1.98e3`) into micrometres, rounded to the nearest one: `None` when the text
/// is malformed, when its mantissa holds more than `MAX_MANTISSA_DIGITS` digits
/// after its leading zeros, or when the rounded value is not below `MAX_MICROS`
/// in size.
pub fn parse_micros(s: &str) -> (r: Option<i64>)
    ensures
        match parse_model(s@) {
            Some(m) => r == Some(m as i64) && -MAX_MICROS < m < MAX_MICROS,
            None => r is None,
        },
{
    let len = s.unicode_len();
    if len > 0 {
        let c = s.get_char(0);
        if c == '-' {
            return match parse_unsigned(s, len, 1) {
                Some(m) => Some(-m),
                None => None,
            };
        } else if c == '+' {
            return parse_unsigned(s, len, 1);
        }
    }
    assert(s@.skip(0) =~= s@);
    parse_unsigned(s, len, 0)
}

} // verus!
