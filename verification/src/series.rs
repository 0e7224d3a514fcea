//! Price-history series: parsing a provider response into fixed-point
//! points, and normalizing a series into plottable bounds.
//!
//! The provider answers with a JSON object whose `prices` member is an
//! array of `[timestamp_ms, price_usd]` pairs. The parser here reads
//! exactly that shape from the raw bytes — other members are skipped —
//! and converts each number to milli-units of its natural unit. A
//! timestamp arrives as a millisecond count and is divided by 1000 into
//! seconds, so its milli-unit representation is numerically the
//! millisecond count itself. Numbers follow the JSON grammar — optional
//! sign, integer digits, optional fraction, optional exponent — and are
//! truncated toward zero at milli precision; a number is refused only
//! when its milli value cannot be represented in a signed 64-bit word.

use vstd::prelude::*;

verus! {

/// Why a series could not be loaded.
#[derive(Clone, Copy, Debug, PartialEq, Eq, Structural)]
pub enum FetchError {
    /// The transport call failed; no response body exists.
    Network,
    /// The response body does not match the expected shape.
    Parse,
    /// The series has zero points, so bounds are undefined.
    Empty,
}

/// One sample of an asset's price history: time in milli-seconds since
/// the epoch, price in milli-dollars.
#[derive(Clone, Copy, Debug, PartialEq, Eq, Structural)]
pub struct PricePoint {
    pub time: i64,
    pub usd: i64,
}

// ---------------------------------------------------------------------
// Lexical layer: whitespace, digit runs, numbers, strings.
// ---------------------------------------------------------------------

/// JSON whitespace.
pub open spec fn is_ws(c: u8) -> bool {
    c == 32 || c == 9 || c == 10 || c == 13
}

/// The first index at or after `i` holding a non-whitespace byte.
pub open spec fn spec_ws(s: Seq<u8>, i: int) -> int
    decreases s.len() - i,
{
    if i < s.len() && is_ws(s[i]) {
        spec_ws(s, i + 1)
    } else {
        i
    }
}

/// The first index at or after `i` holding a non-digit byte.
pub open spec fn spec_digits_end(s: Seq<u8>, i: int) -> int
    decreases s.len() - i,
{
    if i < s.len() && 48 <= s[i] <= 57 {
        spec_digits_end(s, i + 1)
    } else {
        i
    }
}

/// The value of the decimal digit run `s[i..j)`.
pub open spec fn digits_val(s: Seq<u8>, i: int, j: int) -> int
    decreases j - i,
{
    if j <= i {
        0
    } else {
        digits_val(s, i, j - 1) * 10 + (s[j - 1] - 48)
    }
}

/// Powers of ten.
pub open spec fn pow10(n: int) -> int
    decreases n,
{
    if n <= 0 {
        1
    } else {
        10 * pow10(n - 1)
    }
}

/// A JSON number starting exactly at `i`: an optional minus sign, an
/// integer digit run, an optional fraction, an optional exponent. Its
/// value, truncated toward zero at milli precision, and the index just
/// past it; nothing if no number starts there or the milli value does
/// not fit a 64-bit signed word (the only cap the representation forces).
pub open spec fn spec_number(s: Seq<u8>, i: int) -> Option<(int, int)> {
    let neg = i < s.len() && s[i] == 45;
    let d0 = if neg { i + 1 } else { i };
    let de = spec_digits_end(s, d0);
    if de == d0 {
        Option::None
    } else if de < s.len() && s[de] == 46 {
        let fe = spec_digits_end(s, de + 1);
        if fe == de + 1 {
            Option::None
        } else {
            spec_number_exp(s, neg, d0, de, de + 1, fe)
        }
    } else {
        spec_number_exp(s, neg, d0, de, de, de)
    }
}

/// The exponent part of a number whose mantissa runs are fixed
/// (`[fs, fe)` is empty when there is no fraction).
pub open spec fn spec_number_exp(
    s: Seq<u8>,
    neg: bool,
    d0: int,
    de: int,
    fs: int,
    fe: int,
) -> Option<(int, int)> {
    if fe < s.len() && (s[fe] == 101 || s[fe] == 69) {
        let p1 = fe + 1;
        let eneg = p1 < s.len() && s[p1] == 45;
        let epos = p1 < s.len() && s[p1] == 43;
        let p2 = if eneg || epos { p1 + 1 } else { p1 };
        let ee = spec_digits_end(s, p2);
        if ee == p2 {
            Option::None
        } else if eneg {
            spec_number_value(s, neg, d0, de, fs, fe, -digits_val(s, p2, ee), ee)
        } else {
            spec_number_value(s, neg, d0, de, fs, fe, digits_val(s, p2, ee), ee)
        }
    } else {
        spec_number_value(s, neg, d0, de, fs, fe, 0, fe)
    }
}

/// The milli-unit value of `(int digits).(fraction digits) * 10^ex`:
/// the exact mantissa integer shifted so that the milli place is the
/// last kept digit, lower digits truncated (toward zero; the sign is
/// applied afterwards).
pub open spec fn spec_number_value(
    s: Seq<u8>,
    neg: bool,
    d0: int,
    de: int,
    fs: int,
    fe: int,
    ex: int,
    end: int,
) -> Option<(int, int)> {
    let n2 = fe - fs;
    let m = digits_val(s, d0, de) * pow10(n2) + digits_val(s, fs, fe);
    let k = ex + 3 - n2;
    let v = if k >= 0 {
        m * pow10(k)
    } else {
        m / pow10(0 - k)
    };
    let sv = if neg {
        -v
    } else {
        v
    };
    if -9223372036854775808 <= sv <= 9223372036854775807 {
        Option::Some((sv, end))
    } else {
        Option::None
    }
}

/// The index just past the closing quote of a string whose contents start
/// at `i` (the opening quote already consumed), or nothing if unclosed.
pub open spec fn spec_string_end(s: Seq<u8>, i: int) -> Option<int>
    decreases s.len() - i,
{
    if i >= s.len() {
        Option::None
    } else if s[i] == 34 {
        Option::Some(i + 1)
    } else if s[i] == 92 {
        if i + 1 < s.len() {
            spec_string_end(s, i + 2)
        } else {
            Option::None
        }
    } else {
        spec_string_end(s, i + 1)
    }
}

/// Everything before a delimiter counts as one primitive token.
pub open spec fn is_delim(c: u8) -> bool {
    is_ws(c) || c == 44 || c == 93 || c == 125
}

/// The first index at or after `i` holding a delimiter byte.
pub open spec fn spec_prim_end(s: Seq<u8>, i: int) -> int
    decreases s.len() - i,
{
    if i < s.len() && !is_delim(s[i]) {
        spec_prim_end(s, i + 1)
    } else {
        i
    }
}

/// Mirrors `spec_ws`.
fn skip_ws(s: &Vec<u8>, i: usize) -> (r: usize)
    requires
        i <= s@.len(),
    ensures
        r == spec_ws(s@, i as int),
        i <= r <= s@.len(),
    decreases s@.len() - i,
{
    if i < s.len() && (s[i] == 32 || s[i] == 9 || s[i] == 10 || s[i] == 13) {
        skip_ws(s, i + 1)
    } else {
        i
    }
}

/// Mirrors `spec_digits_end`.
fn digits_end(s: &Vec<u8>, i: usize) -> (r: usize)
    requires
        i <= s@.len(),
    ensures
        r == spec_digits_end(s@, i as int),
        i <= r <= s@.len(),
    decreases s@.len() - i,
{
    if i < s.len() && 48 <= s[i] && s[i] <= 57 {
        digits_end(s, i + 1)
    } else {
        i
    }
}

/// Every byte of a digit run is a digit.
proof fn lemma_digits_range(s: Seq<u8>, i: int)
    requires
        0 <= i,
    ensures
        forall|k: int| i <= k < spec_digits_end(s, i) ==> 48 <= #[trigger] s[k] <= 57,
    decreases s.len() - i,
{
    if i < s.len() && 48 <= s[i] <= 57 {
        lemma_digits_range(s, i + 1);
    }
}

/// The value of a digit run of at most 20 digits.
fn dv_exec(c: &Vec<u8>, i: usize, j: usize) -> (r: u128)
    requires
        i <= j <= c@.len(),
        j - i <= 20,
        forall|m: int| i <= m < j ==> 48 <= #[trigger] c@[m] <= 57,
    ensures
        r == digits_val(c@, i as int, j as int),
        0 <= r < pow10((j - i) as int),
{
    proof {
        reveal_with_fuel(pow10, 22);
    }
    let mut acc: u128 = 0;
    let mut k: usize = i;
    while k < j
        invariant
            i <= k <= j <= c@.len(),
            j - i <= 20,
            acc == digits_val(c@, i as int, k as int),
            0 <= acc < pow10(k - i),
            forall|m: int| i <= m < j ==> 48 <= #[trigger] c@[m] <= 57,
        decreases j - k,
    {
        proof {
            lemma_pow10_mono(k + 1 - i, 20);
            reveal_with_fuel(pow10, 22);
        }
        acc = acc * 10 + (c[k] - 48) as u128;
        k = k + 1;
    }
    acc
}

/// `10^k` for small `k`.
fn pow10_exec(k: usize) -> (r: u128)
    requires
        k <= 20,
    ensures
        r == pow10(k as int),
{
    proof {
        reveal_with_fuel(pow10, 22);
    }
    let mut r: u128 = 1;
    let mut i: usize = 0;
    while i < k
        invariant
            i <= k <= 20,
            r == pow10(i as int),
        decreases k - i,
    {
        proof {
            lemma_pow10_mono(i + 1, 20);
            reveal_with_fuel(pow10, 22);
        }
        r = r * 10;
        i = i + 1;
    }
    r
}

/// A digit run's value is non-negative and below the power of ten of
/// its width.
proof fn lemma_dv_bound(s: Seq<u8>, i: int, j: int)
    requires
        i <= j,
        forall|m: int| i <= m < j ==> 48 <= #[trigger] s[m] <= 57,
    ensures
        0 <= digits_val(s, i, j) < pow10(j - i),
    decreases j - i,
{
    if j > i {
        lemma_dv_bound(s, i, j - 1);
    }
}

/// Splitting a digit run at `p` splits its value by place.
proof fn lemma_dv_split(s: Seq<u8>, i: int, p: int, j: int)
    requires
        i <= p <= j,
    ensures
        digits_val(s, i, j) == digits_val(s, i, p) * pow10(j - p) + digits_val(s, p, j),
    decreases j - p,
{
    if p == j {
    } else {
        lemma_dv_split(s, i, p, j - 1);
        let a = digits_val(s, i, p);
        let pa = pow10(j - 1 - p);
        let pb = pow10(j - p);
        assert(pb == 10 * pa);
        assert(a * pa * 10 == a * pb) by (nonlinear_arith)
            requires pb == 10 * pa;
    }
}

/// Two equal digit runs have equal values, wherever they sit.
proof fn lemma_dv_eq_runs(x: Seq<u8>, i: int, j: int, y: Seq<u8>, p: int)
    requires
        0 <= j - i,
        forall|m: int| 0 <= m < j - i ==> #[trigger] x[i + m] == y[p + m],
    ensures
        digits_val(x, i, j) == digits_val(y, p, p + (j - i)),
    decreases j - i,
{
    if j > i {
        lemma_dv_eq_runs(x, i, j - 1, y, p);
        assert(x[i + (j - i - 1)] == y[p + (j - i - 1)]);
    }
}

/// Leading zeros do not change a digit run's value.
proof fn lemma_dv_strip_zeros(s: Seq<u8>, i: int, z: int, j: int)
    requires
        i <= z <= j,
        forall|m: int| i <= m < z ==> #[trigger] s[m] == 48,
    ensures
        digits_val(s, i, j) == digits_val(s, z, j),
    decreases z - i,
{
    if z > i {
        lemma_dv_split(s, i, i + 1, j);
        assert(digits_val(s, i, i) == 0);
        assert(digits_val(s, i, i + 1) == 0);
        assert(0 * pow10(j - (i + 1)) == 0) by (nonlinear_arith);
        lemma_dv_strip_zeros(s, i + 1, z, j);
    }
}

/// A run whose first digit is non-zero is at least its leading place.
proof fn lemma_dv_lower(s: Seq<u8>, z: int, j: int)
    requires
        z < j,
        49 <= s[z] <= 57,
        forall|m: int| z <= m < j ==> 48 <= #[trigger] s[m] <= 57,
    ensures
        digits_val(s, z, j) >= pow10(j - z - 1),
    decreases j - z,
{
    if j == z + 1 {
        assert(digits_val(s, z, z) == 0);
    } else {
        lemma_dv_lower(s, z, j - 1);
        assert(48 <= s[j - 1] <= 57);
        assert(pow10(j - z - 1) == 10 * pow10(j - z - 2));
    }
}

/// Powers of ten multiply by adding exponents.
proof fn lemma_pow10_add(a: int, b: int)
    requires
        0 <= a,
        0 <= b,
    ensures
        pow10(a + b) == pow10(a) * pow10(b),
    decreases b,
{
    if b == 0 {
    } else {
        lemma_pow10_add(a, b - 1);
        let pa = pow10(a);
        let pb1 = pow10(b - 1);
        assert(pa * (10 * pb1) == 10 * (pa * pb1)) by (nonlinear_arith);
    }
}

/// Powers of ten grow with the exponent./// Powers of ten grow with the exponent.
proof fn lemma_pow10_mono(a: int, b: int)
    requires
        a <= b,
    ensures
        0 < pow10(a) <= pow10(b),
    decreases b - a + if b >= 0 { b } else { 0 },
{
    if a < b {
        lemma_pow10_mono(a, b - 1);
    } else {
        lemma_pow10_pos(a);
    }
}

proof fn lemma_pow10_pos(a: int)
    ensures
        0 < pow10(a),
    decreases if a >= 0 { a } else { 0 },
{
    if a > 0 {
        lemma_pow10_pos(a - 1);
    }
}

/// Mirrors `spec_number`.
fn parse_number(s: &Vec<u8>, i: usize) -> (r: Option<(i64, usize)>)
    requires
        i <= s@.len(),
    ensures
        spec_number(s@, i as int) is None ==> r is None,
        spec_number(s@, i as int) matches Some(ve) ==> {
            &&& r matches Some(re)
            &&& re.0 == ve.0
            &&& re.1 == ve.1
            &&& i < re.1 <= s@.len()
        },
{
    let neg: bool = i < s.len() && s[i] == 45;
    let d0: usize = if neg { i + 1 } else { i };
    let de: usize = digits_end(s, d0);
    if de == d0 {
        return Option::None;
    }
    let has_frac: bool = de < s.len() && s[de] == 46;
    let fs: usize = if has_frac { de + 1 } else { de };
    let fe: usize = if has_frac { digits_end(s, de + 1) } else { de };
    if has_frac && fe == de + 1 {
        return Option::None;
    }
    let has_exp: bool = fe < s.len() && (s[fe] == 101 || s[fe] == 69);
    let mut eneg: bool = false;
    let mut p2: usize = fe;
    let mut ee: usize = fe;
    let mut end: usize = fe;
    if has_exp {
        let p1: usize = fe + 1;
        eneg = p1 < s.len() && s[p1] == 45;
        let epos: bool = p1 < s.len() && s[p1] == 43;
        p2 = if eneg || epos { p1 + 1 } else { p1 };
        ee = digits_end(s, p2);
        if ee == p2 {
            return Option::None;
        }
        end = ee;
    }
    number_value(s, neg, d0, de, fs, fe, has_exp, eneg, p2, ee, end)
}

/// Computes the milli value of a syntactically complete number whose
/// runs have been located, deciding the 64-bit fit exactly.
#[verifier::rlimit(100)]
fn number_value(
    s: &Vec<u8>,
    neg: bool,
    d0: usize,
    de: usize,
    fs: usize,
    fe: usize,
    has_exp: bool,
    eneg: bool,
    p2: usize,
    ee: usize,
    end: usize,
) -> (r: Option<(i64, usize)>)
    requires
        d0 < de <= s@.len(),
        fs <= fe <= s@.len(),
        fs == fe || fs == de + 1,
        fs == fe ==> fs == de,
        spec_digits_end(s@, d0 as int) == de,
        fs < fe ==> spec_digits_end(s@, fs as int) == fe,
        has_exp ==> fe < p2 < ee <= s@.len() && spec_digits_end(s@, p2 as int) == ee && end == ee,
        !has_exp ==> end == fe,
    ensures
        ({
            let ex = if has_exp {
                if eneg {
                    -digits_val(s@, p2 as int, ee as int)
                } else {
                    digits_val(s@, p2 as int, ee as int)
                }
            } else {
                0int
            };
            let sp = spec_number_value(s@, neg, d0 as int, de as int, fs as int, fe as int, ex, end as int);
            &&& (sp is None ==> r is None)
            &&& (sp matches Some(ve) ==> r matches Some(re) && re.0 == ve.0 && re.1 == ve.1)
        }),
{
    let ghost ii = digits_val(s@, d0 as int, de as int);
    let ghost ff = digits_val(s@, fs as int, fe as int);
    let ghost mspec = ii * pow10((fe - fs) as int) + ff;
    let ghost exspec: int = if has_exp {
        if eneg {
            -digits_val(s@, p2 as int, ee as int)
        } else {
            digits_val(s@, p2 as int, ee as int)
        }
    } else {
        0int
    };
    let ghost kspec = exspec + 3 - (fe - fs);
    let ghost vspec: int = if kspec >= 0 {
        mspec * pow10(kspec)
    } else {
        mspec / pow10(0 - kspec)
    };
    proof {
        lemma_digits_range(s@, d0 as int);
        if fs < fe {
            lemma_digits_range(s@, fs as int);
        }
        lemma_dv_bound(s@, d0 as int, de as int);
        lemma_dv_bound(s@, fs as int, fe as int);
    }
    let n1: usize = de - d0;
    let n2: usize = fe - fs;
    // the mantissa digits, integer part then fraction, as one run
    let mut c: Vec<u8> = Vec::new();
    let mut a: usize = d0;
    while a < de
        invariant
            d0 <= a <= de <= s@.len(),
            c@.len() == a - d0,
            forall|m: int| 0 <= m < a - d0 ==> #[trigger] c@[m] == s@[d0 + m],
        decreases de - a,
    {
        let byte: u8 = s[a];
        c.push(byte);
        a = a + 1;
    }
    let mut b: usize = fs;
    while b < fe
        invariant
            fs <= b <= fe <= s@.len(),
            d0 < de <= s@.len(),
            n1 == de - d0,
            c@.len() == n1 + (b - fs),
            forall|m: int| 0 <= m < n1 ==> #[trigger] c@[m] == s@[d0 + m],
            forall|m: int| 0 <= m < b - fs ==> #[trigger] c@[n1 + m] == s@[fs + m],
        decreases fe - b,
    {
        let byte: u8 = s[b];
        c.push(byte);
        b = b + 1;
    }
    let n: usize = c.len();
    proof {
        assert forall|m: int| 0 <= m < n implies 48 <= #[trigger] c@[m] <= 57 by {
            if m < n1 {
                assert(c@[m] == s@[d0 + m]);
            } else {
                assert(c@[n1 + (m - n1)] == s@[fs + (m - n1)]);
            }
        }
        lemma_dv_eq_runs(c@, 0, n1 as int, s@, d0 as int);
        lemma_dv_eq_runs(c@, n1 as int, n as int, s@, fs as int);
        lemma_dv_split(c@, 0, n1 as int, n as int);
        assert(digits_val(c@, 0, n as int) == mspec);
    }
    // strip leading zeros to count the significant digits
    let mut z: usize = 0;
    while z < n && c[z] == 48
        invariant
            z <= n == c@.len(),
            forall|m: int| 0 <= m < z ==> #[trigger] c@[m] == 48,
        decreases n - z,
    {
        z = z + 1;
    }
    proof {
        lemma_dv_strip_zeros(c@, 0, z as int, n as int);
        lemma_dv_bound(c@, z as int, n as int);
        assert(digits_val(c@, z as int, n as int) == mspec);
    }
    let msig: usize = n - z;
    if msig == 0 {
        proof {
            lemma_value_of_zero_mantissa(mspec, kspec);
        }
        return Option::Some((0, end));
    }
    proof {
        lemma_dv_lower(c@, z as int, n as int);
        assert(mspec >= pow10((msig - 1) as int));
    }
    // exponent magnitude
    let mut exu: u128 = 0;
    if has_exp {
        proof {
            lemma_digits_range(s@, p2 as int);
        }
        let mut ez: usize = p2;
        while ez < ee && s[ez] == 48
            invariant
                p2 <= ez <= ee <= s@.len(),
                forall|m: int| p2 <= m < ez ==> #[trigger] s@[m] == 48,
            decreases ee - ez,
        {
            ez = ez + 1;
        }
        proof {
            lemma_dv_strip_zeros(s@, p2 as int, ez as int, ee as int);
            lemma_dv_bound(s@, ez as int, ee as int);
        }
        if ee - ez > 20 {
            // the exponent magnitude dwarfs every representable shift
            proof {
                assert(48 <= s@[ez as int] <= 57);
                assert(s@[ez as int] != 48);
                lemma_dv_lower(s@, ez as int, ee as int);
                lemma_pow10_mono(20, (ee - ez) as int - 1);
                reveal_with_fuel(pow10, 23);
                assert(pow10(20) == 100000000000000000000);
                assert(digits_val(s@, p2 as int, ee as int) >= pow10(20));
            }
            if eneg {
                proof {
                    assert(msig + kspec < 0);
                    lemma_pow10_mono(msig as int, 0 - kspec);
                    lemma_value_truncates_to_zero(mspec, kspec, msig as int);
                }
                return Option::Some((0, end));
            } else {
                proof {
                    assert(kspec >= 20);
                    lemma_value_overflows_mul(mspec, kspec, msig as int);
                }
                return Option::None;
            }
        }
        exu = dv_exec(s, ez, ee);
        proof {
            assert(exu == digits_val(s@, p2 as int, ee as int));
            reveal_with_fuel(pow10, 22);
            assert(exu < pow10(21));
        }
    }
    let exi: i128 = if eneg {
        -(exu as i128)
    } else {
        exu as i128
    };
    let ki: i128 = exi + 3 - (n2 as i128);
    proof {
        assert(ki == kspec);
    }
    if ki >= 0 {
        if msig as i128 + ki > 19 {
            proof {
                lemma_value_overflows_mul(mspec, kspec, msig as int);
            }
            return Option::None;
        }
        let ku: usize = ki as usize;
        let mu: u128 = dv_exec(&c, z, n);
        let p: u128 = pow10_exec(ku);
        proof {
            lemma_pow10_add(msig as int, kspec);
            lemma_pow10_mono(msig as int + kspec, 19);
            reveal_with_fuel(pow10, 22);
            assert(mu * p < pow10(msig as int) * pow10(kspec)) by (nonlinear_arith)
                requires mu < pow10(msig as int), p == pow10(kspec), 0 <= mu, 0 < p;
        }
        let vu: u128 = mu * p;
        proof {
            assert(vu == vspec);
        }
        finish_number(neg, vu, end, Ghost(vspec))
    } else {
        if msig as i128 + ki <= 0 {
            proof {
                lemma_pow10_mono(msig as int, 0 - kspec);
                lemma_value_truncates_to_zero(mspec, kspec, msig as int);
            }
            return Option::Some((0, end));
        }
        let t: usize = (msig as i128 + ki) as usize;
        if t > 19 {
            proof {
                lemma_value_overflows_div(mspec, kspec, msig as int, t as int);
            }
            return Option::None;
        }
        let au: u128 = dv_exec(&c, z, z + t);
        proof {
            lemma_dv_split(c@, z as int, (z + t) as int, n as int);
            lemma_dv_bound(c@, (z + t) as int, n as int);
            let bb = digits_val(c@, (z + t) as int, n as int);
            lemma_pow10_pos(0 - kspec);
            assert((au * pow10(0 - kspec) + bb) / pow10(0 - kspec) == au) by (nonlinear_arith)
                requires 0 <= bb < pow10(0 - kspec), 0 <= au, 0 < pow10(0 - kspec);
            assert(au == vspec);
        }
        finish_number(neg, au, end, Ghost(vspec))
    }
}

/// Applies the sign and decides the 64-bit milli fit exactly.
fn finish_number(neg: bool, vu: u128, end: usize, vspec: Ghost<int>) -> (r: Option<(i64, usize)>)
    requires
        vu == vspec@,
    ensures
        ({
            let sv: int = if neg { -vspec@ } else { vspec@ };
            &&& (-9223372036854775808 <= sv <= 9223372036854775807 ==> r == Option::Some((sv as i64, end)))
            &&& (!(-9223372036854775808 <= sv <= 9223372036854775807) ==> r is None)
        }),
{
    if neg {
        if vu > 9223372036854775808u128 {
            Option::None
        } else if vu == 9223372036854775808u128 {
            Option::Some((i64::MIN, end))
        } else {
            Option::Some((-(vu as i64), end))
        }
    } else {
        if vu > 9223372036854775807u128 {
            Option::None
        } else {
            Option::Some((vu as i64, end))
        }
    }
}

/// A zero mantissa gives value zero under any shift.
proof fn lemma_value_of_zero_mantissa(m: int, k: int)
    requires
        m == 0,
    ensures
        (if k >= 0 { m * pow10(k) } else { m / pow10(0 - k) }) == 0,
{
    if k >= 0 {
        assert(m * pow10(k) == 0) by (nonlinear_arith)
            requires m == 0;
    } else {
        lemma_pow10_pos(0 - k);
        assert(m / pow10(0 - k) == 0) by (nonlinear_arith)
            requires m == 0, 0 < pow10(0 - k);
    }
}

/// Shifting below all significant digits truncates the value to zero.
proof fn lemma_value_truncates_to_zero(m: int, k: int, msig: int)
    requires
        k < 0,
        msig + k <= 0,
        0 <= m < pow10(msig),
    ensures
        m / pow10(0 - k) == 0,
{
    lemma_pow10_mono(msig, 0 - k);
    lemma_pow10_pos(0 - k);
    assert(m / pow10(0 - k) == 0) by (nonlinear_arith)
        requires 0 <= m < pow10(0 - k), 0 < pow10(0 - k);
}

/// A non-zero mantissa shifted 20 or more places above milli overflows
/// the signed 64-bit range.
proof fn lemma_value_overflows_mul(m: int, k: int, msig: int)
    requires
        k >= 0,
        msig >= 1,
        msig + k >= 20,
        m >= pow10(msig - 1),
    ensures
        m * pow10(k) > 9223372036854775808,
{
    lemma_pow10_add(msig - 1, k);
    lemma_pow10_pos(k);
    lemma_pow10_pos(msig - 1);
    assert(m * pow10(k) >= pow10(msig - 1) * pow10(k)) by (nonlinear_arith)
        requires m >= pow10(msig - 1), 0 < pow10(k);
    lemma_pow10_mono(19, msig - 1 + k);
    reveal_with_fuel(pow10, 21);
}

/// A value with 20 or more digits above the truncation point overflows
/// the signed 64-bit range.
proof fn lemma_value_overflows_div(m: int, k: int, msig: int, t: int)
    requires
        k < 0,
        t == msig + k,
        t >= 20,
        m >= pow10(msig - 1),
    ensures
        m / pow10(0 - k) > 9223372036854775808,
{
    lemma_pow10_add(t - 1, 0 - k);
    lemma_pow10_pos(0 - k);
    lemma_pow10_pos(t - 1);
    assert(m / pow10(0 - k) >= pow10(t - 1)) by (nonlinear_arith)
        requires m >= pow10(t - 1) * pow10(0 - k), 0 < pow10(0 - k), 0 <= pow10(t - 1);
    lemma_pow10_mono(19, t - 1);
    reveal_with_fuel(pow10, 21);
}

/// Mirrors `spec_string_end`.
fn string_end(s: &Vec<u8>, i: usize) -> (r: Option<usize>)
    requires
        i <= s@.len(),
    ensures
        spec_string_end(s@, i as int) is None ==> r is None,
        spec_string_end(s@, i as int) matches Some(e) ==> {
            &&& r == Option::Some(e as usize)
            &&& i < e <= s@.len()
        },
    decreases s@.len() - i,
{
    if i >= s.len() {
        Option::None
    } else if s[i] == 34 {
        Option::Some(i + 1)
    } else if s[i] == 92 {
        if i + 1 < s.len() {
            string_end(s, i + 2)
        } else {
            Option::None
        }
    } else {
        string_end(s, i + 1)
    }
}

/// Mirrors `spec_prim_end`.
fn prim_end(s: &Vec<u8>, i: usize) -> (r: usize)
    requires
        i <= s@.len(),
    ensures
        r == spec_prim_end(s@, i as int),
        i <= r <= s@.len(),
    decreases s@.len() - i,
{
    if i < s.len() {
        let c: u8 = s[i];
        if !(c == 32 || c == 9 || c == 10 || c == 13 || c == 44 || c == 93 || c == 125) {
            return prim_end(s, i + 1);
        }
        i
    } else {
        i
    }
}

// ---------------------------------------------------------------------
// Structural layer: skipping arbitrary members, parsing the pairs.
// ---------------------------------------------------------------------

/// The index just past a complete value starting at or after `i`, or
/// nothing if the text is malformed. `fuel` bounds the lookahead and is
/// always at least the remaining length in practice.
pub open spec fn spec_skip_value(s: Seq<u8>, i: int, fuel: nat) -> Option<int>
    decreases fuel, 0int,
{
    if fuel == 0 {
        Option::None
    } else {
        let j = spec_ws(s, i);
        if j >= s.len() {
            Option::None
        } else if s[j] == 34 {
            spec_string_end(s, j + 1)
        } else if s[j] == 91 {
            spec_skip_elems(s, j + 1, (fuel - 1) as nat)
        } else if s[j] == 123 {
            spec_skip_members(s, j + 1, (fuel - 1) as nat)
        } else {
            let e = spec_prim_end(s, j);
            if e == j {
                Option::None
            } else {
                Option::Some(e)
            }
        }
    }
}

/// Skips array elements up to and past the closing bracket.
pub open spec fn spec_skip_elems(s: Seq<u8>, i: int, fuel: nat) -> Option<int>
    decreases fuel, 1int,
{
    if fuel == 0 {
        Option::None
    } else {
        let j = spec_ws(s, i);
        if j < s.len() && s[j] == 93 {
            Option::Some(j + 1)
        } else {
            match spec_skip_value(s, i, (fuel - 1) as nat) {
                Option::None => Option::None,
                Option::Some(e) => {
                    let k = spec_ws(s, e);
                    if k < s.len() && s[k] == 44 {
                        spec_skip_elems(s, k + 1, (fuel - 1) as nat)
                    } else if k < s.len() && s[k] == 93 {
                        Option::Some(k + 1)
                    } else {
                        Option::None
                    }
                }
            }
        }
    }
}

/// Skips object members up to and past the closing brace.
pub open spec fn spec_skip_members(s: Seq<u8>, i: int, fuel: nat) -> Option<int>
    decreases fuel, 1int,
{
    if fuel == 0 {
        Option::None
    } else {
        let j = spec_ws(s, i);
        if j >= s.len() {
            Option::None
        } else if s[j] == 125 {
            Option::Some(j + 1)
        } else if s[j] == 34 {
            match spec_string_end(s, j + 1) {
                Option::None => Option::None,
                Option::Some(ke) => {
                    let k = spec_ws(s, ke);
                    if k < s.len() && s[k] == 58 {
                        match spec_skip_value(s, k + 1, (fuel - 1) as nat) {
                            Option::None => Option::None,
                            Option::Some(e) => {
                                let q = spec_ws(s, e);
                                if q < s.len() && s[q] == 44 {
                                    spec_skip_members(s, q + 1, (fuel - 1) as nat)
                                } else if q < s.len() && s[q] == 125 {
                                    Option::Some(q + 1)
                                } else {
                                    Option::None
                                }
                            }
                        }
                    } else {
                        Option::None
                    }
                }
            }
        } else {
            Option::None
        }
    }
}

/// Mirrors `spec_skip_value`.
fn skip_value(s: &Vec<u8>, i: usize, fuel: usize) -> (r: Option<usize>)
    requires
        i <= s@.len(),
    ensures
        spec_skip_value(s@, i as int, fuel as nat) is None ==> r is None,
        spec_skip_value(s@, i as int, fuel as nat) matches Some(e) ==> {
            &&& r == Option::Some(e as usize)
            &&& 0 <= e <= s@.len()
        },
    decreases fuel, 0int,
{
    if fuel == 0 {
        return Option::None;
    }
    let j: usize = skip_ws(s, i);
    if j >= s.len() {
        Option::None
    } else if s[j] == 34 {
        string_end(s, j + 1)
    } else if s[j] == 91 {
        skip_elems(s, j + 1, fuel - 1)
    } else if s[j] == 123 {
        skip_members(s, j + 1, fuel - 1)
    } else {
        let e: usize = prim_end(s, j);
        if e == j {
            Option::None
        } else {
            Option::Some(e)
        }
    }
}

/// Mirrors `spec_skip_elems`.
fn skip_elems(s: &Vec<u8>, i: usize, fuel: usize) -> (r: Option<usize>)
    requires
        i <= s@.len(),
    ensures
        spec_skip_elems(s@, i as int, fuel as nat) is None ==> r is None,
        spec_skip_elems(s@, i as int, fuel as nat) matches Some(e) ==> {
            &&& r == Option::Some(e as usize)
            &&& 0 <= e <= s@.len()
        },
    decreases fuel, 1int,
{
    if fuel == 0 {
        return Option::None;
    }
    let j: usize = skip_ws(s, i);
    if j < s.len() && s[j] == 93 {
        return Option::Some(j + 1);
    }
    match skip_value(s, i, fuel - 1) {
        Option::None => Option::None,
        Option::Some(e) => {
            let k: usize = skip_ws(s, e);
            if k < s.len() && s[k] == 44 {
                skip_elems(s, k + 1, fuel - 1)
            } else if k < s.len() && s[k] == 93 {
                Option::Some(k + 1)
            } else {
                Option::None
            }
        }
    }
}

/// Mirrors `spec_skip_members`.
fn skip_members(s: &Vec<u8>, i: usize, fuel: usize) -> (r: Option<usize>)
    requires
        i <= s@.len(),
    ensures
        spec_skip_members(s@, i as int, fuel as nat) is None ==> r is None,
        spec_skip_members(s@, i as int, fuel as nat) matches Some(e) ==> {
            &&& r == Option::Some(e as usize)
            &&& 0 <= e <= s@.len()
        },
    decreases fuel, 1int,
{
    if fuel == 0 {
        return Option::None;
    }
    let j: usize = skip_ws(s, i);
    if j >= s.len() {
        Option::None
    } else if s[j] == 125 {
        Option::Some(j + 1)
    } else if s[j] == 34 {
        match string_end(s, j + 1) {
            Option::None => Option::None,
            Option::Some(ke) => {
                let k: usize = skip_ws(s, ke);
                if k < s.len() && s[k] == 58 {
                    match skip_value(s, k + 1, fuel - 1) {
                        Option::None => Option::None,
                        Option::Some(e) => {
                            let q: usize = skip_ws(s, e);
                            if q < s.len() && s[q] == 44 {
                                skip_members(s, q + 1, fuel - 1)
                            } else if q < s.len() && s[q] == 125 {
                                Option::Some(q + 1)
                            } else {
                                Option::None
                            }
                        }
                    }
                } else {
                    Option::None
                }
            }
        }
    } else {
        Option::None
    }
}

// ---------------------------------------------------------------------
// The prices member: `[[timestamp_ms, price_usd], ...]`.
// ---------------------------------------------------------------------

/// One `[timestamp_ms, price_usd]` pair starting exactly at `i`: the
/// resulting point (time the wire millisecond value over 1000, rounded
/// toward zero, so milli-seconds; price in milli-dollars) and the index
/// just past it.
pub open spec fn spec_pair(s: Seq<u8>, i: int) -> Option<(PricePoint, int)> {
    if i < s.len() && s[i] == 91 {
        let j = spec_ws(s, i + 1);
        match spec_number(s, j) {
            Option::None => Option::None,
            Option::Some((tv, te)) => {
                let k = spec_ws(s, te);
                if k < s.len() && s[k] == 44 {
                    let m = spec_ws(s, k + 1);
                    match spec_number(s, m) {
                        Option::None => Option::None,
                        Option::Some((pv, pe)) => {
                            let q = spec_ws(s, pe);
                            if q < s.len() && s[q] == 93 {
                                let tsec = if tv >= 0 { tv / 1000 } else { -((-tv) / 1000) };
                                Option::Some((
                                    PricePoint { time: tsec as i64, usd: pv as i64 },
                                    q + 1,
                                ))
                            } else {
                                Option::None
                            }
                        }
                    }
                } else {
                    Option::None
                }
            }
        }
    } else {
        Option::None
    }
}

/// The pairs of the prices array, starting after its opening bracket.
pub open spec fn spec_pairs(s: Seq<u8>, i: int, fuel: nat) -> Option<(Seq<PricePoint>, int)>
    decreases fuel,
{
    if fuel == 0 {
        Option::None
    } else {
        let j = spec_ws(s, i);
        if j < s.len() && s[j] == 93 {
            Option::Some((Seq::empty(), j + 1))
        } else {
            match spec_pair(s, j) {
                Option::None => Option::None,
                Option::Some((p, e)) => {
                    let k = spec_ws(s, e);
                    if k < s.len() && s[k] == 44 {
                        match spec_pairs(s, k + 1, (fuel - 1) as nat) {
                            Option::None => Option::None,
                            Option::Some((rest, e2)) => Option::Some((seq![p] + rest, e2)),
                        }
                    } else if k < s.len() && s[k] == 93 {
                        Option::Some((seq![p], k + 1))
                    } else {
                        Option::None
                    }
                }
            }
        }
    }
}

/// The whole prices value: a bracketed array of pairs.
pub open spec fn spec_prices_value(s: Seq<u8>, i: int, fuel: nat) -> Option<(Seq<PricePoint>, int)> {
    let j = spec_ws(s, i);
    if j < s.len() && s[j] == 91 {
        spec_pairs(s, j + 1, fuel)
    } else {
        Option::None
    }
}

/// The member name the loader extracts.
pub open spec fn prices_key() -> Seq<u8> {
    seq![112u8, 114u8, 105u8, 99u8, 101u8, 115u8]
}

/// Scans object members from `i`, remembering the last `prices` value
/// seen; `Some(found)` at the closing brace, `None` on malformed text.
pub open spec fn spec_find_prices(
    s: Seq<u8>,
    i: int,
    found: Option<Seq<PricePoint>>,
    fuel: nat,
) -> Option<Option<Seq<PricePoint>>>
    decreases fuel, 0int,
{
    if fuel == 0 {
        Option::None
    } else {
        let j = spec_ws(s, i);
        if j >= s.len() {
            Option::None
        } else if s[j] == 125 {
            Option::Some(found)
        } else if s[j] == 34 {
            match spec_string_end(s, j + 1) {
                Option::None => Option::None,
                Option::Some(ke) => {
                    let k = spec_ws(s, ke);
                    if k < s.len() && s[k] == 58 {
                        if s.subrange(j + 1, ke - 1) == prices_key() {
                            match spec_prices_value(s, k + 1, (fuel - 1) as nat) {
                                Option::None => Option::None,
                                Option::Some((pts, e)) =>
                                    spec_after_member(s, e, Option::Some(pts), (fuel - 1) as nat),
                            }
                        } else {
                            match spec_skip_value(s, k + 1, (fuel - 1) as nat) {
                                Option::None => Option::None,
                                Option::Some(e) => spec_after_member(s, e, found, (fuel - 1) as nat),
                            }
                        }
                    } else {
                        Option::None
                    }
                }
            }
        } else {
            Option::None
        }
    }
}

/// After one member: a comma continues the scan, a brace ends it.
pub open spec fn spec_after_member(
    s: Seq<u8>,
    e: int,
    found: Option<Seq<PricePoint>>,
    fuel: nat,
) -> Option<Option<Seq<PricePoint>>>
    decreases fuel, 1int,
{
    let q = spec_ws(s, e);
    if q < s.len() && s[q] == 44 {
        spec_find_prices(s, q + 1, found, fuel)
    } else if q < s.len() && s[q] == 125 {
        Option::Some(found)
    } else {
        Option::None
    }
}

/// The whole response: a JSON object carrying a `prices` member.
/// `Err(Parse)` covers both malformed text and a missing member.
pub open spec fn spec_parse_response(s: Seq<u8>) -> Result<Seq<PricePoint>, FetchError> {
    let j = spec_ws(s, 0);
    if j < s.len() && s[j] == 123 {
        match spec_find_prices(s, j + 1, Option::None, s.len()) {
            Option::None => Result::Err(FetchError::Parse),
            Option::Some(Option::None) => Result::Err(FetchError::Parse),
            Option::Some(Option::Some(pts)) => Result::Ok(pts),
        }
    } else {
        Result::Err(FetchError::Parse)
    }
}

/// Mirrors `spec_pair`.
fn parse_pair(s: &Vec<u8>, i: usize) -> (r: Option<(PricePoint, usize)>)
    requires
        i <= s@.len(),
    ensures
        spec_pair(s@, i as int) is None ==> r is None,
        spec_pair(s@, i as int) matches Some(pe) ==> {
            &&& r matches Some(re)
            &&& re.0 == pe.0
            &&& re.1 == pe.1
            &&& 0 <= pe.1 <= s@.len()
        },
{
    if i < s.len() && s[i] == 91 {
        let j: usize = skip_ws(s, i + 1);
        match parse_number(s, j) {
            Option::None => Option::None,
            Option::Some((tv, te)) => {
                let k: usize = skip_ws(s, te);
                if k < s.len() && s[k] == 44 {
                    let m: usize = skip_ws(s, k + 1);
                    match parse_number(s, m) {
                        Option::None => Option::None,
                        Option::Some((pv, pe)) => {
                            let q: usize = skip_ws(s, pe);
                            if q < s.len() && s[q] == 93 {
                                let time: i64 = if tv >= 0 {
                                    ((tv as u64) / 1000) as i64
                                } else {
                                    let mag: u64 = (-(tv as i128)) as u64;
                                    -((mag / 1000) as i64)
                                };
                                Option::Some((PricePoint { time, usd: pv }, q + 1))
                            } else {
                                Option::None
                            }
                        }
                    }
                } else {
                    Option::None
                }
            }
        }
    } else {
        Option::None
    }
}

/// Mirrors `spec_pairs`, building the points in order.
fn parse_pairs(s: &Vec<u8>, i: usize, fuel: usize) -> (r: Option<(Vec<PricePoint>, usize)>)
    requires
        i <= s@.len(),
    ensures
        spec_pairs(s@, i as int, fuel as nat) is None ==> r is None,
        spec_pairs(s@, i as int, fuel as nat) matches Some(pe) ==> {
            &&& r matches Some(re)
            &&& re.0@ == pe.0
            &&& re.1 == pe.1
            &&& 0 <= pe.1 <= s@.len()
        },
    decreases fuel,
{
    if fuel == 0 {
        return Option::None;
    }
    let j: usize = skip_ws(s, i);
    if j < s.len() && s[j] == 93 {
        let empty: Vec<PricePoint> = Vec::new();
        return Option::Some((empty, j + 1));
    }
    match parse_pair(s, j) {
        Option::None => Option::None,
        Option::Some((p, e)) => {
            let k: usize = skip_ws(s, e);
            if k < s.len() && s[k] == 44 {
                match parse_pairs(s, k + 1, fuel - 1) {
                    Option::None => Option::None,
                    Option::Some((mut rest, e2)) => {
                        rest.insert(0, p);
                        proof {
                            let ghost sp = spec_pairs(s@, i as int, fuel as nat);
                            assert(rest@ =~= sp->Some_0.0);
                        }
                        Option::Some((rest, e2))
                    }
                }
            } else if k < s.len() && s[k] == 93 {
                let mut one: Vec<PricePoint> = Vec::new();
                one.push(p);
                proof {
                    assert(one@ =~= seq![p]);
                }
                Option::Some((one, k + 1))
            } else {
                Option::None
            }
        }
    }
}

/// Compares a byte range against the `prices` member name.
fn is_prices_key(s: &Vec<u8>, lo: usize, hi: usize) -> (b: bool)
    requires
        lo <= hi <= s@.len(),
    ensures
        b == (s@.subrange(lo as int, hi as int) == prices_key()),
{
    if hi - lo != 6 {
        proof {
            assert(s@.subrange(lo as int, hi as int).len() == hi - lo);
        }
        return false;
    }
    let b: bool = s[lo] == 112 && s[lo + 1] == 114 && s[lo + 2] == 105 && s[lo + 3] == 99
        && s[lo + 4] == 101 && s[lo + 5] == 115;
    proof {
        let sub = s@.subrange(lo as int, hi as int);
        if b {
            assert(sub =~= prices_key());
        } else {
            if sub == prices_key() {
                assert(s@[lo as int] == sub[0]);
                assert(s@[lo + 1] == sub[1]);
                assert(s@[lo + 2] == sub[2]);
                assert(s@[lo + 3] == sub[3]);
                assert(s@[lo + 4] == sub[4]);
                assert(s@[lo + 5] == sub[5]);
            }
        }
    }
    b
}

/// The view of an optional point list.
pub open spec fn found_view(o: Option<Vec<PricePoint>>) -> Option<Seq<PricePoint>> {
    match o {
        Option::None => Option::None,
        Option::Some(v) => Option::Some(v@),
    }
}

/// Mirrors `spec_find_prices`.
fn find_prices(
    s: &Vec<u8>,
    i: usize,
    found: Option<Vec<PricePoint>>,
    fuel: usize,
) -> (r: Option<Option<Vec<PricePoint>>>)
    requires
        i <= s@.len(),
    ensures
        spec_find_prices(s@, i as int, found_view(found), fuel as nat) is None ==> r is None,
        spec_find_prices(s@, i as int, found_view(found), fuel as nat) matches Some(ff) ==> {
            &&& r matches Some(rf)
            &&& found_view(rf) == ff
        },
    decreases fuel, 0int,
{
    if fuel == 0 {
        return Option::None;
    }
    let j: usize = skip_ws(s, i);
    if j >= s.len() {
        Option::None
    } else if s[j] == 125 {
        Option::Some(found)
    } else if s[j] == 34 {
        match string_end(s, j + 1) {
            Option::None => Option::None,
            Option::Some(ke) => {
                let k: usize = skip_ws(s, ke);
                if k < s.len() && s[k] == 58 {
                    if is_prices_key(s, j + 1, ke - 1) {
                        match parse_pairs_value(s, k + 1, fuel - 1) {
                            Option::None => Option::None,
                            Option::Some((pts, e)) =>
                                after_member(s, e, Option::Some(pts), fuel - 1),
                        }
                    } else {
                        match skip_value(s, k + 1, fuel - 1) {
                            Option::None => Option::None,
                            Option::Some(e) => after_member(s, e, found, fuel - 1),
                        }
                    }
                } else {
                    Option::None
                }
            }
        }
    } else {
        Option::None
    }
}

/// Mirrors `spec_prices_value`.
fn parse_pairs_value(s: &Vec<u8>, i: usize, fuel: usize) -> (r: Option<(Vec<PricePoint>, usize)>)
    requires
        i <= s@.len(),
    ensures
        spec_prices_value(s@, i as int, fuel as nat) is None ==> r is None,
        spec_prices_value(s@, i as int, fuel as nat) matches Some(pe) ==> {
            &&& r matches Some(re)
            &&& re.0@ == pe.0
            &&& re.1 == pe.1
            &&& 0 <= pe.1 <= s@.len()
        },
{
    let j: usize = skip_ws(s, i);
    if j < s.len() && s[j] == 91 {
        parse_pairs(s, j + 1, fuel)
    } else {
        Option::None
    }
}

/// Mirrors `spec_after_member`.
fn after_member(
    s: &Vec<u8>,
    e: usize,
    found: Option<Vec<PricePoint>>,
    fuel: usize,
) -> (r: Option<Option<Vec<PricePoint>>>)
    requires
        e <= s@.len(),
    ensures
        spec_after_member(s@, e as int, found_view(found), fuel as nat) is None ==> r is None,
        spec_after_member(s@, e as int, found_view(found), fuel as nat) matches Some(ff) ==> {
            &&& r matches Some(rf)
            &&& found_view(rf) == ff
        },
    decreases fuel, 1int,
{
    let q: usize = skip_ws(s, e);
    if q < s.len() && s[q] == 44 {
        find_prices(s, q + 1, found, fuel)
    } else if q < s.len() && s[q] == 125 {
        Option::Some(found)
    } else {
        Option::None
    }
}

/// Mirrors `spec_parse_response`.
pub fn parse_response(s: &Vec<u8>) -> (r: Result<Vec<PricePoint>, FetchError>)
    ensures
        spec_parse_response(s@) matches Err(err) ==> r == Result::<Vec<PricePoint>, FetchError>::Err(err),
        spec_parse_response(s@) matches Ok(pts) ==> {
            &&& r matches Ok(v)
            &&& v@ == pts
        },
{
    let j: usize = skip_ws(s, 0);
    if j < s.len() && s[j] == 123 {
        match find_prices(s, j + 1, Option::None, s.len()) {
            Option::None => Result::Err(FetchError::Parse),
            Option::Some(Option::None) => Result::Err(FetchError::Parse),
            Option::Some(Option::Some(pts)) => Result::Ok(pts),
        }
    } else {
        Result::Err(FetchError::Parse)
    }
}

// ---------------------------------------------------------------------
// Normalization: true min/max bounds over a non-empty series.
// ---------------------------------------------------------------------

/// The scalar bounds of a series, per axis, in milli-units.
#[derive(Clone, Copy, Debug, PartialEq, Eq, Structural)]
pub struct SeriesBounds {
    pub min_time: i64,
    pub max_time: i64,
    pub min_usd: i64,
    pub max_usd: i64,
}

/// `b` holds the true minima and maxima of `s` on both axes: each bound
/// bounds every point and is attained by some point.
pub open spec fn bounds_ok(s: Seq<PricePoint>, b: SeriesBounds) -> bool {
    &&& forall|i: int| 0 <= i < s.len() ==> {
        &&& b.min_time <= (#[trigger] s[i]).time <= b.max_time
        &&& b.min_usd <= s[i].usd <= b.max_usd
    }
    &&& exists|i: int| 0 <= i < s.len() && (#[trigger] s[i]).time == b.min_time
    &&& exists|i: int| 0 <= i < s.len() && (#[trigger] s[i]).time == b.max_time
    &&& exists|i: int| 0 <= i < s.len() && (#[trigger] s[i]).usd == b.min_usd
    &&& exists|i: int| 0 <= i < s.len() && (#[trigger] s[i]).usd == b.max_usd
}

/// One immutable price series with its derived bounds.
pub struct MarketSeries {
    /// The samples, in the order the provider delivered them.
    pub points: Vec<PricePoint>,
    /// The recomputed min/max of both axes.
    pub bounds: SeriesBounds,
}

impl MarketSeries {
    /// A series is never empty and its bounds are the true min/max.
    pub open spec fn wf(&self) -> bool {
        &&& self.points@.len() >= 1
        &&& bounds_ok(self.points@, self.bounds)
    }
}

/// One linear scan computing the true min/max of both axes.
pub fn compute_bounds(points: &Vec<PricePoint>) -> (b: SeriesBounds)
    requires
        points@.len() >= 1,
    ensures
        bounds_ok(points@, b),
{
    let first: PricePoint = points[0];
    let mut b = SeriesBounds {
        min_time: first.time,
        max_time: first.time,
        min_usd: first.usd,
        max_usd: first.usd,
    };
    let mut i: usize = 1;
    while i < points.len()
        invariant
            1 <= i <= points@.len(),
            forall|j: int| 0 <= j < i ==> {
                &&& b.min_time <= (#[trigger] points@[j]).time <= b.max_time
                &&& b.min_usd <= points@[j].usd <= b.max_usd
            },
            exists|j: int| 0 <= j < i && (#[trigger] points@[j]).time == b.min_time,
            exists|j: int| 0 <= j < i && (#[trigger] points@[j]).time == b.max_time,
            exists|j: int| 0 <= j < i && (#[trigger] points@[j]).usd == b.min_usd,
            exists|j: int| 0 <= j < i && (#[trigger] points@[j]).usd == b.max_usd,
        decreases points@.len() - i,
    {
        let p: PricePoint = points[i];
        if p.time < b.min_time {
            b.min_time = p.time;
        }
        if p.time > b.max_time {
            b.max_time = p.time;
        }
        if p.usd < b.min_usd {
            b.min_usd = p.usd;
        }
        if p.usd > b.max_usd {
            b.max_usd = p.usd;
        }
        i = i + 1;
    }
    b
}

/// Bounds are unique: any two true min/max quadruples of the same series
/// agree, so `compute_bounds` matches every correct independent scan.
pub proof fn lemma_bounds_unique(s: Seq<PricePoint>, b1: SeriesBounds, b2: SeriesBounds)
    requires
        bounds_ok(s, b1),
        bounds_ok(s, b2),
    ensures
        b1 == b2,
{
}

/// Packs points into a series: a non-empty list always succeeds with its
/// true bounds; an empty list is exactly the `Empty` failure.
pub fn series_from_points(points: Vec<PricePoint>) -> (r: Result<MarketSeries, FetchError>)
    ensures
        points@.len() == 0 ==> r == Result::<MarketSeries, FetchError>::Err(FetchError::Empty),
        points@.len() > 0 ==> {
            &&& r matches Ok(m)
            &&& m.wf()
            &&& m.points@ == points@
        },
{
    if points.len() == 0 {
        Result::Err(FetchError::Empty)
    } else {
        let b: SeriesBounds = compute_bounds(&points);
        Result::Ok(MarketSeries { points, bounds: b })
    }
}

/// Loads a series from a raw provider response body.
///
/// Success is owed exactly when the body parses to a non-empty `prices`
/// array: a malformed body or a missing member is `Parse`, an empty
/// array is `Empty`, and the points and bounds of a successful load are
/// pinned by `spec_parse_response` and `bounds_ok`. A transport failure
/// has no body, so `Network` is never returned from here.
pub fn load_from_body(body: &Vec<u8>) -> (r: Result<MarketSeries, FetchError>)
    ensures
        spec_parse_response(body@) matches Err(err)
            ==> r == Result::<MarketSeries, FetchError>::Err(err),
        spec_parse_response(body@) matches Ok(pts) ==> {
            &&& pts.len() == 0 ==> r == Result::<MarketSeries, FetchError>::Err(FetchError::Empty)
            &&& pts.len() > 0 ==> {
                &&& r matches Ok(m)
                &&& m.wf()
                &&& m.points@ == pts
            }
        },
{
    match parse_response(body) {
        Result::Err(err) => Result::Err(err),
        Result::Ok(points) => series_from_points(points),
    }
}

} // verus!
