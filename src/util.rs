//! Small arithmetic helpers.

use vstd::arithmetic::power2::{
    lemma2_to64, lemma2_to64_rest, lemma_pow2_pos, lemma_pow2_strictly_increases, lemma_pow2_unfold,
    pow2,
};
use vstd::prelude::*;

verus! {

/// Euclidean remainder of `x` by `m`, used to wrap a coordinate onto the torus.
pub fn wrap_i(x: i32, m: i32) -> (r: i32)
    requires
        m > 0,
    ensures
        r == x as int % m as int,
        0 <= r < m,
{
    wrap_coord(x as i64, m)
}

/// Euclidean remainder of a wide value by a positive `i32` modulus.
pub fn wrap_coord(x: i64, m: i32) -> (r: i32)
    requires
        m > 0,
    ensures
        r == x as int % m as int,
        0 <= r < m,
{
    let m64 = m as i64;
    if x >= 0 {
        (x % m64) as i32
    } else {
        // -(x + 1) cannot overflow and is congruent to m - 1 - r modulo m
        let nx: i64 = -(x + 1);
        let r0: i64 = nx % m64;
        proof {
            let q = nx as int / m as int;
            vstd::arithmetic::div_mod::lemma_fundamental_div_mod(nx as int, m as int);
            assert(x as int == (-q - 1) * m as int + (m - 1 - r0)) by (nonlinear_arith)
                requires
                    nx as int == m as int * q + r0 as int,
                    nx == -(x + 1),
            ;
            vstd::arithmetic::div_mod::lemma_fundamental_div_mod_converse(
                x as int,
                m as int,
                -q - 1,
                m - 1 - r0,
            );
        }
        (m64 - 1 - r0) as i32
    }
}

/// Seed derived from a clock reading and the number of hardware threads.
pub open spec fn spec_mix_seed(nanos: u64, cpu_threads: u64) -> u64 {
    let b = cpu_threads.wrapping_mul(0x9E37_79B9_7F4A_7C15);
    nanos ^ ((b << 17u64) | (b >> 47u64)) ^ 0xD1B5_4A32_D192_ED03
}

/// Mixes a clock reading with the thread count into a seed.
pub fn mix_seed(nanos: u64, cpu_threads: usize) -> (r: u64)
    ensures
        r == spec_mix_seed(nanos, cpu_threads as u64),
{
    let b = (cpu_threads as u64).wrapping_mul(0x9E37_79B9_7F4A_7C15);
    // rotation left by 17 bits
    let rot = (b << 17u64) | (b >> 47u64);
    nanos ^ rot ^ 0xD1B5_4A32_D192_ED03
}

/// `std::time::SystemTime`, a reading of the system clock; carried opaquely.
#[verifier::external_type_specification]
#[verifier::external_body]
pub struct ExSystemTime(std::time::SystemTime);

/// Relies on `std::time::SystemTime::now`: the current clock reading. Nothing
/// is promised of it.
#[verifier::external_body]
fn clock_now() -> (r: std::time::SystemTime) {
    std::time::SystemTime::now()
}

/// Relies on `std::time::SystemTime::duration_since` against the Unix epoch:
/// the time elapsed since then, or zero (its error) for a reading before it.
#[verifier::external_body]
fn since_epoch(t: &std::time::SystemTime) -> (r: std::time::Duration) {
    t.duration_since(std::time::UNIX_EPOCH).unwrap_or_default()
}

/// Relies on `std::time::Duration::as_nanos`: the whole nanoseconds of `d`,
/// truncated to 64 bits.
#[verifier::external_body]
fn nanos_of(d: &std::time::Duration) -> (r: u64) {
    d.as_nanos() as u64
}

/// A fresh seed from the clock and the number of hardware threads.
pub fn gen_seed(cpu_threads: usize) -> (r: u64)
    ensures
        exists|t: u64| r == #[trigger] spec_mix_seed(t, cpu_threads as u64),
{
    let now = clock_now();
    let t = nanos_of(&since_epoch(&now));
    mix_seed(t, cpu_threads)
}

/// The decimal digit `d`.
pub open spec fn digit_char(d: int) -> char {
    if d == 0 {
        '0'
    } else if d == 1 {
        '1'
    } else if d == 2 {
        '2'
    } else if d == 3 {
        '3'
    } else if d == 4 {
        '4'
    } else if d == 5 {
        '5'
    } else if d == 6 {
        '6'
    } else if d == 7 {
        '7'
    } else if d == 8 {
        '8'
    } else {
        '9'
    }
}

/// Decimal digits of `n`, without sign or leading zeros.
pub open spec fn dec_digits(n: nat) -> Seq<char>
    decreases n,
{
    if n < 10 {
        seq![digit_char(n as int)]
    } else {
        dec_digits(n / 10).push(digit_char((n % 10) as int))
    }
}

/// The one-character string holding decimal digit `d`.
fn digit_str(d: u128) -> (r: &'static str)
    requires
        d < 10,
    ensures
        r@ == seq![digit_char(d as int)],
{
    if d == 0 {
        proof { reveal_strlit("0"); }
        "0"
    } else if d == 1 {
        proof { reveal_strlit("1"); }
        "1"
    } else if d == 2 {
        proof { reveal_strlit("2"); }
        "2"
    } else if d == 3 {
        proof { reveal_strlit("3"); }
        "3"
    } else if d == 4 {
        proof { reveal_strlit("4"); }
        "4"
    } else if d == 5 {
        proof { reveal_strlit("5"); }
        "5"
    } else if d == 6 {
        proof { reveal_strlit("6"); }
        "6"
    } else if d == 7 {
        proof { reveal_strlit("7"); }
        "7"
    } else if d == 8 {
        proof { reveal_strlit("8"); }
        "8"
    } else {
        proof { reveal_strlit("9"); }
        "9"
    }
}

/// Appends the decimal digits of `n` to `s`.
fn push_decimal(s: &mut String, n: u128)
    ensures
        final(s)@ == old(s)@ + dec_digits(n as nat),
    decreases n,
{
    let ghost start = s@;
    if n >= 10 {
        push_decimal(s, n / 10);
    }
    s.append(digit_str(n % 10));
    assert(s@ =~= start + dec_digits(n as nat));
}

/// The decimal digits of `n`, with no sign, padding or leading zeros.
fn decimal(n: u128) -> (r: String)
    ensures
        r@ == dec_digits(n as nat),
{
    let mut s = String::new();
    push_decimal(&mut s, n);
    assert(s@ =~= dec_digits(n as nat));
    s
}

/// `num / den` rounded to the nearest integer, halves to the even neighbour.
pub open spec fn round_even(num: nat, den: nat) -> nat {
    let q = num / den;
    let r = num % den;
    if 2 * r < den {
        q
    } else if 2 * r > den {
        q + 1
    } else if q % 2 == 0 {
        q
    } else {
        q + 1
    }
}

/// Binary digits of `n` beyond the 53 that the significand of a double holds.
pub open spec fn excess_bits(n: nat) -> nat
    decreases n,
{
    if n < 0x20_0000_0000_0000 {
        0
    } else {
        1 + excess_bits(n / 2)
    }
}

/// The value of `n` converted to a double: rounded to 53 significant bits,
/// halves to even.
pub open spec fn as_double(n: nat) -> nat {
    round_even(n, pow2(excess_bits(n))) * pow2(excess_bits(n))
}

/// The least `k` from `from` up to 53 for which `a * 2^k` reaches `2^52 * d`:
/// the scale that puts `a / d` into the range of a double's significand.
pub open spec fn scale_exp(a: nat, d: nat, from: nat) -> nat
    decreases 53 - from,
{
    if from >= 53 || a * pow2(from) >= 0x10_0000_0000_0000 * d {
        from
    } else {
        scale_exp(a, d, from + 1)
    }
}

/// Tenths of the one-decimal rendering of the double quotient `a / d` (for a
/// quotient of at least 1): the quotient is rounded to a 53-bit significand
/// `m * 2^-k`, and that exact value is then rounded to tenths, halves to even.
pub open spec fn double_tenths(a: nat, d: nat) -> nat {
    let k = scale_exp(a, d, 0);
    let m = round_even(a * pow2(k), d);
    round_even(m * 10, pow2(k))
}

/// Compact rendering of a count: below 1000 as is; below a million in thousands
/// with one decimal and a `k`; otherwise in millions with one decimal and an
/// `m`. The decimal is that of the count converted to a double and divided as a
/// double, printed to one place with halves to even, so 1150 gives `1.1k`
/// (1.15 is held just below it) and 1250 gives `1.2k`.
pub open spec fn spec_fmt_compact(n: u64) -> Seq<char> {
    if n >= 1_000_000 {
        let t = double_tenths(as_double(n as nat), 1_000_000);
        dec_digits(t / 10) + seq!['.'] + dec_digits(t % 10) + seq!['m']
    } else if n >= 1_000 {
        let t = double_tenths(as_double(n as nat), 1_000);
        dec_digits(t / 10) + seq!['.'] + dec_digits(t % 10) + seq!['k']
    } else {
        dec_digits(n as nat)
    }
}

/// `num / den` rounded to the nearest integer, halves to even.
fn round_half_even(num: u128, den: u128) -> (r: u128)
    requires
        den > 0,
        num < u128::MAX,
    ensures
        r == round_even(num as nat, den as nat),
        r <= num / den + 1,
{
    let q = num / den;
    let r = num % den;
    if r < den - r {
        q
    } else if r > den - r {
        q + 1
    } else if q % 2 == 0 {
        q
    } else {
        q + 1
    }
}

/// `2^k`.
fn pow2_u128(k: u32) -> (r: u128)
    requires
        k <= 64,
    ensures
        r == pow2(k as nat),
{
    let mut p: u128 = 1;
    let mut i: u32 = 0;
    proof {
        lemma2_to64();
        lemma2_to64_rest();
    }
    while i < k
        invariant
            i <= k <= 64,
            p == pow2(i as nat),
            pow2(64) == 0x1_0000_0000_0000_0000,
        decreases k - i,
    {
        proof {
            lemma_pow2_unfold((i + 1) as nat);
            if i + 1 < 64 {
                lemma_pow2_strictly_increases((i + 1) as nat, 64);
            }
        }
        p = p * 2;
        i += 1;
    }
    p
}

/// `n` converted to a double, as the exact value it then holds.
fn to_double(n: u64) -> (r: u128)
    ensures
        r == as_double(n as nat),
        r <= 0x2_0000_0000_0000_0000,
{
    let mut x: u64 = n;
    let mut s: u32 = 0;
    proof {
        lemma2_to64();
        lemma2_to64_rest();
    }
    while x >= 0x20_0000_0000_0000
        invariant
            s + excess_bits(x as nat) == excess_bits(n as nat),
            pow2(s as nat) * x <= n,
            s <= 64,
            pow2(64) == 0x1_0000_0000_0000_0000,
        decreases x,
    {
        proof {
            if s >= 64 {
                if s > 64 {
                    lemma_pow2_strictly_increases(64, s as nat);
                }
                assert(pow2(s as nat) * x >= pow2(64) * 1) by (nonlinear_arith)
                    requires
                        pow2(s as nat) >= pow2(64),
                        x >= 1,
                ;
            }
            lemma_pow2_unfold((s + 1) as nat);
            assert(pow2((s + 1) as nat) * (x / 2) <= pow2(s as nat) * x) by (nonlinear_arith)
                requires
                    pow2((s + 1) as nat) == 2 * pow2(s as nat),
            ;
        }
        x = x / 2;
        s = s + 1;
    }
    let p = pow2_u128(s);
    proof {
        lemma_pow2_pos(s as nat);
    }
    let m = round_half_even(n as u128, p);
    proof {
        lemma_pow2_pos(s as nat);
        if s < 64 {
            lemma_pow2_strictly_increases(s as nat, 64);
        }
        assert(m * p <= 0x2_0000_0000_0000_0000) by (nonlinear_arith)
            requires
                m <= n as int / p as int + 1,
                p > 0,
                p <= 0x1_0000_0000_0000_0000,
                n < 0x1_0000_0000_0000_0000,
        {
            assert((n as int / p as int) * p <= n) by (nonlinear_arith) requires p > 0;
        }
    }
    m * p
}

/// Tenths of the one-decimal rendering of the double quotient `a / d`.
fn tenths_of_quotient(a: u128, d: u128) -> (t: u128)
    requires
        1000 <= d <= 1_000_000,
        a <= 0x2_0000_0000_0000_0000,
    ensures
        t == double_tenths(a as nat, d as nat),
{
    let mut k: u32 = 0;
    let mut pk: u128 = 1;
    proof {
        lemma2_to64();
        lemma2_to64_rest();
    }
    while k < 53 && a * pk < 0x10_0000_0000_0000 * d
        invariant
            k <= 53,
            pk == pow2(k as nat),
            pk <= 0x20_0000_0000_0000,
            a <= 0x2_0000_0000_0000_0000,
            scale_exp(a as nat, d as nat, k as nat) == scale_exp(a as nat, d as nat, 0),
            pow2(53) == 0x20_0000_0000_0000,
            1000 <= d <= 1_000_000,
            a * pk <= 0x2_0000_0000_0000_0000 * 0x20_0000_0000_0000,
        decreases 53 - k,
    {
        proof {
            lemma_pow2_unfold((k + 1) as nat);
            if k + 1 < 53 {
                lemma_pow2_strictly_increases((k + 1) as nat, 53);
            }
        }
        k = k + 1;
        pk = pk * 2;
        assert(a * pk <= 0x2_0000_0000_0000_0000 * 0x20_0000_0000_0000) by (nonlinear_arith)
            requires
                a <= 0x2_0000_0000_0000_0000,
                pk <= 0x20_0000_0000_0000,
        ;
    }
    assert(scale_exp(a as nat, d as nat, k as nat) == k);
    assert(a * pk <= 0x2_0000_0000_0000_0000 * 0x20_0000_0000_0000) by (nonlinear_arith)
        requires
            a <= 0x2_0000_0000_0000_0000,
            pk <= 0x20_0000_0000_0000,
    ;
    let m = round_half_even(a * pk, d);
    assert(m <= a * pk + 1) by (nonlinear_arith)
        requires
            m <= (a * pk) / (d as int) + 1,
            d >= 1000,
            a * pk >= 0,
    {
        assert((a * pk) / (d as int) <= a * pk) by (nonlinear_arith) requires d > 0, a * pk >= 0;
    }
    round_half_even(m * 10, pk)
}

/// `tenths / 10` rendered with one decimal, followed by `unit`.
fn tenths_with_unit(tenths: u128, unit: &str) -> (r: String)
    ensures
        r@ == dec_digits((tenths / 10) as nat) + seq!['.'] + dec_digits((tenths % 10) as nat) + unit@,
{
    let mut s = decimal(tenths / 10);
    proof {
        reveal_strlit(".");
    }
    s.append(".");
    let frac = decimal(tenths % 10);
    s.append(frac.as_str());
    s.append(unit);
    s
}

/// Compact rendering of a count for display (`987`, `12.3k`, `4.6m`).
pub fn fmt_compact(n: u64) -> (r: String)
    ensures
        r@ == spec_fmt_compact(n),
{
    if n >= 1_000_000 {
        proof {
            reveal_strlit("m");
        }
        let t = tenths_of_quotient(to_double(n), 1_000_000);
        tenths_with_unit(t, "m")
    } else if n >= 1_000 {
        proof {
            reveal_strlit("k");
        }
        let t = tenths_of_quotient(to_double(n), 1_000);
        tenths_with_unit(t, "k")
    } else {
        decimal(n as u128)
    }
}

/// The integer square root: the largest `r` with `r * r <= n`.
pub open spec fn is_isqrt(n: int, r: int) -> bool {
    0 <= r && r * r <= n < (r + 1) * (r + 1)
}

/// Integer square root of `n`, rounded down.
pub fn isqrt(n: u64) -> (r: u64)
    ensures
        is_isqrt(n as int, r as int),
{
    let mut lo: u64 = 0;
    let mut hi: u64 = 0x1_0000_0000;
    assert(n < hi * hi) by (nonlinear_arith)
        requires
            hi == 0x1_0000_0000u64,
            n <= u64::MAX,
    ;
    while hi - lo > 1
        invariant
            lo < hi <= 0x1_0000_0000,
            lo * lo <= n,
            n < hi * hi,
        decreases hi - lo,
    {
        let mid: u64 = lo + (hi - lo) / 2;
        assert((mid as u128) * (mid as u128) <= 0x1_0000_0000u128 * 0x1_0000_0000u128)
            by (nonlinear_arith)
            requires
                mid <= 0x1_0000_0000,
        ;
        let sq: u128 = (mid as u128) * (mid as u128);
        if sq <= n as u128 {
            lo = mid;
        } else {
            hi = mid;
        }
    }
    lo
}

/// Two values that are both integer square roots of `n` are equal.
pub proof fn lemma_isqrt_unique(n: int, r: int, s: int)
    requires
        is_isqrt(n, r),
        is_isqrt(n, s),
    ensures
        r == s,
{
    if r < s {
        assert((r + 1) * (r + 1) <= s * s) by (nonlinear_arith)
            requires
                0 <= r < s,
        ;
    } else if s < r {
        assert((s + 1) * (s + 1) <= r * r) by (nonlinear_arith)
            requires
                0 <= s < r,
        ;
    }
}

} // verus!
