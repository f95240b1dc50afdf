//! Decimal rendering of integers and fixed-point quantities.
//!
//! Every number the library writes into a DXF file or a user message goes
//! through these helpers, so their output is pinned down exactly by the spec
//! functions below.
use vstd::prelude::*;

verus! {

/// `String::push` appends one character.
pub assume_specification[ String::push ](s: &mut String, ch: char)
    ensures
        final(s)@ == old(s)@.push(ch),
;

/// The ASCII digit for a value below ten.
pub open spec fn digit_char(d: nat) -> char {
    (48 + d) as char
}

/// Decimal digits of a natural number, most significant first, no padding.
pub open spec fn nat_text(n: nat) -> Seq<char>
    decreases n,
{
    if n < 10 {
        seq![digit_char(n)]
    } else {
        nat_text(n / 10).push(digit_char(n % 10))
    }
}

/// Decimal text of an integer: a leading `-` for negative values.
pub open spec fn int_text(i: int) -> Seq<char> {
    if i < 0 {
        seq!['-'].add(nat_text((-i) as nat))
    } else {
        nat_text(i as nat)
    }
}

/// `v / 2` to the nearest integer, exact halves away from zero (the
/// rounding of `f64::round`).
pub open spec fn half_away(v: int) -> int {
    if v >= 0 {
        (v + 1) / 2
    } else {
        -((-v + 1) / 2)
    }
}

/// `v / 2` to the nearest integer, exact halves away from zero.
pub fn half_away_i128(v: i128) -> (r: i128)
    requires
        i128::MIN < v < i128::MAX,
    ensures
        r == half_away(v as int),
{
    if v >= 0 {
        (v + 1) / 2
    } else {
        -((-v - 1) / 2 + 1)
    }
}

/// Ten to the power `k`.
pub open spec fn pow10(k: nat) -> nat
    decreases k,
{
    if k == 0 {
        1
    } else {
        10 * pow10((k - 1) as nat)
    }
}

/// The last `width` decimal digits of `n`, zero-padded on the left.
pub open spec fn padded_text(n: nat, width: nat) -> Seq<char>
    decreases width,
{
    if width == 0 {
        seq![]
    } else {
        padded_text(n / 10, (width - 1) as nat).push(digit_char(n % 10))
    }
}

/// A non-negative magnitude `m` counted in units of `10^-places`, written
/// with exactly `places` decimals (`places > 0`), e.g. `(1234, 2)` → `12.34`.
pub open spec fn unsigned_fixed_text(m: nat, places: nat) -> Seq<char> {
    nat_text(m / pow10(places)).push('.').add(padded_text(m % pow10(places), places))
}

/// A signed value `v` counted in units of `10^-places`, written with exactly
/// `places` decimals; negative non-zero values carry a leading `-`.
pub open spec fn fixed_text(v: int, places: nat) -> Seq<char> {
    if v < 0 {
        seq!['-'].add(unsigned_fixed_text((-v) as nat, places))
    } else {
        unsigned_fixed_text(v as nat, places)
    }
}

/// `a / d` rounded to the nearest integer, exact halves to the even
/// neighbour (`a >= 0`, `d > 0`).
pub open spec fn round_half_even(a: int, d: int) -> int {
    let q = a / d;
    let r = a % d;
    if 2 * r > d || (2 * r == d && q % 2 == 1) {
        q + 1
    } else {
        q
    }
}

/// `v / d` rounded to the nearest integer, exact halves to the even
/// neighbour, symmetric about zero (`d > 0`), as formatting a number to a
/// fixed number of decimals rounds.
pub open spec fn div_round(v: int, d: int) -> int {
    if v < 0 {
        -round_half_even(-v, d)
    } else {
        round_half_even(v, d)
    }
}

/// Nanometres written as millimetres with exactly six decimals, the form the
/// DXF writer uses for coordinates (`1_500_000` → `1.500000`).
pub open spec fn mm6_text(nm: int) -> Seq<char> {
    fixed_text(nm, 6)
}

/// Nanometres written as millimetres rounded to `places` decimals
/// (`1 <= places <= 6`), exact halves to the even neighbour.
pub open spec fn mm_text(nm: int, places: nat) -> Seq<char> {
    fixed_text(div_round(nm, pow10((6 - places) as nat) as int), places)
}

fn digit(d: u64) -> (c: char)
    requires
        d < 10,
    ensures
        c == digit_char(d as nat),
{
    let b: u8 = (d as u8) + 48;
    b as char
}

/// Append the decimal digits of `n`.
pub fn push_nat(s: &mut String, n: u64)
    ensures
        final(s)@ == old(s)@ + nat_text(n as nat),
    decreases n,
{
    if n >= 10 {
        push_nat(s, n / 10);
    }
    let c = digit(n % 10);
    s.push(c);
    proof {
        if n < 10 {
            assert(n % 10 == n);
        }
    }
}

/// Append the decimal text of a signed integer.
pub fn push_int(s: &mut String, i: i64)
    ensures
        final(s)@ == old(s)@ + int_text(i as int),
{
    if i < 0 {
        s.push('-');
        let m: u64 = if i == i64::MIN {
            9_223_372_036_854_775_808u64
        } else {
            (-i) as u64
        };
        push_nat(s, m);
        assert(old(s)@.push('-') + nat_text(m as nat) =~= old(s)@ + (seq!['-'] + nat_text(m as nat)));
    } else {
        push_nat(s, i as u64);
    }
}

/// Append the last `width` digits of `n`, zero-padded.
fn push_padded(s: &mut String, n: u64, width: u32)
    ensures
        final(s)@ == old(s)@ + padded_text(n as nat, width as nat),
    decreases width,
{
    if width == 0 {
        assert(padded_text(n as nat, 0) =~= seq![]);
        return;
    }
    push_padded(s, n / 10, width - 1);
    let c = digit(n % 10);
    s.push(c);
}

/// The power of ten as an executable integer.
fn pow10_u64(k: u32) -> (p: u64)
    requires
        k <= 18,
    ensures
        p == pow10(k as nat),
        p > 0,
    decreases k,
{
    if k == 0 {
        1
    } else {
        let q = pow10_u64(k - 1);
        proof {
            lemma_pow10_bound((k - 1) as nat);
        }
        10 * q
    }
}

/// Powers of ten grow with the exponent.
pub proof fn lemma_pow10_mono(j: nat, k: nat)
    requires
        j <= k,
    ensures
        1 <= pow10(j) <= pow10(k),
    decreases k - j,
{
    if j < k {
        lemma_pow10_mono(j, (k - 1) as nat);
    } else {
        lemma_pow10_pos(j);
    }
}

proof fn lemma_pow10_pos(k: nat)
    ensures
        pow10(k) >= 1,
    decreases k,
{
    if k > 0 {
        lemma_pow10_pos((k - 1) as nat);
    }
}

/// `pow10(k) <= 10^17` for `k <= 17`.
proof fn lemma_pow10_bound(k: nat)
    requires
        k <= 17,
    ensures
        pow10(k) <= 100_000_000_000_000_000,
{
    lemma_pow10_mono(k, 17);
    reveal_with_fuel(pow10, 18);
}

/// Append a signed fixed-point value with exactly `places` decimals
/// (`1 <= places <= 18`).
pub fn push_fixed(s: &mut String, v: i64, places: u32)
    requires
        1 <= places <= 18,
    ensures
        final(s)@ == old(s)@ + fixed_text(v as int, places as nat),
{
    let p = pow10_u64(places);
    let m: u64 = if v < 0 {
        if v == i64::MIN {
            9_223_372_036_854_775_808u64
        } else {
            (-v) as u64
        }
    } else {
        v as u64
    };
    let ghost before = s@;
    if v < 0 {
        s.push('-');
    }
    push_nat(s, m / p);
    s.push('.');
    push_padded(s, m % p, places);
    proof {
        let u = unsigned_fixed_text(m as nat, places as nat);
        if v < 0 {
            assert(s@ =~= before + (seq!['-'] + u));
        } else {
            assert(s@ =~= before + u);
        }
    }
}

/// A rounded quotient never exceeds the dividend.
pub proof fn lemma_round_half_even_le(a: int, d: int)
    requires
        a >= 0,
        d >= 1,
    ensures
        0 <= round_half_even(a, d) <= a,
{
    let q = a / d;
    let r = a % d;
    assert(a == q * d + r && 0 <= r < d && q >= 0) by (nonlinear_arith)
        requires a >= 0, d >= 1, q == a / d, r == a % d;
    if round_half_even(a, d) == q + 1 {
        assert(r >= 1);
        assert(q * d >= q) by (nonlinear_arith)
            requires q >= 0, d >= 1;
    } else {
        assert(q * d >= q) by (nonlinear_arith)
            requires q >= 0, d >= 1;
    }
}

/// `a / d` rounded to the nearest integer, exact halves to the even one.
pub fn round_half_even_u128(a: u128, d: u128) -> (q: u128)
    requires
        1 <= d <= 0x8000_0000_0000_0000_0000_0000_0000_0000u128,
    ensures
        q == round_half_even(a as int, d as int),
        q <= a,
        q <= a / d + 1,
{
    let q = a / d;
    let r = a % d;
    proof {
        lemma_round_half_even_le(a as int, d as int);
    }
    if 2 * r > d || (2 * r == d && q % 2 == 1) {
        q + 1
    } else {
        q
    }
}

/// Round `v / d` to the nearest integer, exact halves to the even one.
pub fn div_round_i64(v: i64, d: i64) -> (r: i64)
    requires
        1 <= d <= 1_000_000_000_000_000_000,
    ensures
        r == div_round(v as int, d as int),
{
    let a: u128 = if v < 0 { (-(v as i128)) as u128 } else { v as u128 };
    let q = round_half_even_u128(a, d as u128);
    if v < 0 {
        -(q as i128) as i64
    } else {
        q as i64
    }
}

/// Append nanometres as millimetres with six decimals.
pub fn push_mm6(s: &mut String, nm: i64)
    ensures
        final(s)@ == old(s)@ + mm6_text(nm as int),
{
    push_fixed(s, nm, 6);
}

/// Append the decimal digits of a 128-bit `n`.
pub fn push_nat_wide(s: &mut String, n: u128)
    ensures
        final(s)@ == old(s)@ + nat_text(n as nat),
    decreases n,
{
    if n >= 10 {
        push_nat_wide(s, n / 10);
    }
    let c = digit((n % 10) as u64);
    s.push(c);
    proof {
        if n < 10 {
            assert(n % 10 == n);
        }
    }
}

/// Append 128-bit nanometres as millimetres with six decimals.
pub fn push_mm6_wide(s: &mut String, nm: i128)
    requires
        nm > i128::MIN,
    ensures
        final(s)@ == old(s)@ + mm6_text(nm as int),
{
    let p: u128 = 1_000_000;
    assert(pow10(6) == 1_000_000) by {
        reveal_with_fuel(pow10, 7);
    }
    let m: u128 = if nm < 0 { (-nm) as u128 } else { nm as u128 };
    let ghost before = s@;
    if nm < 0 {
        s.push('-');
    }
    push_nat_wide(s, m / p);
    s.push('.');
    push_padded(s, (m % p) as u64, 6);
    proof {
        let u = unsigned_fixed_text(m as nat, 6);
        if nm < 0 {
            assert(s@ =~= before + (seq!['-'] + u));
        } else {
            assert(s@ =~= before + u);
        }
    }
}

/// Append nanometres as millimetres rounded to `places` decimals.
pub fn push_mm(s: &mut String, nm: i64, places: u32)
    requires
        1 <= places <= 6,
    ensures
        final(s)@ == old(s)@ + mm_text(nm as int, places as nat),
{
    let p = pow10_u64(6 - places);
    proof {
        lemma_pow10_bound((6 - places) as nat);
    }
    let r = div_round_i64(nm, p as i64);
    push_fixed(s, r, places);
}

/// Strip trailing zero digits from a `width`-digit fraction: the result is
/// the shortened fraction value and its remaining width.
pub open spec fn strip_zeros(frac: nat, width: nat) -> (nat, nat)
    decreases width,
{
    if width > 0 && frac % 10 == 0 {
        strip_zeros(frac / 10, (width - 1) as nat)
    } else {
        (frac, width)
    }
}

/// Nanometres written as millimetres in the shortest exact form: no decimal
/// point for whole millimetres, otherwise only the significant decimals
/// (`127_000` → `0.127`, `2_000_000` → `2`, `-100_000` → `-0.1`).
pub open spec fn mm_short_text(nm: int) -> Seq<char> {
    let m: nat = if nm < 0 { (-nm) as nat } else { nm as nat };
    let whole = nat_text(m / 1_000_000);
    let (f, w) = strip_zeros(m % 1_000_000, 6);
    let body = if w == 0 { whole } else { whole.push('.').add(padded_text(f, w)) };
    if nm < 0 { seq!['-'].add(body) } else { body }
}

/// Append nanometres as millimetres in the shortest exact form.
pub fn push_mm_short(s: &mut String, nm: i64)
    ensures
        final(s)@ == old(s)@ + mm_short_text(nm as int),
{
    let m: u64 = if nm < 0 {
        if nm == i64::MIN {
            9_223_372_036_854_775_808u64
        } else {
            (-nm) as u64
        }
    } else {
        nm as u64
    };
    let ghost before = s@;
    if nm < 0 {
        s.push('-');
    }
    push_nat(s, m / 1_000_000);
    let mut f: u64 = m % 1_000_000;
    let mut w: u32 = 6;
    while w > 0 && f % 10 == 0
        invariant
            w <= 6,
            strip_zeros(f as nat, w as nat) == strip_zeros((m % 1_000_000) as nat, 6),
        decreases w,
    {
        f = f / 10;
        w = w - 1;
    }
    if w > 0 {
        s.push('.');
        push_padded(s, f, w);
    }
    proof {
        let whole = nat_text((m / 1_000_000) as nat);
        let body = if w == 0 { whole } else { whole.push('.').add(padded_text(f as nat, w as nat)) };
        if w == 0 {
            assert(s@ =~= before + (if nm < 0 { seq!['-'] } else { seq![] }) + body);
        } else {
            assert(s@ =~= before + (if nm < 0 { seq!['-'] } else { seq![] }) + body);
        }
        if nm < 0 {
            assert(s@ =~= before + (seq!['-'] + body));
        } else {
            assert(s@ =~= before + body);
        }
    }
}

/// Append a string slice.
pub fn push_str(s: &mut String, t: &str)
    ensures
        final(s)@ == old(s)@ + t@,
{
    s.append(t);
}

} // verus!
