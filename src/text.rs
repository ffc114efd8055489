//! Decimal rendering of integers and fixed-point values, and byte sizes in
//! human units.

use vstd::prelude::*;

verus! {

/// The character of a decimal digit.
pub open spec fn digit_char(d: nat) -> char {
    if d == 0 { '0' }
    else if d == 1 { '1' }
    else if d == 2 { '2' }
    else if d == 3 { '3' }
    else if d == 4 { '4' }
    else if d == 5 { '5' }
    else if d == 6 { '6' }
    else if d == 7 { '7' }
    else if d == 8 { '8' }
    else { '9' }
}

/// The decimal digits of `n`, most significant first, without leading zeros.
pub open spec fn decimal(n: nat) -> Seq<char>
    decreases n,
{
    if n < 10 {
        seq![digit_char(n)]
    } else {
        decimal(n / 10).push(digit_char(n % 10))
    }
}

/// `s` padded on the left with zeros to at least `width` characters.
pub open spec fn zero_pad(s: Seq<char>, width: nat) -> Seq<char>
    decreases width - s.len(),
{
    if s.len() >= width {
        s
    } else {
        zero_pad(seq!['0'] + s, width)
    }
}

/// Ten to the power `d`.
pub open spec fn pow10(d: nat) -> nat
    decreases d,
{
    if d == 0 { 1 } else { 10 * pow10((d - 1) as nat) }
}

/// `v / 10^d` written with exactly `d` digits after the point.
pub open spec fn fixed_point(v: nat, d: nat) -> Seq<char> {
    if d == 0 {
        decimal(v)
    } else {
        decimal(v / pow10(d)) + seq!['.'] + zero_pad(decimal(v % pow10(d)), d)
    }
}

/// `p / q` rounded to the nearest integer, ties to the even neighbour.
pub open spec fn round_div(p: nat, q: nat) -> nat
    recommends
        q > 0,
{
    let f = p / q;
    let r = p % q;
    if 2 * r > q || (2 * r == q && f % 2 == 1) {
        f + 1
    } else {
        f
    }
}

fn digit_str(d: u128) -> (r: &'static str)
    requires
        d < 10,
    ensures
        r@ == seq![digit_char(d as nat)],
{
    proof {
        reveal_strlit("0");
        reveal_strlit("1");
        reveal_strlit("2");
        reveal_strlit("3");
        reveal_strlit("4");
        reveal_strlit("5");
        reveal_strlit("6");
        reveal_strlit("7");
        reveal_strlit("8");
        reveal_strlit("9");
    }
    if d == 0 { "0" }
    else if d == 1 { "1" }
    else if d == 2 { "2" }
    else if d == 3 { "3" }
    else if d == 4 { "4" }
    else if d == 5 { "5" }
    else if d == 6 { "6" }
    else if d == 7 { "7" }
    else if d == 8 { "8" }
    else { "9" }
}

/// Appends the decimal digits of `n` to `s`.
pub fn push_decimal(s: &mut String, n: u128)
    ensures
        final(s)@ == old(s)@ + decimal(n as nat),
    decreases n,
{
    if n >= 10 {
        push_decimal(s, n / 10);
    }
    s.append(digit_str(n % 10));
    assert(final(s)@ =~= old(s)@ + decimal(n as nat)) by {
        if n >= 10 {
            assert(decimal(n as nat) == decimal((n / 10) as nat).push(digit_char((n % 10) as nat)));
        }
    }
}


/// `p / q` rounded to the nearest integer, ties to the even neighbour.
pub fn round_div_exec(p: u128, q: u128) -> (r: u128)
    requires
        q > 0,
    ensures
        r == round_div(p as nat, q as nat),
{
    let f = p / q;
    let m = p % q;
    if m > q - m || (m == q - m && f % 2 == 1) {
        assert(q >= 2);
        assert(f <= p / 2) by (nonlinear_arith)
            requires f == p / q, q >= 2;
        f + 1
    } else {
        f
    }
}

/// `k` zeros.
pub open spec fn zeros(k: nat) -> Seq<char> {
    Seq::new(k, |i: int| '0')
}

proof fn lemma_zero_pad(s: Seq<char>, w: nat)
    ensures
        s.len() >= w ==> zero_pad(s, w) == s,
        s.len() < w ==> zero_pad(s, w) == zeros((w - s.len()) as nat) + s,
    decreases w - s.len(),
{
    if s.len() < w {
        lemma_zero_pad(seq!['0'] + s, w);
        assert(zeros((w - s.len()) as nat) + s =~= zeros((w - s.len() - 1) as nat) + (seq!['0'] + s));
    }
}

proof fn lemma_decimal_len(n: nat, d: nat)
    requires
        d >= 1,
        n < pow10(d),
    ensures
        decimal(n).len() <= d,
    decreases n,
{
    if n >= 10 {
        assert(d >= 2) by {
            if d == 1 {
                assert(pow10(1) == 10 * pow10(0));
            }
        }
        let e = (d - 1) as nat;
        assert(pow10(d) == 10 * pow10(e));
        assert(n / 10 < pow10(e)) by (nonlinear_arith)
            requires n < 10 * pow10(e);
        lemma_decimal_len(n / 10, e);
    }
}

fn decimal_len(n: u128) -> (r: usize)
    ensures
        r == decimal(n as nat).len(),
    decreases n,
{
    if n < 10 {
        1
    } else {
        let k = decimal_len(n / 10);
        proof {
            lemma_pow10_limits();
            lemma_decimal_len((n / 10) as nat, 39);
        }
        k + 1
    }
}

proof fn lemma_pow10_limits()
    ensures
        pow10(38) == 100000000000000000000000000000000000000,
        pow10(39) == 1000000000000000000000000000000000000000,
        pow10(39) > u128::MAX,
{
    reveal_with_fuel(pow10, 40);
}

/// Appends `v / 10^d` with exactly `d` digits after the point.
pub fn push_fixed(s: &mut String, v: u128, d: u32)
    requires
        d <= 38,
    ensures
        final(s)@ == old(s)@ + fixed_point(v as nat, d as nat),
{
    proof {
        reveal_strlit(".");
        reveal_strlit("0");
    }
    if d == 0 {
        push_decimal(s, v);
        return;
    }
    proof {
        lemma_pow10_limits();
        lemma_pow10_monotone(d as nat, 38);
    }
    let mut scale: u128 = 1;
    let mut j: u32 = 0;
    assert(pow10(0) == 1);
    while j < d
        invariant
            j <= d,
            scale == pow10(j as nat),
            pow10(d as nat) <= u128::MAX,
        decreases d - j,
    {
        proof {
            lemma_pow10_monotone((j + 1) as nat, d as nat);
        }
        scale = 10 * scale;
        j = j + 1;
    }
    proof {
        lemma_pow10_positive(d as nat);
    }
    push_decimal(s, v / scale);
    s.append(".");
    let frac = v % scale;
    let len = decimal_len(frac);
    proof {
        lemma_decimal_len(frac as nat, d as nat);
        lemma_zero_pad(decimal(frac as nat), d as nat);
    }
    let ghost before = s@;
    let mut k: usize = len;
    while k < d as usize
        invariant
            len <= k <= d,
            len == decimal(frac as nat).len(),
            s@ == before + zeros((k - len) as nat),
        decreases d - k,
    {
        proof {
            reveal_strlit("0");
        }
        s.append("0");
        k = k + 1;
        assert(s@ =~= before + zeros((k - len) as nat));
    }
    push_decimal(s, frac);
    assert(s@ =~= old(s)@ + fixed_point(v as nat, d as nat));
}

proof fn lemma_pow10_positive(d: nat)
    ensures
        pow10(d) >= 1,
    decreases d,
{
    if d > 0 {
        lemma_pow10_positive((d - 1) as nat);
    }
}

proof fn lemma_pow10_monotone(a: nat, b: nat)
    requires
        a <= b,
    ensures
        pow10(a) <= pow10(b),
    decreases b,
{
    if a < b {
        lemma_pow10_monotone(a, (b - 1) as nat);
        lemma_pow10_positive((b - 1) as nat);
    }
}

/// `1024^k`.
pub open spec fn pow1024(k: nat) -> nat
    decreases k,
{
    if k == 0 { 1 } else { 1024 * pow1024((k - 1) as nat) }
}

/// The largest unit, among B, KB, MB, GB, TB and PB, in which a size of `b`
/// bytes is at least one, as an index from 0 (B) to 5 (PB).
pub open spec fn unit_index(b: nat) -> nat {
    if b < pow1024(1) { 0 }
    else if b < pow1024(2) { 1 }
    else if b < pow1024(3) { 2 }
    else if b < pow1024(4) { 3 }
    else if b < pow1024(5) { 4 }
    else { 5 }
}

/// The name of unit `k`.
pub open spec fn unit_name(k: nat) -> Seq<char> {
    if k == 0 { seq!['B'] }
    else if k == 1 { seq!['K', 'B'] }
    else if k == 2 { seq!['M', 'B'] }
    else if k == 3 { seq!['G', 'B'] }
    else if k == 4 { seq!['T', 'B'] }
    else { seq!['P', 'B'] }
}

/// A byte count in its largest unit, to two decimals: `1536` is `1.50 KB`.
/// A negative count stays in bytes.
pub open spec fn bytes_text(bytes: int) -> Seq<char> {
    if bytes < 0 {
        seq!['-'] + fixed_point((100 * -bytes) as nat, 2) + seq![' '] + unit_name(0)
    } else {
        let k = unit_index(bytes as nat);
        fixed_point(round_div((100 * bytes) as nat, pow1024(k)), 2) + seq![' '] + unit_name(k)
    }
}

fn unit_str(k: u32) -> (r: &'static str)
    requires
        k <= 5,
    ensures
        r@ == seq![' '] + unit_name(k as nat),
{
    proof {
        reveal_strlit(" B");
        reveal_strlit(" KB");
        reveal_strlit(" MB");
        reveal_strlit(" GB");
        reveal_strlit(" TB");
        reveal_strlit(" PB");
    }
    if k == 0 { " B" }
    else if k == 1 { " KB" }
    else if k == 2 { " MB" }
    else if k == 3 { " GB" }
    else if k == 4 { " TB" }
    else { " PB" }
}

/// Formats a byte count in human units with two decimals.
pub fn format_bytes(bytes: i64) -> (r: String)
    ensures
        r@ == bytes_text(bytes as int),
{
    proof {
        reveal_strlit("-");
        assert(pow1024(0) == 1);
        assert(pow1024(1) == 1024);
        assert(pow1024(2) == 1048576);
        assert(pow1024(3) == 1073741824);
        assert(pow1024(4) == 1099511627776);
        assert(pow1024(5) == 1125899906842624);
    }
    let mut s = String::new();
    if bytes < 0 {
        s.append("-");
        let mag: u128 = (0 - (bytes as i128)) as u128;
        push_fixed(&mut s, 100 * mag, 2);
        s.append(unit_str(0));
        assert(s@ =~= bytes_text(bytes as int));
    } else {
        let b = bytes as u128;
        let k: u32 = if b < 1024 { 0 }
            else if b < 1048576 { 1 }
            else if b < 1073741824 { 2 }
            else if b < 1099511627776 { 3 }
            else if b < 1125899906842624 { 4 }
            else { 5 };
        let div: u128 = if k == 0 { 1 }
            else if k == 1 { 1024 }
            else if k == 2 { 1048576 }
            else if k == 3 { 1073741824 }
            else if k == 4 { 1099511627776 }
            else { 1125899906842624 };
        assert(k as nat == unit_index(b as nat));
        assert(div as nat == pow1024(k as nat));
        let v = round_div_exec(100 * b, div);
        push_fixed(&mut s, v, 2);
        s.append(unit_str(k));
        assert(s@ =~= bytes_text(bytes as int));
    }
    s
}

} // verus!
