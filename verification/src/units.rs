//! Human-readable byte counts.
//!
//! A count under 1024 prints exactly (`512B`). Larger counts are converted to
//! a double, divided by 1024 until they fall under 1024 (or reach TB), and
//! printed with one decimal place (`1.0KB`). The arithmetic here is done on
//! integers, and reproduces the double's value exactly: the conversion of a
//! count to a double rounds it to 53 significant bits (ties to even), dividing
//! by 1024 is exact, and one decimal place rounds ties to an even digit.
use vstd::arithmetic::power2::{
    lemma2_to64, lemma_pow2_adds, lemma_pow2_pos, lemma_pow2_strictly_increases,
    lemma_pow2_unfold, pow2,
};
use vstd::prelude::*;

verus! {

/// The number of binary digits of `n` (0 for 0).
pub open spec fn bit_len(n: nat) -> nat
    decreases n,
{
    if n == 0 {
        0
    } else {
        1 + bit_len(n / 2)
    }
}

/// `a / d` rounded to the nearest integer, ties to the even one.
pub open spec fn div_round_even(a: nat, d: nat) -> nat
    recommends
        d > 0,
{
    let q = a / d;
    let r = a % d;
    if 2 * r < d || (2 * r == d && q % 2 == 0) {
        q
    } else {
        q + 1
    }
}

/// The value of `n as f64`: `n` rounded to 53 significant bits, ties to even.
pub open spec fn as_double(n: nat) -> nat {
    if bit_len(n) <= 53 {
        n
    } else {
        let ulp = pow2((bit_len(n) - 53) as nat);
        div_round_even(n, ulp) * ulp
    }
}

/// `1024^i` for the five units.
pub open spec fn unit_size(i: int) -> nat {
    if i == 0 {
        1
    } else if i == 1 {
        1024
    } else if i == 2 {
        1048576
    } else if i == 3 {
        1073741824
    } else {
        1099511627776
    }
}

pub open spec fn unit_name(i: int) -> Seq<char> {
    if i == 0 {
        "B"@
    } else if i == 1 {
        "KB"@
    } else if i == 2 {
        "MB"@
    } else if i == 3 {
        "GB"@
    } else {
        "TB"@
    }
}

/// The largest unit (up to TB) that the value reaches.
pub open spec fn unit_index(v: nat) -> int {
    if v >= unit_size(4) {
        4
    } else if v >= unit_size(3) {
        3
    } else if v >= unit_size(2) {
        2
    } else if v >= unit_size(1) {
        1
    } else {
        0
    }
}

pub open spec fn digit_text(d: nat) -> Seq<char> {
    if d == 0 {
        "0"@
    } else if d == 1 {
        "1"@
    } else if d == 2 {
        "2"@
    } else if d == 3 {
        "3"@
    } else if d == 4 {
        "4"@
    } else if d == 5 {
        "5"@
    } else if d == 6 {
        "6"@
    } else if d == 7 {
        "7"@
    } else if d == 8 {
        "8"@
    } else {
        "9"@
    }
}

/// The decimal digits of `n`.
pub open spec fn decimal(n: nat) -> Seq<char>
    decreases n,
{
    if n < 10 {
        digit_text(n)
    } else {
        decimal(n / 10) + digit_text(n % 10)
    }
}

/// What `human` prints for a byte count.
pub open spec fn human_text(bytes: u64) -> Seq<char> {
    let v = as_double(bytes as nat);
    let i = unit_index(v);
    if i == 0 {
        decimal(bytes as nat) + unit_name(0)
    } else {
        let tenths = div_round_even(v * 10, unit_size(i));
        decimal(tenths / 10) + "."@ + decimal(tenths % 10) + unit_name(i)
    }
}

fn digit_str(d: u128) -> (r: &'static str)
    requires
        d < 10,
    ensures
        r@ == digit_text(d as nat),
{
    if d == 0 {
        "0"
    } else if d == 1 {
        "1"
    } else if d == 2 {
        "2"
    } else if d == 3 {
        "3"
    } else if d == 4 {
        "4"
    } else if d == 5 {
        "5"
    } else if d == 6 {
        "6"
    } else if d == 7 {
        "7"
    } else if d == 8 {
        "8"
    } else {
        "9"
    }
}

/// Appends the decimal digits of `n`.
pub fn push_decimal(s: &mut String, n: u128)
    ensures
        final(s)@ == old(s)@ + decimal(n as nat),
    decreases n,
{
    if n >= 10 {
        push_decimal(s, n / 10);
    }
    s.append(digit_str(n % 10));
    proof {
        assert(old(s)@ + decimal(n as nat) =~= if n < 10 {
            old(s)@ + digit_text(n as nat)
        } else {
            old(s)@ + decimal((n / 10) as nat) + digit_text((n % 10) as nat)
        });
    }
}

proof fn lemma_bit_len_bound(n: nat, k: nat)
    requires
        n < pow2(k),
    ensures
        bit_len(n) <= k,
    decreases k,
{
    lemma2_to64();
    if n > 0 && k > 0 {
        lemma_pow2_unfold(k);
        lemma_bit_len_bound(n / 2, (k - 1) as nat);
    }
}

fn bit_length(n: u64) -> (r: u32)
    ensures
        r as nat == bit_len(n as nat),
        r <= 64,
{
    let mut m: u64 = n;
    let mut l: u32 = 0;
    proof {
        lemma2_to64();
        lemma_bit_len_bound(n as nat, 64);
    }
    while m > 0
        invariant
            bit_len(n as nat) == l + bit_len(m as nat),
            l + bit_len(m as nat) <= 64,
        decreases m,
    {
        proof {
            assert(bit_len(m as nat) == 1 + bit_len((m / 2) as nat));
        }
        m = m / 2;
        l = l + 1;
    }
    proof {
        lemma2_to64();
        lemma_bit_len_bound(n as nat, 64);
    }
    l
}

fn div_round_even_exec(a: u128, d: u128) -> (r: u128)
    requires
        d > 0,
        a / d < u128::MAX,
    ensures
        r as nat == div_round_even(a as nat, d as nat),
{
    let q = a / d;
    let r = a % d;
    if r < d - r || (r == d - r && q % 2 == 0) {
        q
    } else {
        q + 1
    }
}

/// `n as f64`, as an integer.
fn as_double_exec(n: u64) -> (r: u128)
    ensures
        r as nat == as_double(n as nat),
        r <= 0x1_0000_0000_0000_0000,
{
    let l = bit_length(n);
    if l <= 53 {
        return n as u128;
    }
    let k = l - 53;
    let mut ulp: u128 = 1;
    let mut j: u32 = 0;
    proof {
        lemma2_to64();
    }
    while j < k
        invariant
            j <= k,
            k <= 11,
            ulp as nat == pow2(j as nat),
        decreases k - j,
    {
        proof {
            lemma2_to64();
            if j < 10 {
                lemma_pow2_strictly_increases(j as nat, 10);
            }
            lemma_pow2_unfold((j + 1) as nat);
        }
        ulp = ulp * 2;
        j = j + 1;
    }
    proof {
        lemma2_to64();
        if k < 11 {
            lemma_pow2_strictly_increases(k as nat, 11);
        }
        lemma_below_two_pow_bit_len(n as nat);
    }
    let nn = n as u128;
    proof {
        assert(nn / ulp <= nn) by (nonlinear_arith)
            requires ulp >= 1, nn >= 0;
    }
    let q = div_round_even_exec(nn, ulp);
    proof {
        let qq = div_round_even(nn as nat, ulp as nat);
        assert(qq * ulp <= nn + ulp) by (nonlinear_arith)
            requires
                ulp >= 1,
                qq <= nn / ulp + 1,
        {
            assert((nn / ulp) * ulp <= nn);
        }
        assert(qq * ulp <= 0x1_0000_0000_0000_0000) by {
            lemma_round_stays_in_range(nn as nat, ulp as nat, (k + 53) as nat);
        }
    }
    q * ulp
}

proof fn lemma_below_two_pow_bit_len(n: nat)
    ensures
        n < pow2(bit_len(n)),
    decreases n,
{
    lemma_pow2_pos(bit_len(n));
    if n > 0 {
        lemma_below_two_pow_bit_len(n / 2);
        lemma_pow2_unfold(bit_len(n));
    }
}

/// `n` below `2^l` rounded up to a multiple of a power of two `ulp` dividing `2^l`
/// stays at most `2^l`; with `l <= 64` that is at most `2^64`.
proof fn lemma_round_stays_in_range(n: nat, ulp: nat, l: nat)
    requires
        ulp >= 1,
        l <= 64,
        l >= 53,
        ulp == pow2((l - 53) as nat),
        n < pow2(l),
    ensures
        div_round_even(n, ulp) * ulp <= 0x1_0000_0000_0000_0000,
{
    let m = pow2(53);
    lemma_pow2_adds((l - 53) as nat, 53);
    assert(pow2(l) == ulp * m);
    // n < ulp * m, so n / ulp < m, so the rounded quotient is at most m
    assert(n / ulp < m) by (nonlinear_arith)
        requires n < ulp * m, ulp >= 1;
    assert(div_round_even(n, ulp) <= m);
    assert(div_round_even(n, ulp) * ulp <= m * ulp) by (nonlinear_arith)
        requires div_round_even(n, ulp) <= m;
    lemma_pow2_adds(l, (64 - l) as nat);
    lemma_pow2_pos((64 - l) as nat);
    lemma2_to64();
    assert(pow2(l) <= pow2(64)) by (nonlinear_arith)
        requires pow2(64) == pow2(l) * pow2((64 - l) as nat), pow2((64 - l) as nat) >= 1, pow2(l) >= 0;
}

/// A byte count as a short human-readable string: `512B`, `1.0KB`, `1.0GB`.
pub fn human(bytes: u64) -> (r: String)
    ensures
        r@ == human_text(bytes),
{
    let v = as_double_exec(bytes);
    let i: usize = if v >= 1099511627776 {
        4
    } else if v >= 1073741824 {
        3
    } else if v >= 1048576 {
        2
    } else if v >= 1024 {
        1
    } else {
        0
    };
    let mut s = String::new();
    if i == 0 {
        push_decimal(&mut s, bytes as u128);
        s.append("B");
        assert(s@ =~= human_text(bytes));
        return s;
    }
    let size: u128 = if i == 1 {
        1024
    } else if i == 2 {
        1048576
    } else if i == 3 {
        1073741824
    } else {
        1099511627776
    };
    let unit: &str = if i == 1 {
        "KB"
    } else if i == 2 {
        "MB"
    } else if i == 3 {
        "GB"
    } else {
        "TB"
    };
    let tenths = div_round_even_exec(v * 10, size);
    push_decimal(&mut s, tenths / 10);
    s.append(".");
    push_decimal(&mut s, tenths % 10);
    s.append(unit);
    assert(s@ =~= human_text(bytes));
    s
}

} // verus!
