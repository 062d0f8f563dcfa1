//! Integers of a fixed width, in two's complement.
use vstd::arithmetic::div_mod::{
    lemma_fundamental_div_mod, lemma_fundamental_div_mod_converse, lemma_mod_mod,
    lemma_mod_multiples_vanish, lemma_small_mod,
};
use vstd::arithmetic::power2::{
    lemma2_to64, lemma_pow2_adds, lemma_pow2_pos, lemma_pow2_unfold, pow2,
};
use vstd::prelude::*;

verus! {

/// The number of `width` bits that agrees with `v` in its low bits.
pub open spec fn wrapped(v: int, width: nat, signed: bool) -> int {
    let m = pow2(width) as int;
    let r = v % m;
    if signed && 2 * r >= m {
        r - m
    } else {
        r
    }
}

/// How a number of `width` bits is held in 128 signed bits: below 128 bits as
/// itself, from 128 bits on by its low 128 bits.
#[verifier::opaque]
pub open spec fn held(v: int, width: nat, signed: bool) -> int {
    if width >= 128 {
        wrapped(v, 128, true)
    } else {
        wrapped(v, width, signed)
    }
}

/// The low bits of a number, at most 128 of them, as an unsigned number.
#[verifier::opaque]
pub open spec fn low(v: int, width: nat) -> int {
    if width >= 128 {
        v % (pow2(128) as int)
    } else {
        v % (pow2(width) as int)
    }
}

pub open spec fn magnitude(v: int) -> int {
    if v < 0 {
        -v
    } else {
        v
    }
}

/// Division that rounds towards zero.
pub open spec fn quotient(a: int, b: int) -> int {
    if (a < 0) == (b < 0) {
        magnitude(a) / magnitude(b)
    } else {
        -(magnitude(a) / magnitude(b))
    }
}

/// What division towards zero leaves: it has the sign of the dividend.
pub open spec fn remainder(a: int, b: int) -> int {
    if a < 0 {
        -(magnitude(a) % magnitude(b))
    } else {
        magnitude(a) % magnitude(b)
    }
}

pub proof fn lemma_pow2_128()
    ensures
        pow2(128) == u128::MAX + 1,
        pow2(127) == i128::MAX + 1,
        pow2(128) == 2 * pow2(127),
{
    lemma2_to64();
    lemma_pow2_adds(64, 64);
    lemma_pow2_unfold(128);
}

pub proof fn lemma_pow2_below(n: nat)
    requires
        n < 128,
    ensures
        0 < pow2(n) <= i128::MAX + 1,
    decreases 128 - n,
{
    lemma_pow2_pos(n);
    if n == 127 {
        lemma_pow2_128();
    } else {
        lemma_pow2_below(n + 1);
        lemma_pow2_unfold(n + 1);
    }
}

/// The least multiple of `align` that is at least `value`.
pub proof fn lemma_next_multiple(value: int, align: int)
    requires
        0 <= value,
        0 < align,
    ensures
        ({
            let over = value % align;
            ((value + align - 1) / align) * align == if over == 0 {
                value
            } else {
                value + (align - over)
            }
        }),
        0 <= value % align < align,
{
    let q = value / align;
    let over = value % align;
    lemma_fundamental_div_mod(value, align);
    vstd::arithmetic::div_mod::lemma_mod_bound(value, align);
    assert(q * align == align * q) by (nonlinear_arith);
    if over == 0 {
        lemma_fundamental_div_mod_converse(value + align - 1, align, q, align - 1);
    } else {
        assert((q + 1) * align == q * align + align) by (nonlinear_arith);
        lemma_fundamental_div_mod_converse(value + align - 1, align, q + 1, over - 1);
    }
}

/// Numbers that agree in their low 128 bits are held alike.
pub proof fn lemma_held_congruent(x: int, y: int, width: nat, signed: bool)
    requires
        x % (pow2(128) as int) == y % (pow2(128) as int),
    ensures
        held(x, width, signed) == held(y, width, signed),
        low(x, width) == low(y, width),
{
    reveal(held);
    reveal(low);
    if width < 128 {
        let rest = (128 - width) as nat;
        lemma_pow2_adds(width, rest);
        lemma_pow2_pos(width);
        lemma_pow2_pos(rest);
        lemma_mod_mod(x, pow2(width) as int, pow2(rest) as int);
        lemma_mod_mod(y, pow2(width) as int, pow2(rest) as int);
    }
}

/// A held number lies in the range of its width.
pub proof fn lemma_held_in_range(v: int, width: nat, signed: bool)
    ensures
        i128::MIN <= held(v, width, signed) <= i128::MAX,
        width < 128 && !signed ==> 0 <= held(v, width, signed) < pow2(width),
        0 < width < 128 && signed ==> -pow2((width - 1) as nat) <= held(v, width, signed)
            < pow2((width - 1) as nat),
        0 <= low(v, width) <= u128::MAX,
        width < 128 ==> low(v, width) < pow2(width),
{
    reveal(held);
    reveal(low);
    lemma_pow2_128();
    if width < 128 {
        lemma_pow2_below(width);
        if width > 0 {
            lemma_pow2_unfold(width);
        }
    }
}

/// Holding a held number changes nothing.
pub proof fn lemma_held_is_stable(v: int, width: nat, signed: bool)
    ensures
        held(held(v, width, signed), width, signed) == held(v, width, signed),
{
    reveal(held);
    let w: nat = if width >= 128 {
        128
    } else {
        width
    };
    let m = pow2(w) as int;
    lemma_pow2_pos(w);
    let r = v % m;
    let h = held(v, width, signed);
    lemma_small_mod(r as nat, m as nat);
    if h == r - m {
        lemma_mod_multiples_vanish(-1, r, m);
        assert(m * -1 + r == h);
    }
    assert(h % m == r);
}

/// A number in range is held as itself.
pub proof fn lemma_held_as_itself(v: int, width: nat, signed: bool)
    requires
        if width >= 128 {
            i128::MIN <= v <= i128::MAX
        } else if signed {
            width > 0 && -pow2((width - 1) as nat) <= v < pow2((width - 1) as nat)
        } else {
            0 <= v < pow2(width)
        },
    ensures
        held(v, width, signed) == v,
{
    reveal(held);
    lemma_pow2_128();
    let w: nat = if width >= 128 {
        128
    } else {
        width
    };
    let m = pow2(w) as int;
    lemma_pow2_pos(w);
    if w > 0 {
        lemma_pow2_unfold(w);
    }
    if v < 0 {
        lemma_mod_multiples_vanish(1, v, m);
        lemma_small_mod((v + m) as nat, m as nat);
        assert(m * 1 + v == v + m);
    } else {
        lemma_small_mod(v as nat, m as nat);
    }
}

pub fn power_of_two(n: u32) -> (r: u128)
    requires
        n < 128,
    ensures
        r == pow2(n as nat),
{
    let mut r: u128 = 1;
    let mut i: u32 = 0;
    proof {
        lemma2_to64();
    }
    while i < n
        invariant
            i <= n < 128,
            r == pow2(i as nat),
        decreases n - i,
    {
        proof {
            lemma_pow2_unfold((i + 1) as nat);
            lemma_pow2_below((i + 1) as nat);
        }
        r = r * 2;
        i += 1;
    }
    r
}

/// The 128 bits of a number.
pub fn bits_of(v: i128) -> (r: u128)
    ensures
        r == v as int % (pow2(128) as int),
        r == low(v as int, 128),
{
    reveal(low);
    proof {
        lemma_pow2_128();
    }
    if v >= 0 {
        proof {
            lemma_small_mod(v as nat, pow2(128));
        }
        v as u128
    } else {
        let below: u128 = (-(v + 1)) as u128;
        proof {
            lemma_mod_multiples_vanish(1, v as int, pow2(128) as int);
            lemma_small_mod((v + pow2(128)) as nat, pow2(128));
        }
        u128::MAX - below
    }
}

/// A number of `width` bits out of 128 bits.
pub fn hold_bits(u: u128, width: u32, signed: bool) -> (r: i128)
    ensures
        r == held(u as int, width as nat, signed),
{
    reveal(held);
    proof {
        lemma_pow2_128();
    }
    if width >= 128 {
        proof {
            lemma_small_mod(u as nat, pow2(128));
        }
        if u <= i128::MAX as u128 {
            u as i128
        } else {
            let below: i128 = (u128::MAX - u) as i128;
            -below - 1
        }
    } else {
        let m: u128 = power_of_two(width);
        proof {
            lemma_pow2_below(width as nat);
        }
        let r: u128 = u % m;
        if signed && r >= m - r {
            let below: i128 = (m - r - 1) as i128;
            -below - 1
        } else {
            r as i128
        }
    }
}

/// A number of `width` bits out of a number of any width.
pub fn hold(v: i128, width: u32, signed: bool) -> (r: i128)
    ensures
        r == held(v as int, width as nat, signed),
{
    reveal(held);
    let u: u128 = bits_of(v);
    proof {
        lemma_pow2_pos(128);
        vstd::arithmetic::div_mod::lemma_mod_twice(v as int, pow2(128) as int);
        lemma_held_congruent(u as int, v as int, width as nat, signed);
    }
    hold_bits(u, width, signed)
}

/// The low `width` bits of a number, as an unsigned number.
pub fn low_bits(v: i128, width: u32) -> (r: u128)
    ensures
        r == low(v as int, width as nat),
{
    reveal(low);
    let u: u128 = bits_of(v);
    if width >= 128 {
        u
    } else {
        let m: u128 = power_of_two(width);
        proof {
            lemma_pow2_pos(128);
            lemma_pow2_pos(width as nat);
            vstd::arithmetic::div_mod::lemma_mod_twice(v as int, pow2(128) as int);
            lemma_held_congruent(u as int, v as int, width as nat, false);
        }
        u % m
    }
}

pub fn hold_sum(a: i128, b: i128, width: u32, signed: bool) -> (r: i128)
    ensures
        r == held(a + b, width as nat, signed),
{
    reveal(held);
    let x: u128 = bits_of(a);
    let y: u128 = bits_of(b);
    let u: u128 = x.wrapping_add(y);
    proof {
        lemma_pow2_128();
        vstd::arithmetic::div_mod::lemma_add_mod_noop(a as int, b as int, pow2(128) as int);
        if x + y > u128::MAX {
            lemma_mod_multiples_vanish(1, x + y - pow2(128), pow2(128) as int);
        }
        lemma_held_congruent(u as int, a + b, width as nat, signed);
    }
    hold_bits(u, width, signed)
}

pub fn hold_difference(a: i128, b: i128, width: u32, signed: bool) -> (r: i128)
    ensures
        r == held(a - b, width as nat, signed),
{
    reveal(held);
    let x: u128 = bits_of(a);
    let y: u128 = bits_of(b);
    let u: u128 = x.wrapping_sub(y);
    proof {
        lemma_pow2_128();
        vstd::arithmetic::div_mod::lemma_sub_mod_noop(a as int, b as int, pow2(128) as int);
        if x < y {
            lemma_mod_multiples_vanish(1, x - y, pow2(128) as int);
        }
        lemma_held_congruent(u as int, a - b, width as nat, signed);
    }
    hold_bits(u, width, signed)
}

pub fn hold_product(a: i128, b: i128, width: u32, signed: bool) -> (r: i128)
    ensures
        r == held(a * b, width as nat, signed),
{
    reveal(held);
    let x: u128 = bits_of(a);
    let y: u128 = bits_of(b);
    let u: u128 = x.wrapping_mul(y);
    proof {
        lemma_pow2_128();
        vstd::arithmetic::div_mod::lemma_mul_mod_noop_general(a as int, b as int, pow2(128) as int);
        vstd::arithmetic::div_mod::lemma_mod_twice(x * y, pow2(128) as int);
        lemma_held_congruent(u as int, a * b, width as nat, signed);
    }
    hold_bits(u, width, signed)
}

/// The negated number, in `width` bits.
pub fn hold_negation(a: i128, width: u32, signed: bool) -> (r: i128)
    ensures
        r == held(-a, width as nat, signed),
{
    reveal(held);
    hold_difference(0, a, width, signed)
}

/// Every bit turned: `-1 - a`.
pub fn hold_complement(a: i128, width: u32, signed: bool) -> (r: i128)
    ensures
        r == held(-1 - a, width as nat, signed),
{
    reveal(held);
    hold_difference(-1, a, width, signed)
}

/// The low `width` bits of a number, moved up by `amount`.
pub fn hold_shift_up(u: u128, amount: u32, width: u32, signed: bool) -> (r: i128)
    requires
        amount < 128,
    ensures
        r == held(u * pow2(amount as nat), width as nat, signed),
{
    reveal(held);
    let p: u128 = power_of_two(amount);
    let product: u128 = u.wrapping_mul(p);
    proof {
        lemma_pow2_128();
        vstd::arithmetic::div_mod::lemma_mod_twice(u * p, pow2(128) as int);
        lemma_held_congruent(product as int, u * p, width as nat, signed);
    }
    hold_bits(product, width, signed)
}

/// A number moved down by `amount` bits, its sign kept: division that rounds
/// down.
pub fn shift_down(v: i128, amount: u32) -> (r: i128)
    requires
        amount < 128,
    ensures
        r == v as int / (pow2(amount as nat) as int),
{
    let p: u128 = power_of_two(amount);
    proof {
        lemma_pow2_pos(amount as nat);
    }
    if v >= 0 {
        let q: u128 = (v as u128) / p;
        proof {
            lemma_quotient_bound(v as int, p as int);
        }
        q as i128
    } else {
        let below: u128 = (-(v + 1)) as u128;
        let q: u128 = below / p;
        proof {
            lemma_quotient_bound(below as int, p as int);
            lemma_fundamental_div_mod(below as int, p as int);
            assert(v as int
                == p * (-q - 1) + (p - (below as int % p as int) - 1)) by (nonlinear_arith)
                requires
                    below as int == p * q + (below as int % p as int),
                    v == -below - 1,
            ;
            lemma_fundamental_div_mod_converse(
                v as int,
                p as int,
                -q - 1,
                p - (below as int % p as int) - 1,
            );
        }
        -(q as i128) - 1
    }
}

proof fn lemma_quotient_bound(a: int, b: int)
    requires
        a >= 0,
        b >= 1,
    ensures
        0 <= a / b <= a,
{
    assert(0 <= a / b <= a) by (nonlinear_arith)
        requires
            a >= 0,
            b >= 1,
    ;
}

fn unsigned_magnitude(v: i128) -> (r: u128)
    ensures
        r == magnitude(v as int),
{
    if v >= 0 {
        v as u128
    } else {
        (-(v + 1)) as u128 + 1
    }
}

/// Division that rounds towards zero.
pub fn divide(a: i128, b: i128) -> (r: i128)
    requires
        b != 0,
        !(a == i128::MIN && b == -1),
    ensures
        r == quotient(a as int, b as int),
{
    let x: u128 = unsigned_magnitude(a);
    let y: u128 = unsigned_magnitude(b);
    let q: u128 = x / y;
    proof {
        lemma_quotient_bound(x as int, y as int);
        if y >= 2 {
            assert(x as int / y as int <= i128::MAX) by (nonlinear_arith)
                requires
                    0 <= x <= i128::MAX + 1,
                    y >= 2,
            ;
        }
    }
    if (a < 0) == (b < 0) {
        q as i128
    } else if q == 0 {
        0
    } else {
        -((q - 1) as i128) - 1
    }
}

/// What division towards zero leaves.
pub fn remain(a: i128, b: i128) -> (r: i128)
    requires
        b != 0,
    ensures
        r == remainder(a as int, b as int),
{
    let x: u128 = unsigned_magnitude(a);
    let y: u128 = unsigned_magnitude(b);
    let m: u128 = x % y;
    if a < 0 {
        -(m as i128)
    } else {
        m as i128
    }
}

/// Division and what it leaves make up the dividend.
pub proof fn lemma_quotient_and_remainder(a: int, b: int)
    requires
        b != 0,
    ensures
        a == quotient(a, b) * b + remainder(a, b),
        magnitude(remainder(a, b)) < magnitude(b),
{
    let x = magnitude(a);
    let y = magnitude(b);
    lemma_fundamental_div_mod(x, y);
    let q = x / y;
    let r = x % y;
    assert(x == y * q + r);
    assert(y * q == q * y) by (nonlinear_arith);
    if a < 0 && b < 0 {
        assert(q * b == -(q * y)) by (nonlinear_arith)
            requires
                b == -y,
        ;
    } else if a < 0 {
        assert((-q) * b == -(q * y)) by (nonlinear_arith)
            requires
                b == y,
        ;
    } else if b < 0 {
        assert((-q) * b == q * y) by (nonlinear_arith)
            requires
                b == -y,
        ;
    }
}

} // verus!
