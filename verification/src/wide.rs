use vstd::prelude::*;
use vstd::arithmetic::div_mod::*;
use crate::bits::{Bits, lemma_widths};
use crate::fault::Fault;

verus! {

/// The integer types of the width-generic operations.
#[derive(Clone, Copy, Debug, PartialEq, Eq, Structural)]
pub enum Ty {
    U16,
    U32,
    U64,
    U128,
    I16,
    I32,
    I64,
    I128,
}

/// The binary width-generic operations.
#[derive(Clone, Copy, Debug, PartialEq, Eq, Structural)]
pub enum Op {
    Add,
    Sub,
    Mul,
    Div,
    Modulo,
    BitAnd,
    BitOr,
    BitXor,
    Le,
    Ge,
    Lt,
    Gt,
    Eq,
}

impl Op {
    /// Whether the operation yields a truth value (one byte, 0 or 1) rather
    /// than a number of the operands' width.
    pub open spec fn is_comparison(self) -> bool {
        self == Op::Le || self == Op::Ge || self == Op::Lt || self == Op::Gt || self == Op::Eq
    }

    /// Whether the operation yields a truth value.
    pub fn yields_truth(self) -> (r: bool)
        ensures
            r == self.is_comparison(),
    {
        match self {
            Op::Le | Op::Ge | Op::Lt | Op::Gt | Op::Eq => true,
            _ => false,
        }
    }
}

impl Ty {
    /// The width in bits.
    pub open spec fn bits(self) -> nat {
        match self {
            Ty::U16 | Ty::I16 => 16,
            Ty::U32 | Ty::I32 => 32,
            Ty::U64 | Ty::I64 => 64,
            Ty::U128 | Ty::I128 => 128,
        }
    }

    /// The width in bytes.
    pub open spec fn bytes(self) -> nat {
        self.bits() / 8
    }

    /// Whether the type is signed (two's complement).
    pub open spec fn signed(self) -> bool {
        self == Ty::I16 || self == Ty::I32 || self == Ty::I64 || self == Ty::I128
    }

    /// `2^bits`: the number of bit patterns of the type.
    pub open spec fn modulus(self) -> int {
        match self {
            Ty::U16 | Ty::I16 => 0x1_0000,
            Ty::U32 | Ty::I32 => 0x1_0000_0000,
            Ty::U64 | Ty::I64 => 0x1_0000_0000_0000_0000,
            Ty::U128 | Ty::I128 => 0x1_0000_0000_0000_0000_0000_0000_0000_0000int,
        }
    }

    /// The number that the bit pattern `p` stands for.
    pub open spec fn value(self, p: int) -> int {
        if self.signed() && 2 * p >= self.modulus() {
            p - self.modulus()
        } else {
            p
        }
    }

    /// The bit pattern of `v`, wrapped around into the type's range.
    pub open spec fn pattern(self, v: int) -> int {
        v % self.modulus()
    }

    /// Whether the type can represent `v`.
    pub open spec fn in_range(self, v: int) -> bool {
        if self.signed() {
            -self.modulus() <= 2 * v < self.modulus()
        } else {
            0 <= v < self.modulus()
        }
    }

    /// The width in bits.
    pub fn width(self) -> (r: u8)
        ensures
            r == self.bits(),
    {
        proof {
            lemma_widths();
        }
        match self {
            Ty::U16 => <u16 as Bits>::BITS,
            Ty::U32 => <u32 as Bits>::BITS,
            Ty::U64 => <u64 as Bits>::BITS,
            Ty::U128 => <u128 as Bits>::BITS,
            Ty::I16 => <i16 as Bits>::BITS,
            Ty::I32 => <i32 as Bits>::BITS,
            Ty::I64 => <i64 as Bits>::BITS,
            Ty::I128 => <i128 as Bits>::BITS,
        }
    }

    /// The width in bytes.
    pub fn size(self) -> (r: usize)
        ensures
            r == self.bytes(),
            r == 2 || r == 4 || r == 8 || r == 16,
    {
        (self.width() / 8) as usize
    }

    /// Whether the type is signed.
    pub fn is_signed(self) -> (r: bool)
        ensures
            r == self.signed(),
    {
        match self {
            Ty::I16 | Ty::I32 | Ty::I64 | Ty::I128 => true,
            _ => false,
        }
    }

    /// The highest bit pattern: all bits set.
    pub fn max_pattern(self) -> (r: u128)
        ensures
            r == self.modulus() - 1,
    {
        match self {
            Ty::U16 | Ty::I16 => 0xFFFF,
            Ty::U32 | Ty::I32 => 0xFFFF_FFFF,
            Ty::U64 | Ty::I64 => 0xFFFF_FFFF_FFFF_FFFF,
            Ty::U128 | Ty::I128 => 0xFFFF_FFFF_FFFF_FFFF_FFFF_FFFF_FFFF_FFFF,
        }
    }
}

/// The absolute value.
pub open spec fn magnitude(x: int) -> int {
    if x < 0 {
        -x
    } else {
        x
    }
}

/// The quotient rounded towards zero.
pub open spec fn trunc_div(x: int, y: int) -> int {
    if (x < 0) != (y < 0) {
        -(magnitude(x) / magnitude(y))
    } else {
        magnitude(x) / magnitude(y)
    }
}

/// The remainder that goes with [`trunc_div`]: it has the sign of `x`.
pub open spec fn trunc_rem(x: int, y: int) -> int {
    if x < 0 {
        -(magnitude(x) % magnitude(y))
    } else {
        magnitude(x) % magnitude(y)
    }
}

/// 1 for true, 0 for false.
pub open spec fn truth(b: bool) -> int {
    if b {
        1
    } else {
        0
    }
}

/// What a binary operation yields on the operands with the bit patterns `b`
/// (left) and `a` (right): the bit pattern of the result, computed on the
/// numbers that the patterns stand for and wrapped around into the type's
/// range, or 0 or 1 for a comparison.  Division and remainder fail when the
/// divisor is zero or the quotient cannot be represented.
pub open spec fn binary(op: Op, ty: Ty, b: int, a: int) -> Result<int, Fault> {
    let x = ty.value(b);
    let y = ty.value(a);
    match op {
        Op::Add => Ok(ty.pattern(x + y)),
        Op::Sub => Ok(ty.pattern(x - y)),
        Op::Mul => Ok(ty.pattern(x * y)),
        Op::Div => if y == 0 || !ty.in_range(trunc_div(x, y)) {
            Err(Fault::ArithmeticFault)
        } else {
            Ok(ty.pattern(trunc_div(x, y)))
        },
        Op::Modulo => if y == 0 || !ty.in_range(trunc_div(x, y)) {
            Err(Fault::ArithmeticFault)
        } else {
            Ok(ty.pattern(trunc_rem(x, y)))
        },
        Op::BitAnd => Ok(((b as u128) & (a as u128)) as int),
        Op::BitOr => Ok(((b as u128) | (a as u128)) as int),
        Op::BitXor => Ok(((b as u128) ^ (a as u128)) as int),
        Op::Le => Ok(truth(x <= y)),
        Op::Ge => Ok(truth(x >= y)),
        Op::Lt => Ok(truth(x < y)),
        Op::Gt => Ok(truth(x > y)),
        Op::Eq => Ok(truth(x == y)),
    }
}

/// Whether the pattern stands for a negative number, and the magnitude of
/// that number.
pub fn sign_magnitude(ty: Ty, p: u128) -> (r: (bool, u128))
    requires
        p < ty.modulus(),
    ensures
        r.0 == (ty.value(p as int) < 0),
        r.1 == magnitude(ty.value(p as int)),
{
    let max = ty.max_pattern();
    if ty.is_signed() && p > max / 2 {
        (true, max - p + 1)
    } else {
        (false, p)
    }
}

/// The bit pattern of the number with the given sign and magnitude.
pub fn from_sign_magnitude(ty: Ty, negative: bool, m: u128) -> (r: u128)
    requires
        m < ty.modulus(),
    ensures
        r < ty.modulus(),
        r == ty.pattern(
            if negative {
                -(m as int)
            } else {
                m as int
            },
        ),
{
    let max = ty.max_pattern();
    proof {
        lemma_small_mod(m as nat, ty.modulus() as nat);
    }
    if negative && m != 0 {
        proof {
            lemma_mod_multiples_vanish(1, -(m as int), ty.modulus());
            lemma_small_mod((ty.modulus() - m) as nat, ty.modulus() as nat);
        }
        max - m + 1
    } else {
        m
    }
}

/// The pattern of a number is the pattern that stands for it.
pub proof fn lemma_pattern_of_value(ty: Ty, p: int)
    requires
        0 <= p < ty.modulus(),
    ensures
        ty.pattern(ty.value(p)) == p,
        ty.in_range(ty.value(p)),
{
    lemma_small_mod(p as nat, ty.modulus() as nat);
    if ty.value(p) != p {
        lemma_mod_multiples_vanish(-1, p, ty.modulus());
    }
}

fn wrapping_sum(ty: Ty, b: u128, a: u128) -> (r: u128)
    requires
        b < ty.modulus(),
        a < ty.modulus(),
    ensures
        r < ty.modulus(),
        Ok::<int, Fault>(r as int) == binary(Op::Add, ty, b as int, a as int),
{
    let max = ty.max_pattern();
    let room = max - b;
    proof {
        let m = ty.modulus();
        let x = ty.value(b as int);
        let y = ty.value(a as int);
        lemma_pattern_of_value(ty, b as int);
        lemma_pattern_of_value(ty, a as int);
        lemma_add_mod_noop(x, y, m);
        assert((x + y) % m == (b + a) % m);
        if a <= room {
            lemma_small_mod((b + a) as nat, m as nat);
        } else {
            lemma_mod_multiples_vanish(-1, b + a, m);
            lemma_small_mod((b + a - m) as nat, m as nat);
        }
    }
    if a <= room {
        b + a
    } else {
        a - room - 1
    }
}

fn wrapping_difference(ty: Ty, b: u128, a: u128) -> (r: u128)
    requires
        b < ty.modulus(),
        a < ty.modulus(),
    ensures
        r < ty.modulus(),
        Ok::<int, Fault>(r as int) == binary(Op::Sub, ty, b as int, a as int),
{
    let max = ty.max_pattern();
    proof {
        let m = ty.modulus();
        let x = ty.value(b as int);
        let y = ty.value(a as int);
        lemma_pattern_of_value(ty, b as int);
        lemma_pattern_of_value(ty, a as int);
        lemma_sub_mod_noop(x, y, m);
        assert((x - y) % m == (b - a) % m);
        if b >= a {
            lemma_small_mod((b - a) as nat, m as nat);
        } else {
            lemma_mod_multiples_vanish(1, b - a, m);
            lemma_small_mod((b - a + m) as nat, m as nat);
        }
    }
    if b >= a {
        b - a
    } else {
        max - (a - b) + 1
    }
}

fn wrapping_product(ty: Ty, b: u128, a: u128) -> (r: u128)
    requires
        b < ty.modulus(),
        a < ty.modulus(),
    ensures
        r < ty.modulus(),
        Ok::<int, Fault>(r as int) == binary(Op::Mul, ty, b as int, a as int),
{
    let max = ty.max_pattern();
    let p = b.wrapping_mul(a);
    proof {
        let m = ty.modulus();
        let full = 0x1_0000_0000_0000_0000_0000_0000_0000_0000int;
        let x = ty.value(b as int);
        let y = ty.value(a as int);
        lemma_pattern_of_value(ty, b as int);
        lemma_pattern_of_value(ty, a as int);
        lemma_mul_mod_noop_general(x, y, m);
        assert((x * y) % m == (b * a) % m);
        assert(p == (b * a) % full);
        if max == u128::MAX {
            assert(m == full);
        } else {
            assert(m * (full / m) == full);
            lemma_mod_mod(b * a, m, full / m);
            lemma_mod_bound(p as int, m);
        }
    }
    if max == u128::MAX {
        p
    } else {
        p % (max + 1)
    }
}

/// The quotient and the remainder of a division, rounded towards zero, as
/// bit patterns; a fault when the divisor is zero or the quotient cannot be
/// represented.
fn quotient_remainder(ty: Ty, b: u128, a: u128) -> (r: Result<(u128, u128), Fault>)
    requires
        b < ty.modulus(),
        a < ty.modulus(),
    ensures
        match r {
            Ok((q, rem)) => q < ty.modulus() && rem < ty.modulus() && Ok::<int, Fault>(q as int)
                == binary(Op::Div, ty, b as int, a as int) && Ok::<int, Fault>(rem as int)
                == binary(Op::Modulo, ty, b as int, a as int),
            Err(f) => binary(Op::Div, ty, b as int, a as int) == Err::<int, Fault>(f) && binary(
                Op::Modulo,
                ty,
                b as int,
                a as int,
            ) == Err::<int, Fault>(f),
        },
{
    let (neg_b, mag_b) = sign_magnitude(ty, b);
    let (neg_a, mag_a) = sign_magnitude(ty, a);
    if mag_a == 0 {
        return Err(Fault::ArithmeticFault);
    }
    let q = mag_b / mag_a;
    let rem = mag_b % mag_a;
    let negative = neg_b != neg_a;
    proof {
        lemma_div_bound(mag_b as int, mag_a as int);
    }
    if ty.is_signed() && !negative && q > ty.max_pattern() / 2 {
        return Err(Fault::ArithmeticFault);
    }
    Ok((from_sign_magnitude(ty, negative, q), from_sign_magnitude(ty, neg_b, rem)))
}

/// `x / y` lies between 0 and `x`, and `x % y` below `y`.
proof fn lemma_div_bound(x: int, y: int)
    requires
        0 <= x,
        0 < y,
    ensures
        0 <= x / y <= x,
        0 <= x % y < y,
        x % y <= x,
{
    lemma_fundamental_div_mod(x, y);
    lemma_div_pos_is_pos(x, y);
    lemma_mod_bound(x, y);
    assert(y * (x / y) >= x / y) by (nonlinear_arith)
        requires
            y >= 1,
            x / y >= 0,
    ;
}

fn ordered(ty: Ty, b: u128, a: u128) -> (r: bool)
    requires
        b < ty.modulus(),
        a < ty.modulus(),
    ensures
        r == (ty.value(b as int) < ty.value(a as int)),
{
    let (neg_b, _) = sign_magnitude(ty, b);
    let (neg_a, _) = sign_magnitude(ty, a);
    if neg_b != neg_a {
        neg_b
    } else {
        b < a
    }
}

fn truth_value(b: bool) -> (r: u128)
    ensures
        r == truth(b),
{
    if b {
        1
    } else {
        0
    }
}

/// Applies a binary operation to the operands with the bit patterns `b`
/// (left) and `a` (right).
pub fn apply(op: Op, ty: Ty, b: u128, a: u128) -> (r: Result<u128, Fault>)
    requires
        b < ty.modulus(),
        a < ty.modulus(),
    ensures
        match r {
            Ok(v) => binary(op, ty, b as int, a as int) == Ok::<int, Fault>(v as int) && v
                < ty.modulus(),
            Err(f) => binary(op, ty, b as int, a as int) == Err::<int, Fault>(f),
        },
{
    proof {
        lemma_pattern_of_value(ty, b as int);
        lemma_pattern_of_value(ty, a as int);
    }
    match op {
        Op::Add => Ok(wrapping_sum(ty, b, a)),
        Op::Sub => Ok(wrapping_difference(ty, b, a)),
        Op::Mul => Ok(wrapping_product(ty, b, a)),
        Op::Div => match quotient_remainder(ty, b, a) {
            Ok((q, _)) => Ok(q),
            Err(f) => Err(f),
        },
        Op::Modulo => match quotient_remainder(ty, b, a) {
            Ok((_, rem)) => Ok(rem),
            Err(f) => Err(f),
        },
        Op::BitAnd => {
            let max = ty.max_pattern();
            assert(b <= max && a <= max && (max == 0xFFFF || max == 0xFFFF_FFFF || max
                == 0xFFFF_FFFF_FFFF_FFFF || max == 0xFFFF_FFFF_FFFF_FFFF_FFFF_FFFF_FFFF_FFFF) ==> b
                & a <= max) by (bit_vector);
            Ok(b & a)
        },
        Op::BitOr => {
            let max = ty.max_pattern();
            assert(b <= max && a <= max && (max == 0xFFFF || max == 0xFFFF_FFFF || max
                == 0xFFFF_FFFF_FFFF_FFFF || max == 0xFFFF_FFFF_FFFF_FFFF_FFFF_FFFF_FFFF_FFFF) ==> b
                | a <= max) by (bit_vector);
            Ok(b | a)
        },
        Op::BitXor => {
            let max = ty.max_pattern();
            assert(b <= max && a <= max && (max == 0xFFFF || max == 0xFFFF_FFFF || max
                == 0xFFFF_FFFF_FFFF_FFFF || max == 0xFFFF_FFFF_FFFF_FFFF_FFFF_FFFF_FFFF_FFFF) ==> b
                ^ a <= max) by (bit_vector);
            Ok(b ^ a)
        },
        Op::Le => Ok(truth_value(!ordered(ty, a, b))),
        Op::Ge => Ok(truth_value(!ordered(ty, b, a))),
        Op::Lt => Ok(truth_value(ordered(ty, b, a))),
        Op::Gt => Ok(truth_value(ordered(ty, a, b))),
        Op::Eq => Ok(truth_value(b == a)),
    }
}

} // verus!
