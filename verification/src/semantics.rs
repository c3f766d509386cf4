//! What the instructions do, stated of one step of execution: the operands
//! on the stack before it, and the values on the stack after it.
use vstd::prelude::*;
use vstd::std_specs::bits;

use crate::frame;
use crate::frame::{EffectModel, FrameModel, StepModel};
use crate::instance::InstanceModel;
use crate::instr;
use crate::instr::{Instr, InstrModel};
use crate::numeric;
use crate::numeric::Group;
use crate::types::{TrapCode, Value, WasmError};

verus! {

/// Whether the instruction at the frame's position is `i`, and the next one
/// is at `q`.
pub open spec fn next_is(f: FrameModel, i: Instr, q: int) -> bool {
    instr::instr_at(f.code, f.pc) == (Ok::<Option<InstrModel>, WasmError>(
        Some(InstrModel::Plain(i)),
    ), q)
}

/// Whether the next step leaves the given stack, goes on at `q`, and changes
/// nothing else.
pub open spec fn leaves(f: FrameModel, m: InstanceModel, q: int, stack: Seq<Value>) -> bool {
    frame::step(f, m) == Ok::<StepModel, WasmError>(
        StepModel {
            frame: FrameModel { stack, pc: q, ..f },
            inst: m,
            effect: EffectModel::Next,
        },
    )
}

/// 1 for true and 0 for false.
pub open spec fn truth(b: bool) -> Value {
    Value::I32(
        if b {
            1
        } else {
            0
        },
    )
}

/// Whether dividing `a` by `b`, rounding towards zero, gives `x` with
/// remainder `r`.
pub open spec fn divides(a: int, b: int, x: int, r: int) -> bool {
    &&& a == b * x + r
    &&& if b > 0 {
        -b < r < b
    } else {
        b < r < -b
    }
    &&& r > 0 ==> a > 0
    &&& r < 0 ==> a < 0
}

proof fn lemma_divides(a: int, b: int)
    requires
        b != 0,
    ensures
        divides(a, b, numeric::quotient(a, b), numeric::remainder(a, b)),
        a - b * numeric::quotient(a, b) == numeric::remainder(a, b),
        -numeric::magnitude(a) <= numeric::quotient(a, b) <= numeric::magnitude(a),
        numeric::quotient(a, b) == numeric::magnitude(a) ==> a == 0 || ((a < 0) == (b < 0)
            && numeric::magnitude(b) == 1),
{
    let x = numeric::magnitude(a);
    let d = numeric::magnitude(b);
    let k = x / d;
    vstd::arithmetic::div_mod::lemma_fundamental_div_mod(x, d);
    vstd::arithmetic::div_mod::lemma_mod_bound(x, d);
    vstd::arithmetic::div_mod::lemma_div_pos_is_pos(x, d);
    assert(b * k == -(-b * k) && b * (-k) == -(b * k) && (-b) * (-k) == b * k) by (nonlinear_arith);
    assert((-b) * k == -(b * k)) by (nonlinear_arith);
    assert(0 <= k <= x && (k == x ==> x == 0 || d == 1)) by (nonlinear_arith)
        requires
            0 <= k,
            d >= 1,
            x >= 0,
            x == d * k + x % d,
            0 <= x % d < d,
    ;
}

/// The 32-bit signed number that agrees with `x` modulo 2^32.
pub open spec fn wrap32(x: int) -> i32 {
    if x % 0x1_0000_0000 < 0x8000_0000 {
        (x % 0x1_0000_0000) as i32
    } else {
        (x % 0x1_0000_0000 - 0x1_0000_0000) as i32
    }
}

/// A 32-bit number read as an unsigned one.
pub open spec fn unsigned32(a: i32) -> int {
    if a < 0 {
        a + 0x1_0000_0000
    } else {
        a as int
    }
}

/// Bit `i` of a 32-bit word.
pub open spec fn bit32(x: u32, i: u32) -> bool {
    (x >> i) & 1 == 1
}

pub proof fn lemma_words32(a: i32, x: u32)
    by (bit_vector)
    ensures
        a >= 0 ==> a as u32 == a,
        a < 0 ==> a as u32 == a + 0x1_0000_0000,
        x < 0x8000_0000 ==> x as i32 == x,
        x >= 0x8000_0000 ==> x as i32 == x - 0x1_0000_0000,
        (x as i32) as u32 == x,
        (a as u32) as i32 == a,
{
}

pub proof fn lemma_wrap32(x: int)
    ensures
        (wrap32(x) - x) % 0x1_0000_0000 == 0,
        i32::MIN <= x <= i32::MAX ==> wrap32(x) == x,
{
}

proof fn lemma_bits32(a: i32, b: i32, k: u32, i: u32)
    by (bit_vector)
    requires
        k < 32,
        i < 32,
    ensures
        bit32((a & b) as u32, i) == (bit32(a as u32, i) && bit32(b as u32, i)),
        bit32((a | b) as u32, i) == (bit32(a as u32, i) || bit32(b as u32, i)),
        bit32((a ^ b) as u32, i) == (bit32(a as u32, i) != bit32(b as u32, i)),
        bit32((a << k) as u32, i) == (i >= k && bit32(a as u32, (i - k) as u32)),
        bit32((a >> k) as u32, i) == bit32(
            a as u32,
            if i + k < 32 {
                (i + k) as u32
            } else {
                31
            },
        ),
        bit32((a as u32) >> k, i) == (i + k < 32 && bit32(a as u32, (i + k) as u32)),
        k > 0 ==> bit32(((a as u32) << k) | ((a as u32) >> ((32 - k) as u32)), i) == bit32(
            a as u32,
            if i >= k {
                (i - k) as u32
            } else {
                (i + 32 - k) as u32
            },
        ),
        k > 0 ==> bit32(((a as u32) >> k) | ((a as u32) << ((32 - k) as u32)), i) == bit32(
            a as u32,
            if i + k < 32 {
                (i + k) as u32
            } else {
                (i + k - 32) as u32
            },
        ),
{
}

/// Whether the next instruction is `i`, and the two values on top of `s` are
/// `a` and, above it, `b`.
pub open spec fn two_i32(f: FrameModel, i: Instr, q: int, s: Seq<Value>, a: i32, b: i32) -> bool {
    next_is(f, i, q) && f.stack == s.push(Value::I32(a)).push(Value::I32(b))
}

/// Whether the next instruction is `i`, and the value on top of `s` is `a`.
pub open spec fn one_i32(f: FrameModel, i: Instr, q: int, s: Seq<Value>, a: i32) -> bool {
    next_is(f, i, q) && f.stack == s.push(Value::I32(a))
}

proof fn lemma_binary_i32(f: FrameModel, m: InstanceModel, i: Instr, q: int, s: Seq<Value>, a: i32, b: i32)
    requires
        two_i32(f, i, q, s, a, b),
        numeric::group(i) == Group::BinaryI32,
    ensures
        match numeric::binary_i32(i, a, b) {
            Ok(v) => leaves(f, m, q, s.push(v)),
            Err(e) => frame::step(f, m) == Err::<StepModel, WasmError>(e),
        },
{
    reveal(frame::step);
    assert(f.stack.drop_last() =~= s.push(Value::I32(a)));
    assert(s.push(Value::I32(a)).drop_last() =~= s);
}

proof fn lemma_unary_i32(f: FrameModel, m: InstanceModel, i: Instr, q: int, s: Seq<Value>, a: i32)
    requires
        one_i32(f, i, q, s, a),
        numeric::group(i) == Group::UnaryI32,
    ensures
        leaves(f, m, q, s.push(numeric::unary_i32(i, a))),
{
    reveal(frame::step);
    assert(f.stack.drop_last() =~= s);
}

/// Addition, subtraction and multiplication give the sum, the difference
/// (the value below minus the value on top) and the product, modulo 2^32.
pub proof fn law_i32_arithmetic(f: FrameModel, m: InstanceModel, i: Instr, q: int, s: Seq<Value>, a: i32, b: i32)
    requires
        two_i32(f, i, q, s, a, b),
    ensures
        i is I32Add ==> leaves(f, m, q, s.push(Value::I32(wrap32(a + b)))),
        i is I32Sub ==> leaves(f, m, q, s.push(Value::I32(wrap32(a - b)))),
        i is I32Mul ==> leaves(f, m, q, s.push(Value::I32(wrap32(a * b)))),
        wrap32(wrap32(a - b) + b) == a,
        i32::MIN <= a - b <= i32::MAX ==> wrap32(a - b) == a - b,
        i32::MIN <= a + b <= i32::MAX ==> wrap32(a + b) == a + b,
        i32::MIN <= a * b <= i32::MAX ==> wrap32(a * b) == a * b,
{
    lemma_wrap32(a + b);
    lemma_wrap32(a - b);
    lemma_wrap32(a * b);
    if i is I32Add || i is I32Sub || i is I32Mul {
        lemma_binary_i32(f, m, i, q, s, a, b);
    }
}

/// The quotient of signed division is rounded towards zero, and the remainder
/// that goes with it has the sign of the dividend. Division by zero traps,
/// and so does a quotient that is out of range; a remainder never is.
pub proof fn law_i32_signed_division(f: FrameModel, m: InstanceModel, i: Instr, q: int, s: Seq<Value>, a: i32, b: i32)
    requires
        two_i32(f, i, q, s, a, b),
    ensures
        (i is I32DivS || i is I32RemS) && b == 0 ==> frame::step(f, m) == Err::<StepModel, WasmError>(
            WasmError::Trap(TrapCode::DivisionByZero),
        ),
        i is I32DivS && a == i32::MIN && b == -1 ==> frame::step(f, m) == Err::<StepModel, WasmError>(
            WasmError::Trap(TrapCode::IntegerOverflow),
        ),
        i is I32DivS && b != 0 && !(a == i32::MIN && b == -1) ==> exists|x: i32|
            leaves(f, m, q, s.push(Value::I32(x))) && divides(a as int, b as int, x as int, a - b * x),
        i is I32RemS && b != 0 ==> exists|r: i32|
            leaves(f, m, q, s.push(Value::I32(r))) && exists|x: int|
                #[trigger] divides(a as int, b as int, x, r as int),
{
    if i is I32DivS || i is I32RemS {
        lemma_binary_i32(f, m, i, q, s, a, b);
        if b != 0 {
            let x = numeric::quotient(a as int, b as int);
            let r = numeric::remainder(a as int, b as int);
            lemma_divides(a as int, b as int);
            assert(a - b * x == r);
            if !(a == i32::MIN && b == -1) {
                assert(i32::MIN <= x <= i32::MAX);
            }
            assert(i32::MIN <= r <= i32::MAX);
            if i is I32DivS && !(a == i32::MIN && b == -1) {
                assert(leaves(f, m, q, s.push(Value::I32(x as i32))));
            }
            if i is I32RemS {
                assert(leaves(f, m, q, s.push(Value::I32(r as i32))));
            }
        }
    }
}

/// Unsigned division and remainder are those of the operands read as unsigned
/// numbers; division by zero traps.
pub proof fn law_i32_unsigned_division(f: FrameModel, m: InstanceModel, i: Instr, q: int, s: Seq<Value>, a: i32, b: i32)
    requires
        two_i32(f, i, q, s, a, b),
    ensures
        (i is I32DivU || i is I32RemU) && b == 0 ==> frame::step(f, m) == Err::<StepModel, WasmError>(
            WasmError::Trap(TrapCode::DivisionByZero),
        ),
        i is I32DivU && b != 0 ==> leaves(
            f,
            m,
            q,
            s.push(Value::I32(wrap32(unsigned32(a) / unsigned32(b)))),
        ),
        i is I32RemU && b != 0 ==> leaves(
            f,
            m,
            q,
            s.push(Value::I32(wrap32(unsigned32(a) % unsigned32(b)))),
        ),
{
    if i is I32DivU || i is I32RemU {
        lemma_binary_i32(f, m, i, q, s, a, b);
        lemma_words32(a, 0);
        lemma_words32(b, 0);
        if b != 0 {
            let x = a as u32;
            let y = b as u32;
            vstd::arithmetic::div_mod::lemma_div_is_ordered_by_denominator(x as int, 1, y as int);
            vstd::arithmetic::div_mod::lemma_div_basics(x as int);
            vstd::arithmetic::div_mod::lemma_div_pos_is_pos(x as int, y as int);
            vstd::arithmetic::div_mod::lemma_mod_bound(x as int, y as int);
            lemma_words32(a, x / y);
            lemma_words32(a, x % y);
            vstd::arithmetic::div_mod::lemma_small_mod((x / y) as nat, 0x1_0000_0000);
            vstd::arithmetic::div_mod::lemma_small_mod((x % y) as nat, 0x1_0000_0000);
        }
    }
}

/// Comparisons give 1 where they hold of the value below and the value on top,
/// and 0 otherwise; the unsigned ones compare the operands as unsigned
/// numbers.
pub proof fn law_i32_comparisons(f: FrameModel, m: InstanceModel, i: Instr, q: int, s: Seq<Value>, a: i32, b: i32)
    requires
        two_i32(f, i, q, s, a, b),
    ensures
        i is I32Eq ==> leaves(f, m, q, s.push(truth(a == b))),
        i is I32Ne ==> leaves(f, m, q, s.push(truth(a != b))),
        i is I32LtS ==> leaves(f, m, q, s.push(truth(a < b))),
        i is I32GtS ==> leaves(f, m, q, s.push(truth(a > b))),
        i is I32LeS ==> leaves(f, m, q, s.push(truth(a <= b))),
        i is I32GeS ==> leaves(f, m, q, s.push(truth(a >= b))),
        i is I32LtU ==> leaves(f, m, q, s.push(truth(unsigned32(a) < unsigned32(b)))),
        i is I32GtU ==> leaves(f, m, q, s.push(truth(unsigned32(a) > unsigned32(b)))),
        i is I32LeU ==> leaves(f, m, q, s.push(truth(unsigned32(a) <= unsigned32(b)))),
        i is I32GeU ==> leaves(f, m, q, s.push(truth(unsigned32(a) >= unsigned32(b)))),
{
    lemma_words32(a, 0);
    lemma_words32(b, 0);
    if numeric::group(i) == Group::BinaryI32 {
        lemma_binary_i32(f, m, i, q, s, a, b);
    }
}

/// Whether every bit of the result of a two-operand instruction is what
/// `want` says.
pub open spec fn leaves_bits32(f: FrameModel, m: InstanceModel, q: int, s: Seq<Value>, want: spec_fn(u32) -> bool) -> bool {
    exists|r: i32| #[trigger]
        leaves(f, m, q, s.push(Value::I32(r))) && forall|j: u32|
            0 <= j < 32 ==> #[trigger] bit32(r as u32, j) == want(j)
}

/// The bit instructions, bit by bit: and, or and exclusive or of the two
/// operands; a shift or a rotation of the value below by the value on top,
/// modulo 32, with zeros, or for the signed shift to the right the sign,
/// moving in.
#[verifier::rlimit(40)]
pub proof fn law_i32_bits(f: FrameModel, m: InstanceModel, i: Instr, q: int, s: Seq<Value>, a: i32, b: i32)
    requires
        two_i32(f, i, q, s, a, b),
    ensures
        ({
            let x = a as u32;
            let y = b as u32;
            let k = (unsigned32(b) % 32) as u32;
            &&& i is I32And ==> leaves_bits32(f, m, q, s, |j: u32| bit32(x, j) && bit32(y, j))
            &&& i is I32Or ==> leaves_bits32(f, m, q, s, |j: u32| bit32(x, j) || bit32(y, j))
            &&& i is I32Xor ==> leaves_bits32(f, m, q, s, |j: u32| bit32(x, j) != bit32(y, j))
            &&& i is I32Shl ==> leaves_bits32(f, m, q, s, |j: u32| j >= k && bit32(x, (j - k) as u32))
            &&& i is I32ShrU ==> leaves_bits32(
                f,
                m,
                q,
                s,
                |j: u32| j + k < 32 && bit32(x, (j + k) as u32),
            )
            &&& i is I32ShrS ==> leaves_bits32(
                f,
                m,
                q,
                s,
                |j: u32|
                    bit32(
                        x,
                        if j + k < 32 {
                            (j + k) as u32
                        } else {
                            31
                        },
                    ),
            )
            &&& i is I32Rotl ==> leaves_bits32(
                f,
                m,
                q,
                s,
                |j: u32|
                    bit32(
                        x,
                        if j >= k {
                            (j - k) as u32
                        } else {
                            (j + 32 - k) as u32
                        },
                    ),
            )
            &&& i is I32Rotr ==> leaves_bits32(
                f,
                m,
                q,
                s,
                |j: u32|
                    bit32(
                        x,
                        if j + k < 32 {
                            (j + k) as u32
                        } else {
                            (j + k - 32) as u32
                        },
                    ),
            )
        }),
{
    if numeric::group(i) == Group::BinaryI32 {
        let k = (unsigned32(b) % 32) as u32;
        lemma_binary_i32(f, m, i, q, s, a, b);
        lemma_words32(a, 0);
        lemma_words32(b, 0);
        lemma_shift_count32(b);
        let c = (b as u32) % 32;
        let ror = numeric::rotr32_of(a as u32, b as u32);
        let rol = numeric::rotl32_of(a as u32, b as u32);
        lemma_words32(a, (a as u32) >> c);
        lemma_words32(a, ror);
        lemma_words32(a, rol);
        assert forall|j: u32| 0 <= j < 32 implies {
            &&& #[trigger] bit32((a & b) as u32, j) == (bit32(a as u32, j) && bit32(b as u32, j))
        } by {
            lemma_bits32(a, b, k, j);
        }
        assert forall|j: u32| 0 <= j < 32 implies #[trigger] bit32((a | b) as u32, j) == (bit32(a as u32, j) || bit32(b as u32, j)) by {
            lemma_bits32(a, b, k, j);
        }
        assert forall|j: u32| 0 <= j < 32 implies #[trigger] bit32((a ^ b) as u32, j) == (bit32(a as u32, j) != bit32(b as u32, j)) by {
            lemma_bits32(a, b, k, j);
        }
        assert forall|j: u32| 0 <= j < 32 implies #[trigger] bit32((a << c) as u32, j) == (j >= k && bit32(a as u32, (j - k) as u32)) by {
            lemma_bits32(a, b, k, j);
        }
        assert forall|j: u32| 0 <= j < 32 implies #[trigger] bit32((a >> c) as u32, j) == bit32(
            a as u32,
            if j + k < 32 {
                (j + k) as u32
            } else {
                31
            },
        ) by {
            lemma_bits32(a, b, k, j);
        }
        assert forall|j: u32| 0 <= j < 32 implies #[trigger] bit32((a as u32) >> c, j) == (j + k < 32 && bit32(a as u32, (j + k) as u32)) by {
            lemma_bits32(a, b, k, j);
        }
        assert forall|j: u32| 0 <= j < 32 implies #[trigger] bit32(rol, j) == bit32(
            a as u32,
            if j >= k {
                (j - k) as u32
            } else {
                (j + 32 - k) as u32
            },
        ) by {
            lemma_bits32(a, b, k, j);
        }
        assert forall|j: u32| 0 <= j < 32 implies #[trigger] bit32(ror, j) == bit32(
            a as u32,
            if j + k < 32 {
                (j + k) as u32
            } else {
                (j + k - 32) as u32
            },
        ) by {
            lemma_bits32(a, b, k, j);
        }
    }
}

/// The test for zero; the number of zero bits above the highest and below the
/// lowest bit that is set, which is 32 for zero; and the number of bits that
/// are set, which goes up by one for each bit that is added at the bottom.
pub proof fn law_i32_counts(f: FrameModel, m: InstanceModel, i: Instr, q: int, s: Seq<Value>, a: i32)
    requires
        one_i32(f, i, q, s, a),
    ensures
        i is I32Eqz ==> leaves(f, m, q, s.push(truth(a == 0))),
        i is I32Clz ==> exists|n: i32| #[trigger]
            leaves(f, m, q, s.push(Value::I32(n))) && 0 <= n <= 32 && (n == 32 <==> a == 0) && (n < 32
                ==> bit32(a as u32, (31 - n) as u32)) && forall|j: u32|
                32 - n <= j < 32 ==> !#[trigger] bit32(a as u32, j),
        i is I32Ctz ==> exists|n: i32| #[trigger]
            leaves(f, m, q, s.push(Value::I32(n))) && 0 <= n <= 32 && (n == 32 <==> a == 0) && (n < 32
                ==> bit32(a as u32, n as u32)) && forall|j: u32|
                0 <= j < n ==> !#[trigger] bit32(a as u32, j),
{
    lemma_words32(a, 0);
    if i is I32Eqz || i is I32Clz || i is I32Ctz {
        lemma_unary_i32(f, m, i, q, s, a);
    }
    if i is I32Clz {
        let n = bits::u32_leading_zeros(a as u32);
        bits::axiom_u32_leading_zeros(a as u32);
        if n < 32 {
            let k = (31 - n) as u32;
            lemma_one_bit32((a as u32) >> k);
        }
        assert(leaves(f, m, q, s.push(Value::I32(n as i32))));
    }
    if i is I32Ctz {
        let n = bits::u32_trailing_zeros(a as u32);
        bits::axiom_u32_trailing_zeros(a as u32);
        assert(leaves(f, m, q, s.push(Value::I32(n as i32))));
    }
}

proof fn lemma_one_bit32(x: u32)
    ensures
        x & 1 != 0 ==> x & 1 == 1,
{
    assert(x & 1 != 0 ==> x & 1 == 1) by (bit_vector);
}

proof fn lemma_ones_limit32(n: nat, k: nat)
    requires
        n < vstd::arithmetic::power2::pow2(k),
    ensures
        numeric::ones_of(n) <= k,
    decreases k,
{
    if k == 0 {
        vstd::arithmetic::power2::lemma2_to64();
    } else {
        vstd::arithmetic::power2::lemma_pow2_unfold(k);
        lemma_ones_limit32(n / 2, (k - 1) as nat);
    }
}

/// The number of bits that are set: none for zero, and for two numbers of
/// which one, read as unsigned, is the other with the bit `c` added at the
/// bottom, the counts differ by `c`.
pub proof fn law_i32_popcnt(f: FrameModel, g: FrameModel, m: InstanceModel, q: int, p: int, s: Seq<Value>, t: Seq<Value>, a: i32, h: i32, c: int)
    requires
        one_i32(f, Instr::I32Popcnt, q, s, a),
        one_i32(g, Instr::I32Popcnt, p, t, h),
        0 <= c <= 1,
        unsigned32(a) == 2 * unsigned32(h) + c,
    ensures
        exists|x: i32, y: i32| #[trigger]
            leaves(f, m, q, s.push(Value::I32(x))) && #[trigger] leaves(g, m, p, t.push(Value::I32(y)))
                && x == y + c && (a == 0 ==> x == 0),
{
    lemma_words32(a, 0);
    lemma_words32(h, 0);
    lemma_unary_i32(f, m, Instr::I32Popcnt, q, s, a);
    lemma_unary_i32(g, m, Instr::I32Popcnt, p, t, h);
    vstd::arithmetic::power2::lemma2_to64();
    lemma_ones_limit32(a as u32 as nat, 32);
    lemma_ones_limit32(h as u32 as nat, 32);
    let x = numeric::ones_of(a as u32 as nat);
    let y = numeric::ones_of(h as u32 as nat);
    assert((a as u32 as nat) / 2 == h as u32 as nat);
    assert(x == y + c);
    assert(leaves(f, m, q, s.push(Value::I32(x as i32))));
    assert(leaves(g, m, p, t.push(Value::I32(y as i32))));
}

proof fn lemma_shift_count32(b: i32)
    ensures
        (b as u32) % 32 == unsigned32(b) % 32,
{
    lemma_words32(b, 0);
}

/// The 64-bit signed number that agrees with `x` modulo 2^64.
pub open spec fn wrap64(x: int) -> i64 {
    if x % 0x1_0000_0000_0000_0000 < 0x8000_0000_0000_0000 {
        (x % 0x1_0000_0000_0000_0000) as i64
    } else {
        (x % 0x1_0000_0000_0000_0000 - 0x1_0000_0000_0000_0000) as i64
    }
}

/// A 64-bit number read as an unsigned one.
pub open spec fn unsigned64(a: i64) -> int {
    if a < 0 {
        a + 0x1_0000_0000_0000_0000
    } else {
        a as int
    }
}

/// Bit `i` of a 64-bit word.
pub open spec fn bit64(x: u64, i: u64) -> bool {
    (x >> i) & 1 == 1
}

pub proof fn lemma_words64(a: i64, x: u64)
    by (bit_vector)
    ensures
        a >= 0 ==> a as u64 == a,
        a < 0 ==> a as u64 == a + 0x1_0000_0000_0000_0000,
        x < 0x8000_0000_0000_0000 ==> x as i64 == x,
        x >= 0x8000_0000_0000_0000 ==> x as i64 == x - 0x1_0000_0000_0000_0000,
        (x as i64) as u64 == x,
        (a as u64) as i64 == a,
{
}

pub proof fn lemma_wrap64(x: int)
    ensures
        (wrap64(x) - x) % 0x1_0000_0000_0000_0000 == 0,
        i64::MIN <= x <= i64::MAX ==> wrap64(x) == x,
{
}

proof fn lemma_bits64(a: i64, b: i64, k: u64, i: u64)
    by (bit_vector)
    requires
        k < 64,
        i < 64,
    ensures
        bit64((a & b) as u64, i) == (bit64(a as u64, i) && bit64(b as u64, i)),
        bit64((a | b) as u64, i) == (bit64(a as u64, i) || bit64(b as u64, i)),
        bit64((a ^ b) as u64, i) == (bit64(a as u64, i) != bit64(b as u64, i)),
        bit64((a << k) as u64, i) == (i >= k && bit64(a as u64, (i - k) as u64)),
        bit64((a >> k) as u64, i) == bit64(
            a as u64,
            if i + k < 64 {
                (i + k) as u64
            } else {
                63
            },
        ),
        bit64((a as u64) >> k, i) == (i + k < 64 && bit64(a as u64, (i + k) as u64)),
        k > 0 ==> bit64(((a as u64) << k) | ((a as u64) >> ((64 - k) as u64)), i) == bit64(
            a as u64,
            if i >= k {
                (i - k) as u64
            } else {
                (i + 64 - k) as u64
            },
        ),
        k > 0 ==> bit64(((a as u64) >> k) | ((a as u64) << ((64 - k) as u64)), i) == bit64(
            a as u64,
            if i + k < 64 {
                (i + k) as u64
            } else {
                (i + k - 64) as u64
            },
        ),
{
}

/// Whether the next instruction is `i`, and the two values on top of `s` are
/// `a` and, above it, `b`.
pub open spec fn two_i64(f: FrameModel, i: Instr, q: int, s: Seq<Value>, a: i64, b: i64) -> bool {
    next_is(f, i, q) && f.stack == s.push(Value::I64(a)).push(Value::I64(b))
}

/// Whether the next instruction is `i`, and the value on top of `s` is `a`.
pub open spec fn one_i64(f: FrameModel, i: Instr, q: int, s: Seq<Value>, a: i64) -> bool {
    next_is(f, i, q) && f.stack == s.push(Value::I64(a))
}

proof fn lemma_binary_i64(f: FrameModel, m: InstanceModel, i: Instr, q: int, s: Seq<Value>, a: i64, b: i64)
    requires
        two_i64(f, i, q, s, a, b),
        numeric::group(i) == Group::BinaryI64,
    ensures
        match numeric::binary_i64(i, a, b) {
            Ok(v) => leaves(f, m, q, s.push(v)),
            Err(e) => frame::step(f, m) == Err::<StepModel, WasmError>(e),
        },
{
    reveal(frame::step);
    assert(f.stack.drop_last() =~= s.push(Value::I64(a)));
    assert(s.push(Value::I64(a)).drop_last() =~= s);
}

proof fn lemma_unary_i64(f: FrameModel, m: InstanceModel, i: Instr, q: int, s: Seq<Value>, a: i64)
    requires
        one_i64(f, i, q, s, a),
        numeric::group(i) == Group::UnaryI64,
    ensures
        leaves(f, m, q, s.push(numeric::unary_i64(i, a))),
{
    reveal(frame::step);
    assert(f.stack.drop_last() =~= s);
}

/// Addition, subtraction and multiplication give the sum, the difference
/// (the value below minus the value on top) and the product, modulo 2^64.
pub proof fn law_i64_arithmetic(f: FrameModel, m: InstanceModel, i: Instr, q: int, s: Seq<Value>, a: i64, b: i64)
    requires
        two_i64(f, i, q, s, a, b),
    ensures
        i is I64Add ==> leaves(f, m, q, s.push(Value::I64(wrap64(a + b)))),
        i is I64Sub ==> leaves(f, m, q, s.push(Value::I64(wrap64(a - b)))),
        i is I64Mul ==> leaves(f, m, q, s.push(Value::I64(wrap64(a * b)))),
        wrap64(wrap64(a - b) + b) == a,
        i64::MIN <= a - b <= i64::MAX ==> wrap64(a - b) == a - b,
        i64::MIN <= a + b <= i64::MAX ==> wrap64(a + b) == a + b,
        i64::MIN <= a * b <= i64::MAX ==> wrap64(a * b) == a * b,
{
    lemma_wrap64(a + b);
    lemma_wrap64(a - b);
    lemma_wrap64(a * b);
    if i is I64Add || i is I64Sub || i is I64Mul {
        lemma_binary_i64(f, m, i, q, s, a, b);
    }
}

/// The quotient of signed division is rounded towards zero, and the remainder
/// that goes with it has the sign of the dividend. Division by zero traps,
/// and so does a quotient that is out of range; a remainder never is.
pub proof fn law_i64_signed_division(f: FrameModel, m: InstanceModel, i: Instr, q: int, s: Seq<Value>, a: i64, b: i64)
    requires
        two_i64(f, i, q, s, a, b),
    ensures
        (i is I64DivS || i is I64RemS) && b == 0 ==> frame::step(f, m) == Err::<StepModel, WasmError>(
            WasmError::Trap(TrapCode::DivisionByZero),
        ),
        i is I64DivS && a == i64::MIN && b == -1 ==> frame::step(f, m) == Err::<StepModel, WasmError>(
            WasmError::Trap(TrapCode::IntegerOverflow),
        ),
        i is I64DivS && b != 0 && !(a == i64::MIN && b == -1) ==> exists|x: i64|
            leaves(f, m, q, s.push(Value::I64(x))) && divides(a as int, b as int, x as int, a - b * x),
        i is I64RemS && b != 0 ==> exists|r: i64|
            leaves(f, m, q, s.push(Value::I64(r))) && exists|x: int|
                #[trigger] divides(a as int, b as int, x, r as int),
{
    if i is I64DivS || i is I64RemS {
        lemma_binary_i64(f, m, i, q, s, a, b);
        if b != 0 {
            let x = numeric::quotient(a as int, b as int);
            let r = numeric::remainder(a as int, b as int);
            lemma_divides(a as int, b as int);
            assert(a - b * x == r);
            if !(a == i64::MIN && b == -1) {
                assert(i64::MIN <= x <= i64::MAX);
            }
            assert(i64::MIN <= r <= i64::MAX);
            if i is I64DivS && !(a == i64::MIN && b == -1) {
                assert(leaves(f, m, q, s.push(Value::I64(x as i64))));
            }
            if i is I64RemS {
                assert(leaves(f, m, q, s.push(Value::I64(r as i64))));
            }
        }
    }
}

/// Unsigned division and remainder are those of the operands read as unsigned
/// numbers; division by zero traps.
pub proof fn law_i64_unsigned_division(f: FrameModel, m: InstanceModel, i: Instr, q: int, s: Seq<Value>, a: i64, b: i64)
    requires
        two_i64(f, i, q, s, a, b),
    ensures
        (i is I64DivU || i is I64RemU) && b == 0 ==> frame::step(f, m) == Err::<StepModel, WasmError>(
            WasmError::Trap(TrapCode::DivisionByZero),
        ),
        i is I64DivU && b != 0 ==> leaves(
            f,
            m,
            q,
            s.push(Value::I64(wrap64(unsigned64(a) / unsigned64(b)))),
        ),
        i is I64RemU && b != 0 ==> leaves(
            f,
            m,
            q,
            s.push(Value::I64(wrap64(unsigned64(a) % unsigned64(b)))),
        ),
{
    if i is I64DivU || i is I64RemU {
        lemma_binary_i64(f, m, i, q, s, a, b);
        lemma_words64(a, 0);
        lemma_words64(b, 0);
        if b != 0 {
            let x = a as u64;
            let y = b as u64;
            vstd::arithmetic::div_mod::lemma_div_is_ordered_by_denominator(x as int, 1, y as int);
            vstd::arithmetic::div_mod::lemma_div_basics(x as int);
            vstd::arithmetic::div_mod::lemma_div_pos_is_pos(x as int, y as int);
            vstd::arithmetic::div_mod::lemma_mod_bound(x as int, y as int);
            lemma_words64(a, x / y);
            lemma_words64(a, x % y);
            vstd::arithmetic::div_mod::lemma_small_mod((x / y) as nat, 0x1_0000_0000_0000_0000);
            vstd::arithmetic::div_mod::lemma_small_mod((x % y) as nat, 0x1_0000_0000_0000_0000);
        }
    }
}

/// Comparisons give 1 where they hold of the value below and the value on top,
/// and 0 otherwise; the unsigned ones compare the operands as unsigned
/// numbers.
pub proof fn law_i64_comparisons(f: FrameModel, m: InstanceModel, i: Instr, q: int, s: Seq<Value>, a: i64, b: i64)
    requires
        two_i64(f, i, q, s, a, b),
    ensures
        i is I64Eq ==> leaves(f, m, q, s.push(truth(a == b))),
        i is I64Ne ==> leaves(f, m, q, s.push(truth(a != b))),
        i is I64LtS ==> leaves(f, m, q, s.push(truth(a < b))),
        i is I64GtS ==> leaves(f, m, q, s.push(truth(a > b))),
        i is I64LeS ==> leaves(f, m, q, s.push(truth(a <= b))),
        i is I64GeS ==> leaves(f, m, q, s.push(truth(a >= b))),
        i is I64LtU ==> leaves(f, m, q, s.push(truth(unsigned64(a) < unsigned64(b)))),
        i is I64GtU ==> leaves(f, m, q, s.push(truth(unsigned64(a) > unsigned64(b)))),
        i is I64LeU ==> leaves(f, m, q, s.push(truth(unsigned64(a) <= unsigned64(b)))),
        i is I64GeU ==> leaves(f, m, q, s.push(truth(unsigned64(a) >= unsigned64(b)))),
{
    lemma_words64(a, 0);
    lemma_words64(b, 0);
    if numeric::group(i) == Group::BinaryI64 {
        lemma_binary_i64(f, m, i, q, s, a, b);
    }
}

/// Whether every bit of the result of a two-operand instruction is what
/// `want` says.
pub open spec fn leaves_bits64(f: FrameModel, m: InstanceModel, q: int, s: Seq<Value>, want: spec_fn(u64) -> bool) -> bool {
    exists|r: i64| #[trigger]
        leaves(f, m, q, s.push(Value::I64(r))) && forall|j: u64|
            0 <= j < 64 ==> #[trigger] bit64(r as u64, j) == want(j)
}

/// The bit instructions, bit by bit: and, or and exclusive or of the two
/// operands; a shift or a rotation of the value below by the value on top,
/// modulo 64, with zeros, or for the signed shift to the right the sign,
/// moving in.
#[verifier::rlimit(40)]
pub proof fn law_i64_bits(f: FrameModel, m: InstanceModel, i: Instr, q: int, s: Seq<Value>, a: i64, b: i64)
    requires
        two_i64(f, i, q, s, a, b),
    ensures
        ({
            let x = a as u64;
            let y = b as u64;
            let k = (unsigned64(b) % 64) as u64;
            &&& i is I64And ==> leaves_bits64(f, m, q, s, |j: u64| bit64(x, j) && bit64(y, j))
            &&& i is I64Or ==> leaves_bits64(f, m, q, s, |j: u64| bit64(x, j) || bit64(y, j))
            &&& i is I64Xor ==> leaves_bits64(f, m, q, s, |j: u64| bit64(x, j) != bit64(y, j))
            &&& i is I64Shl ==> leaves_bits64(f, m, q, s, |j: u64| j >= k && bit64(x, (j - k) as u64))
            &&& i is I64ShrU ==> leaves_bits64(
                f,
                m,
                q,
                s,
                |j: u64| j + k < 64 && bit64(x, (j + k) as u64),
            )
            &&& i is I64ShrS ==> leaves_bits64(
                f,
                m,
                q,
                s,
                |j: u64|
                    bit64(
                        x,
                        if j + k < 64 {
                            (j + k) as u64
                        } else {
                            63
                        },
                    ),
            )
            &&& i is I64Rotl ==> leaves_bits64(
                f,
                m,
                q,
                s,
                |j: u64|
                    bit64(
                        x,
                        if j >= k {
                            (j - k) as u64
                        } else {
                            (j + 64 - k) as u64
                        },
                    ),
            )
            &&& i is I64Rotr ==> leaves_bits64(
                f,
                m,
                q,
                s,
                |j: u64|
                    bit64(
                        x,
                        if j + k < 64 {
                            (j + k) as u64
                        } else {
                            (j + k - 64) as u64
                        },
                    ),
            )
        }),
{
    if numeric::group(i) == Group::BinaryI64 {
        let k = (unsigned64(b) % 64) as u64;
        lemma_binary_i64(f, m, i, q, s, a, b);
        lemma_words64(a, 0);
        lemma_words64(b, 0);
        lemma_shift_count64(b);
        let c = (b as u32) % 64;
        let ror = numeric::rotr64_of(a as u64, b as u32);
        let rol = numeric::rotl64_of(a as u64, b as u32);
        lemma_words64(a, (a as u64) >> c);
        lemma_words64(a, ror);
        lemma_words64(a, rol);
        assert forall|j: u64| 0 <= j < 64 implies {
            &&& #[trigger] bit64((a & b) as u64, j) == (bit64(a as u64, j) && bit64(b as u64, j))
        } by {
            lemma_bits64(a, b, k, j);
        }
        assert forall|j: u64| 0 <= j < 64 implies #[trigger] bit64((a | b) as u64, j) == (bit64(a as u64, j) || bit64(b as u64, j)) by {
            lemma_bits64(a, b, k, j);
        }
        assert forall|j: u64| 0 <= j < 64 implies #[trigger] bit64((a ^ b) as u64, j) == (bit64(a as u64, j) != bit64(b as u64, j)) by {
            lemma_bits64(a, b, k, j);
        }
        assert forall|j: u64| 0 <= j < 64 implies #[trigger] bit64((a << c) as u64, j) == (j >= k && bit64(a as u64, (j - k) as u64)) by {
            lemma_bits64(a, b, k, j);
        }
        assert forall|j: u64| 0 <= j < 64 implies #[trigger] bit64((a >> c) as u64, j) == bit64(
            a as u64,
            if j + k < 64 {
                (j + k) as u64
            } else {
                63
            },
        ) by {
            lemma_bits64(a, b, k, j);
        }
        assert forall|j: u64| 0 <= j < 64 implies #[trigger] bit64((a as u64) >> c, j) == (j + k < 64 && bit64(a as u64, (j + k) as u64)) by {
            lemma_bits64(a, b, k, j);
        }
        assert forall|j: u64| 0 <= j < 64 implies #[trigger] bit64(rol, j) == bit64(
            a as u64,
            if j >= k {
                (j - k) as u64
            } else {
                (j + 64 - k) as u64
            },
        ) by {
            lemma_bits64(a, b, k, j);
        }
        assert forall|j: u64| 0 <= j < 64 implies #[trigger] bit64(ror, j) == bit64(
            a as u64,
            if j + k < 64 {
                (j + k) as u64
            } else {
                (j + k - 64) as u64
            },
        ) by {
            lemma_bits64(a, b, k, j);
        }
    }
}

/// The test for zero; the number of zero bits above the highest and below the
/// lowest bit that is set, which is 64 for zero; and the number of bits that
/// are set, which goes up by one for each bit that is added at the bottom.
pub proof fn law_i64_counts(f: FrameModel, m: InstanceModel, i: Instr, q: int, s: Seq<Value>, a: i64)
    requires
        one_i64(f, i, q, s, a),
    ensures
        i is I64Eqz ==> leaves(f, m, q, s.push(truth(a == 0))),
        i is I64Clz ==> exists|n: i64| #[trigger]
            leaves(f, m, q, s.push(Value::I64(n))) && 0 <= n <= 64 && (n == 64 <==> a == 0) && (n < 64
                ==> bit64(a as u64, (63 - n) as u64)) && forall|j: u64|
                64 - n <= j < 64 ==> !#[trigger] bit64(a as u64, j),
        i is I64Ctz ==> exists|n: i64| #[trigger]
            leaves(f, m, q, s.push(Value::I64(n))) && 0 <= n <= 64 && (n == 64 <==> a == 0) && (n < 64
                ==> bit64(a as u64, n as u64)) && forall|j: u64|
                0 <= j < n ==> !#[trigger] bit64(a as u64, j),
{
    lemma_words64(a, 0);
    if i is I64Eqz || i is I64Clz || i is I64Ctz {
        lemma_unary_i64(f, m, i, q, s, a);
    }
    if i is I64Clz {
        let n = bits::u64_leading_zeros(a as u64);
        bits::axiom_u64_leading_zeros(a as u64);
        if n < 64 {
            let k = (63 - n) as u64;
            lemma_one_bit64((a as u64) >> k);
        }
        assert(leaves(f, m, q, s.push(Value::I64(n as i64))));
    }
    if i is I64Ctz {
        let n = bits::u64_trailing_zeros(a as u64);
        bits::axiom_u64_trailing_zeros(a as u64);
        assert(leaves(f, m, q, s.push(Value::I64(n as i64))));
    }
}

proof fn lemma_one_bit64(x: u64)
    ensures
        x & 1 != 0 ==> x & 1 == 1,
{
    assert(x & 1 != 0 ==> x & 1 == 1) by (bit_vector);
}

proof fn lemma_ones_limit64(n: nat, k: nat)
    requires
        n < vstd::arithmetic::power2::pow2(k),
    ensures
        numeric::ones_of(n) <= k,
    decreases k,
{
    if k == 0 {
        vstd::arithmetic::power2::lemma2_to64();
    } else {
        vstd::arithmetic::power2::lemma_pow2_unfold(k);
        lemma_ones_limit64(n / 2, (k - 1) as nat);
    }
}

/// The number of bits that are set: none for zero, and for two numbers of
/// which one, read as unsigned, is the other with the bit `c` added at the
/// bottom, the counts differ by `c`.
pub proof fn law_i64_popcnt(f: FrameModel, g: FrameModel, m: InstanceModel, q: int, p: int, s: Seq<Value>, t: Seq<Value>, a: i64, h: i64, c: int)
    requires
        one_i64(f, Instr::I64Popcnt, q, s, a),
        one_i64(g, Instr::I64Popcnt, p, t, h),
        0 <= c <= 1,
        unsigned64(a) == 2 * unsigned64(h) + c,
    ensures
        exists|x: i64, y: i64| #[trigger]
            leaves(f, m, q, s.push(Value::I64(x))) && #[trigger] leaves(g, m, p, t.push(Value::I64(y)))
                && x == y + c && (a == 0 ==> x == 0),
{
    lemma_words64(a, 0);
    lemma_words64(h, 0);
    lemma_unary_i64(f, m, Instr::I64Popcnt, q, s, a);
    lemma_unary_i64(g, m, Instr::I64Popcnt, p, t, h);
    vstd::arithmetic::power2::lemma2_to64();
    lemma_ones_limit64(a as u64 as nat, 64);
    lemma_ones_limit64(h as u64 as nat, 64);
    let x = numeric::ones_of(a as u64 as nat);
    let y = numeric::ones_of(h as u64 as nat);
    assert((a as u64 as nat) / 2 == h as u64 as nat);
    assert(x == y + c);
    assert(leaves(f, m, q, s.push(Value::I64(x as i64))));
    assert(leaves(g, m, p, t.push(Value::I64(y as i64))));
}

proof fn lemma_shift_count64(b: i64)
    ensures
        (b as u32) % 64 == unsigned64(b) % 64,
{
    lemma_words64(b, 0);
    assert((b as u32) % 64 == (b as u64) % 64) by (bit_vector);
}

// ---- Conversions ----

proof fn lemma_conversions(a: i32)
    by (bit_vector)
    ensures
        (a as u32) as i64 == (if a < 0 {
            a + 0x1_0000_0000
        } else {
            a as int
        }),
        a as i64 == a,
{
}

proof fn lemma_low_half(b: i64)
    ensures
        b as i32 == wrap32(b as int),
{
    assert(b as i32 == ((b as u64) as u32) as i32) by (bit_vector);
    let x = b as u64;
    assert(x as u32 == x % 0x1_0000_0000) by (bit_vector);
    lemma_words64(b, 0);
    lemma_words32(0, x as u32);
}

/// Extending an `i32` keeps its signed or its unsigned value; wrapping an
/// `i64` keeps what agrees with it modulo 2^32; reinterpreting keeps the bit
/// pattern.
pub proof fn law_conversions(
    f: FrameModel,
    m: InstanceModel,
    i: Instr,
    q: int,
    s: Seq<Value>,
    a: i32,
    b: i64,
    c: u32,
    d: u64,
)
    requires
        next_is(f, i, q),
    ensures
        i is I64ExtendI32S && f.stack == s.push(Value::I32(a)) ==> leaves(
            f,
            m,
            q,
            s.push(Value::I64(a as i64)),
        ),
        i is I64ExtendI32U && f.stack == s.push(Value::I32(a)) ==> leaves(
            f,
            m,
            q,
            s.push(Value::I64(unsigned32(a) as i64)),
        ),
        i is I32WrapI64 && f.stack == s.push(Value::I64(b)) ==> leaves(
            f,
            m,
            q,
            s.push(Value::I32(wrap32(b as int))),
        ),
        i is F32ReinterpretI32 && f.stack == s.push(Value::I32(a)) ==> leaves(
            f,
            m,
            q,
            s.push(Value::F32(unsigned32(a) as u32)),
        ),
        i is F64ReinterpretI64 && f.stack == s.push(Value::I64(b)) ==> leaves(
            f,
            m,
            q,
            s.push(Value::F64(unsigned64(b) as u64)),
        ),
        i is I32ReinterpretF32 && f.stack == s.push(Value::F32(c)) ==> leaves(
            f,
            m,
            q,
            s.push(Value::I32(wrap32(c as int))),
        ),
        i is I64ReinterpretF64 && f.stack == s.push(Value::F64(d)) ==> leaves(
            f,
            m,
            q,
            s.push(Value::I64(wrap64(d as int))),
        ),
{
    reveal(frame::step);
    lemma_conversions(a);
    lemma_low_half(b);
    lemma_words32(a, c);
    lemma_words64(b, d);
    assert(s.push(Value::I32(a)).drop_last() =~= s);
    assert(s.push(Value::I64(b)).drop_last() =~= s);
    assert(s.push(Value::F32(c)).drop_last() =~= s);
    assert(s.push(Value::F64(d)).drop_last() =~= s);
}

// ---- Operands ----

/// Whether the next step fails with `e`.
pub open spec fn stops(f: FrameModel, m: InstanceModel, e: WasmError) -> bool {
    frame::step(f, m) == Err::<StepModel, WasmError>(e)
}

/// An instruction whose operands are missing, or are of another type, fails.
pub proof fn law_operands(
    f: FrameModel,
    m: InstanceModel,
    i: Instr,
    q: int,
    s: Seq<Value>,
    a: Value,
    b: Value,
)
    requires
        next_is(f, i, q),
    ensures
        numeric::group(i) is BinaryI32 || numeric::group(i) is BinaryI64 || numeric::group(
            i,
        ) is UnaryI32 || numeric::group(i) is UnaryI64 ==> f.stack.len() == 0 ==> stops(
            f,
            m,
            WasmError::StackUnderflow,
        ),
        numeric::group(i) is BinaryI32 && f.stack.len() == 1 && f.stack[0] is I32 ==> stops(
            f,
            m,
            WasmError::StackUnderflow,
        ),
        numeric::group(i) is BinaryI64 && f.stack.len() == 1 && f.stack[0] is I64 ==> stops(
            f,
            m,
            WasmError::StackUnderflow,
        ),
        numeric::group(i) is UnaryI32 && f.stack == s.push(a) && !(a is I32) ==> stops(f, m, WasmError::TypeMismatch),
        numeric::group(i) is UnaryI64 && f.stack == s.push(a) && !(a is I64) ==> stops(f, m, WasmError::TypeMismatch),
        numeric::group(i) is BinaryI32 && f.stack == s.push(a).push(b) && !(a is I32 && b is I32) ==> stops(
            f,
            m,
            WasmError::TypeMismatch,
        ),
        numeric::group(i) is BinaryI64 && f.stack == s.push(a).push(b) && !(a is I64 && b is I64) ==> stops(
            f,
            m,
            WasmError::TypeMismatch,
        ),
        (i is I32ReinterpretF32 || i is I64ReinterpretF64 || i is MemoryGrow) && f.stack.len() == 0
            ==> stops(f, m, WasmError::StackUnderflow),
        i is I32ReinterpretF32 && f.stack == s.push(a) && !(a is F32) ==> stops(
            f,
            m,
            WasmError::TypeMismatch,
        ),
        i is I64ReinterpretF64 && f.stack == s.push(a) && !(a is F64) ==> stops(
            f,
            m,
            WasmError::TypeMismatch,
        ),
        i is MemoryGrow && f.stack == s.push(a) && !(a is I32) ==> stops(
            f,
            m,
            WasmError::TypeMismatch,
        ),
{
    reveal(frame::step);
    assert(s.push(a).drop_last() =~= s);
    assert(s.push(a).push(b).drop_last() =~= s.push(a));
}

} // verus!
