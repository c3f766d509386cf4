//! Loads, stores and the size of memory, stated of one step of execution:
//! which bytes are read or written, and what becomes of them.
use vstd::prelude::*;

use crate::access;
use crate::bytes;
use crate::flow;
use crate::frame;
use crate::frame::FrameModel;
use crate::instance::InstanceModel;
use crate::instr::{Instr, MemArg};
use crate::memory;
use crate::memory::MemoryModel;
use crate::numeric;
use crate::semantics;
use crate::types::{Limits, TrapCode, ValType, Value, WasmError};

verus! {

/// The number in the `w` bytes at `a`, least significant byte first.
pub open spec fn number(d: Seq<u8>, a: int, w: nat) -> int
    decreases w,
{
    if w == 0 {
        0
    } else {
        d[a] + 256 * number(d, a + 1, (w - 1) as nat)
    }
}

/// How many numbers `w` bytes can hold.
pub open spec fn span(w: nat) -> int {
    if w == 1 {
        0x100
    } else if w == 2 {
        0x1_0000
    } else if w == 4 {
        0x1_0000_0000
    } else {
        0x1_0000_0000_0000_0000
    }
}

/// The address of an access: the operand as an unsigned number, plus the
/// offset, modulo 2^32.
pub open spec fn address(base: i32, ma: MemArg) -> int {
    (semantics::unsigned32(base) + ma.offset) % 0x1_0000_0000
}

proof fn lemma_address(base: i32, ma: MemArg)
    ensures
        access::effective_addr(base, ma) == address(base, ma),
{
    semantics::lemma_words32(base, 0);
}

pub proof fn lemma_number(d: Seq<u8>, a: int, w: nat)
    requires
        0 <= a,
        a + w <= d.len(),
    ensures
        bytes::le(d.subrange(a, a + w)) == number(d, a, w),
    decreases w,
{
    if w > 0 {
        lemma_number(d, a + 1, (w - 1) as nat);
        assert(d.subrange(a, a + w).drop_first() =~= d.subrange(a + 1, a + w));
    }
}

pub proof fn lemma_number_bound(d: Seq<u8>, a: int, w: nat)
    requires
        0 <= a,
        a + w <= d.len(),
        w == 1 || w == 2 || w == 4 || w == 8,
    ensures
        0 <= number(d, a, w) < span(w),
{
    lemma_number(d, a, w);
    bytes::lemma_le_bound(d.subrange(a, a + w));
    bytes::lemma_pow256();
}

/// What becomes of the number that a load of `w` bytes read: the `signed`
/// ones read the topmost bit as a sign.
pub open spec fn extended(n: int, w: nat, signed: bool) -> int {
    if signed && 2 * n >= span(w) {
        n - span(w)
    } else {
        n
    }
}

/// Whether the next step, a load of `w` bytes, leaves `value(n)` of the
/// number `n` in those bytes on the stack `s`. A load that reaches over the
/// end of the memory traps.
pub open spec fn loads(
    f: FrameModel,
    m: InstanceModel,
    q: int,
    s: Seq<Value>,
    base: i32,
    ma: MemArg,
    w: nat,
    value: spec_fn(int) -> Value,
) -> bool {
    let a = address(base, ma);
    if m.memories.len() == 0 || a + w > usize::MAX {
        flow::fails(f, m, WasmError::MemoryOutOfBounds)
    } else if a + w > m.memories[0].data.len() {
        flow::fails(f, m, WasmError::Trap(TrapCode::MemoryOutOfBounds))
    } else {
        semantics::leaves(f, m, q, s.push(value(number(m.memories[0].data, a, w))))
    }
}

proof fn lemma_narrow(a: u8, b: u16, c: u32)
    by (bit_vector)
    ensures
        a < 0x80 ==> (a as i8) as i32 == a && (a as i8) as i64 == a,
        a >= 0x80 ==> (a as i8) as i32 == a - 0x100 && (a as i8) as i64 == a - 0x100,
        b < 0x8000 ==> (b as i16) as i32 == b && (b as i16) as i64 == b,
        b >= 0x8000 ==> (b as i16) as i32 == b - 0x1_0000 && (b as i16) as i64 == b - 0x1_0000,
        c < 0x8000_0000 ==> (c as i32) as i64 == c,
        c >= 0x8000_0000 ==> (c as i32) as i64 == c - 0x1_0000_0000,
{
}

proof fn lemma_load(
    f: FrameModel,
    m: InstanceModel,
    q: int,
    s: Seq<Value>,
    base: i32,
    i: Instr,
    ma: MemArg,
)
    requires
        semantics::next_is(f, i, q),
        f.stack == s.push(Value::I32(base)),
        numeric::group(i) is Load,
        access::memarg_of(i) == ma,
    ensures
        loads(f, m, q, s, base, ma, access::load_width(i), |n: int| access::load_value(i, n as nat)),
{
    reveal(frame::step);
    assert(f.stack.drop_last() =~= s);
    lemma_address(base, ma);
    let a = address(base, ma);
    let w = access::load_width(i);
    if m.memories.len() > 0 && a + w <= m.memories[0].data.len() {
        lemma_number(m.memories[0].data, a, w);
        lemma_number_bound(m.memories[0].data, a, w);
    }
}

proof fn lemma_loads_same(
    f: FrameModel,
    m: InstanceModel,
    q: int,
    s: Seq<Value>,
    base: i32,
    ma: MemArg,
    w: nat,
    g: spec_fn(int) -> Value,
    h: spec_fn(int) -> Value,
)
    requires
        loads(f, m, q, s, base, ma, w, g),
        w == 1 || w == 2 || w == 4 || w == 8,
        forall|n: int| 0 <= n < span(w) ==> #[trigger] g(n) == h(n),
    ensures
        loads(f, m, q, s, base, ma, w, h),
{
    let a = address(base, ma);
    if m.memories.len() > 0 && a + w <= m.memories[0].data.len() {
        lemma_number_bound(m.memories[0].data, a, w);
    }
}

/// A load of the full width of its type puts the number in those bytes on the
/// stack: as the integer that agrees with it modulo 2^32 or 2^64, or as a bit
/// pattern.
pub proof fn law_full_loads(
    f: FrameModel,
    m: InstanceModel,
    i: Instr,
    ma: MemArg,
    q: int,
    s: Seq<Value>,
    base: i32,
)
    requires
        semantics::next_is(f, i, q),
        f.stack == s.push(Value::I32(base)),
    ensures
        i == Instr::I32Load(ma) ==> loads(f, m, q, s, base, ma, 4, |n: int| Value::I32(semantics::wrap32(n))),
        i == Instr::I64Load(ma) ==> loads(f, m, q, s, base, ma, 8, |n: int| Value::I64(semantics::wrap64(n))),
        i == Instr::F32Load(ma) ==> loads(f, m, q, s, base, ma, 4, |n: int| Value::F32(n as u32)),
        i == Instr::F64Load(ma) ==> loads(f, m, q, s, base, ma, 8, |n: int| Value::F64(n as u64)),
{
    if i == Instr::I32Load(ma) {
        lemma_load(f, m, q, s, base, i, ma);
        let g = |n: int| access::load_value(i, n as nat);
        let h = |n: int| Value::I32(semantics::wrap32(n));
        assert forall|n: int| 0 <= n < span(4) implies #[trigger] g(n) == h(n) by {
            lemma_narrow(n as u8, n as u16, n as u32);
            semantics::lemma_words32(0, n as u32);
            semantics::lemma_words64(0, n as u64);
        }
        lemma_loads_same(f, m, q, s, base, ma, 4, g, h);
    }
    if i == Instr::I64Load(ma) {
        lemma_load(f, m, q, s, base, i, ma);
        let g = |n: int| access::load_value(i, n as nat);
        let h = |n: int| Value::I64(semantics::wrap64(n));
        assert forall|n: int| 0 <= n < span(8) implies #[trigger] g(n) == h(n) by {
            lemma_narrow(n as u8, n as u16, n as u32);
            semantics::lemma_words32(0, n as u32);
            semantics::lemma_words64(0, n as u64);
        }
        lemma_loads_same(f, m, q, s, base, ma, 8, g, h);
    }
    if i == Instr::F32Load(ma) {
        lemma_load(f, m, q, s, base, i, ma);
        let g = |n: int| access::load_value(i, n as nat);
        let h = |n: int| Value::F32(n as u32);
        assert forall|n: int| 0 <= n < span(4) implies #[trigger] g(n) == h(n) by {
            lemma_narrow(n as u8, n as u16, n as u32);
            semantics::lemma_words32(0, n as u32);
            semantics::lemma_words64(0, n as u64);
        }
        lemma_loads_same(f, m, q, s, base, ma, 4, g, h);
    }
    if i == Instr::F64Load(ma) {
        lemma_load(f, m, q, s, base, i, ma);
        let g = |n: int| access::load_value(i, n as nat);
        let h = |n: int| Value::F64(n as u64);
        assert forall|n: int| 0 <= n < span(8) implies #[trigger] g(n) == h(n) by {
            lemma_narrow(n as u8, n as u16, n as u32);
            semantics::lemma_words32(0, n as u32);
            semantics::lemma_words64(0, n as u64);
        }
        lemma_loads_same(f, m, q, s, base, ma, 8, g, h);
    }
}

/// A load of fewer bytes than an `i32` has extends the number in them, with
/// its sign or with zeros.
pub proof fn law_narrow_loads_i32(
    f: FrameModel,
    m: InstanceModel,
    i: Instr,
    ma: MemArg,
    q: int,
    s: Seq<Value>,
    base: i32,
)
    requires
        semantics::next_is(f, i, q),
        f.stack == s.push(Value::I32(base)),
    ensures
        i == Instr::I32Load8S(ma) ==> loads(f, m, q, s, base, ma, 1, |n: int| Value::I32(extended(n, 1, true) as i32)),
        i == Instr::I32Load8U(ma) ==> loads(f, m, q, s, base, ma, 1, |n: int| Value::I32(extended(n, 1, false) as i32)),
        i == Instr::I32Load16S(ma) ==> loads(f, m, q, s, base, ma, 2, |n: int| Value::I32(extended(n, 2, true) as i32)),
        i == Instr::I32Load16U(ma) ==> loads(f, m, q, s, base, ma, 2, |n: int| Value::I32(extended(n, 2, false) as i32)),
{
    if i == Instr::I32Load8S(ma) {
        lemma_load(f, m, q, s, base, i, ma);
        let g = |n: int| access::load_value(i, n as nat);
        let h = |n: int| Value::I32(extended(n, 1, true) as i32);
        assert forall|n: int| 0 <= n < span(1) implies #[trigger] g(n) == h(n) by {
            lemma_narrow(n as u8, n as u16, n as u32);
            semantics::lemma_words32(0, n as u32);
            semantics::lemma_words64(0, n as u64);
        }
        lemma_loads_same(f, m, q, s, base, ma, 1, g, h);
    }
    if i == Instr::I32Load8U(ma) {
        lemma_load(f, m, q, s, base, i, ma);
        let g = |n: int| access::load_value(i, n as nat);
        let h = |n: int| Value::I32(extended(n, 1, false) as i32);
        assert forall|n: int| 0 <= n < span(1) implies #[trigger] g(n) == h(n) by {
            lemma_narrow(n as u8, n as u16, n as u32);
            semantics::lemma_words32(0, n as u32);
            semantics::lemma_words64(0, n as u64);
        }
        lemma_loads_same(f, m, q, s, base, ma, 1, g, h);
    }
    if i == Instr::I32Load16S(ma) {
        lemma_load(f, m, q, s, base, i, ma);
        let g = |n: int| access::load_value(i, n as nat);
        let h = |n: int| Value::I32(extended(n, 2, true) as i32);
        assert forall|n: int| 0 <= n < span(2) implies #[trigger] g(n) == h(n) by {
            lemma_narrow(n as u8, n as u16, n as u32);
            semantics::lemma_words32(0, n as u32);
            semantics::lemma_words64(0, n as u64);
        }
        lemma_loads_same(f, m, q, s, base, ma, 2, g, h);
    }
    if i == Instr::I32Load16U(ma) {
        lemma_load(f, m, q, s, base, i, ma);
        let g = |n: int| access::load_value(i, n as nat);
        let h = |n: int| Value::I32(extended(n, 2, false) as i32);
        assert forall|n: int| 0 <= n < span(2) implies #[trigger] g(n) == h(n) by {
            lemma_narrow(n as u8, n as u16, n as u32);
            semantics::lemma_words32(0, n as u32);
            semantics::lemma_words64(0, n as u64);
        }
        lemma_loads_same(f, m, q, s, base, ma, 2, g, h);
    }
}

/// A load of fewer bytes than an `i64` has extends the number in them, with
/// its sign or with zeros.
pub proof fn law_narrow_loads_i64(
    f: FrameModel,
    m: InstanceModel,
    i: Instr,
    ma: MemArg,
    q: int,
    s: Seq<Value>,
    base: i32,
)
    requires
        semantics::next_is(f, i, q),
        f.stack == s.push(Value::I32(base)),
    ensures
        i == Instr::I64Load8S(ma) ==> loads(f, m, q, s, base, ma, 1, |n: int| Value::I64(extended(n, 1, true) as i64)),
        i == Instr::I64Load8U(ma) ==> loads(f, m, q, s, base, ma, 1, |n: int| Value::I64(extended(n, 1, false) as i64)),
        i == Instr::I64Load16S(ma) ==> loads(f, m, q, s, base, ma, 2, |n: int| Value::I64(extended(n, 2, true) as i64)),
        i == Instr::I64Load16U(ma) ==> loads(f, m, q, s, base, ma, 2, |n: int| Value::I64(extended(n, 2, false) as i64)),
        i == Instr::I64Load32S(ma) ==> loads(f, m, q, s, base, ma, 4, |n: int| Value::I64(extended(n, 4, true) as i64)),
        i == Instr::I64Load32U(ma) ==> loads(f, m, q, s, base, ma, 4, |n: int| Value::I64(extended(n, 4, false) as i64)),
{
    if i == Instr::I64Load8S(ma) {
        lemma_load(f, m, q, s, base, i, ma);
        let g = |n: int| access::load_value(i, n as nat);
        let h = |n: int| Value::I64(extended(n, 1, true) as i64);
        assert forall|n: int| 0 <= n < span(1) implies #[trigger] g(n) == h(n) by {
            lemma_narrow(n as u8, n as u16, n as u32);
            semantics::lemma_words32(0, n as u32);
            semantics::lemma_words64(0, n as u64);
        }
        lemma_loads_same(f, m, q, s, base, ma, 1, g, h);
    }
    if i == Instr::I64Load8U(ma) {
        lemma_load(f, m, q, s, base, i, ma);
        let g = |n: int| access::load_value(i, n as nat);
        let h = |n: int| Value::I64(extended(n, 1, false) as i64);
        assert forall|n: int| 0 <= n < span(1) implies #[trigger] g(n) == h(n) by {
            lemma_narrow(n as u8, n as u16, n as u32);
            semantics::lemma_words32(0, n as u32);
            semantics::lemma_words64(0, n as u64);
        }
        lemma_loads_same(f, m, q, s, base, ma, 1, g, h);
    }
    if i == Instr::I64Load16S(ma) {
        lemma_load(f, m, q, s, base, i, ma);
        let g = |n: int| access::load_value(i, n as nat);
        let h = |n: int| Value::I64(extended(n, 2, true) as i64);
        assert forall|n: int| 0 <= n < span(2) implies #[trigger] g(n) == h(n) by {
            lemma_narrow(n as u8, n as u16, n as u32);
            semantics::lemma_words32(0, n as u32);
            semantics::lemma_words64(0, n as u64);
        }
        lemma_loads_same(f, m, q, s, base, ma, 2, g, h);
    }
    if i == Instr::I64Load16U(ma) {
        lemma_load(f, m, q, s, base, i, ma);
        let g = |n: int| access::load_value(i, n as nat);
        let h = |n: int| Value::I64(extended(n, 2, false) as i64);
        assert forall|n: int| 0 <= n < span(2) implies #[trigger] g(n) == h(n) by {
            lemma_narrow(n as u8, n as u16, n as u32);
            semantics::lemma_words32(0, n as u32);
            semantics::lemma_words64(0, n as u64);
        }
        lemma_loads_same(f, m, q, s, base, ma, 2, g, h);
    }
    if i == Instr::I64Load32S(ma) {
        lemma_load(f, m, q, s, base, i, ma);
        let g = |n: int| access::load_value(i, n as nat);
        let h = |n: int| Value::I64(extended(n, 4, true) as i64);
        assert forall|n: int| 0 <= n < span(4) implies #[trigger] g(n) == h(n) by {
            lemma_narrow(n as u8, n as u16, n as u32);
            semantics::lemma_words32(0, n as u32);
            semantics::lemma_words64(0, n as u64);
        }
        lemma_loads_same(f, m, q, s, base, ma, 4, g, h);
    }
    if i == Instr::I64Load32U(ma) {
        lemma_load(f, m, q, s, base, i, ma);
        let g = |n: int| access::load_value(i, n as nat);
        let h = |n: int| Value::I64(extended(n, 4, false) as i64);
        assert forall|n: int| 0 <= n < span(4) implies #[trigger] g(n) == h(n) by {
            lemma_narrow(n as u8, n as u16, n as u32);
            semantics::lemma_words32(0, n as u32);
            semantics::lemma_words64(0, n as u64);
        }
        lemma_loads_same(f, m, q, s, base, ma, 4, g, h);
    }
}

/// Whether `d2` is `d` with the `w` lowest bytes of the number `v` at `a`,
/// least significant byte first, and nothing else changed.
pub open spec fn written(d: Seq<u8>, d2: Seq<u8>, a: int, w: nat, v: int) -> bool {
    &&& d2.len() == d.len()
    &&& forall|k: int| 0 <= k < d.len() && !(a <= k < a + w) ==> #[trigger] d2[k] == d[k]
    &&& number(d2, a, w) == v % span(w)
}

/// Whether the next step, a store of `w` bytes, writes the number `v` and
/// leaves the stack `s`. A store that reaches over the end of the memory
/// traps.
pub open spec fn stores(
    f: FrameModel,
    m: InstanceModel,
    q: int,
    s: Seq<Value>,
    base: i32,
    ma: MemArg,
    w: nat,
    v: int,
) -> bool {
    let a = address(base, ma);
    if m.memories.len() == 0 || a + w > usize::MAX {
        flow::fails(f, m, WasmError::MemoryOutOfBounds)
    } else if a + w > m.memories[0].data.len() {
        flow::fails(f, m, WasmError::Trap(TrapCode::MemoryOutOfBounds))
    } else {
        frame::step(f, m) matches Ok(st) && st.effect is Next && st.frame == (FrameModel {
            stack: s,
            pc: q,
            ..f
        }) && st.inst == (InstanceModel { memories: st.inst.memories, ..m })
            && st.inst.memories.len() == m.memories.len() && st.inst.memories[0].max
            == m.memories[0].max && (forall|k: int|
            0 < k < m.memories.len() ==> #[trigger] st.inst.memories[k] == m.memories[k])
            && written(m.memories[0].data, st.inst.memories[0].data, a, w, v)
    }
}

pub proof fn lemma_written(d: Seq<u8>, a: int, v: nat, w: nat)
    requires
        0 <= a,
        a + w <= d.len(),
        w == 1 || w == 2 || w == 4 || w == 8,
    ensures
        written(d, bytes::overwrite(d, a, bytes::le_bytes(v, w)), a, w, v as int),
{
    let d2 = bytes::overwrite(d, a, bytes::le_bytes(v, w));
    bytes::law_le_round_trip(v, w);
    bytes::lemma_pow256();
    assert(d2.subrange(a, a + w) =~= bytes::le_bytes(v, w));
    lemma_number(d2, a, w);
}

proof fn lemma_low_part(a: u32, b: u64)
    ensures
        a as u8 == a % 0x100,
        a as u16 == a % 0x1_0000,
        b as u8 == b % 0x100,
        b as u16 == b % 0x1_0000,
        b as u32 == b % 0x1_0000_0000,
{
    assert(a as u8 == a % 0x100) by (bit_vector);
    assert(a as u16 == a % 0x1_0000) by (bit_vector);
    assert(b as u8 == b % 0x100) by (bit_vector);
    assert(b as u16 == b % 0x1_0000) by (bit_vector);
    assert(b as u32 == b % 0x1_0000_0000) by (bit_vector);
}

proof fn lemma_store(
    f: FrameModel,
    m: InstanceModel,
    q: int,
    s: Seq<Value>,
    base: i32,
    i: Instr,
    ma: MemArg,
    v: Value,
    n: nat,
)
    requires
        semantics::next_is(f, i, q),
        f.stack == s.push(Value::I32(base)).push(v),
        numeric::group(i) is Store,
        flow::has_type(v, access::store_type(i)),
        access::memarg_of(i) == ma,
        access::store_number(i, v) == Some(n),
    ensures
        stores(f, m, q, s, base, ma, access::store_width(i), n as int),
{
    reveal(frame::step);
    assert(f.stack.drop_last() =~= s.push(Value::I32(base)));
    assert(s.push(Value::I32(base)).drop_last() =~= s);
    lemma_address(base, ma);
    let a = address(base, ma);
    let w = access::store_width(i);
    if m.memories.len() > 0 && a + w <= m.memories[0].data.len() {
        lemma_written(m.memories[0].data, a, n, w);
    }
}

/// The stores of an `i32` write its lowest bytes: all four, one, or two.
pub proof fn law_stores_i32(
    f: FrameModel,
    m: InstanceModel,
    i: Instr,
    ma: MemArg,
    q: int,
    s: Seq<Value>,
    base: i32,
    x: i32,
)
    requires
        semantics::next_is(f, i, q),
        f.stack == s.push(Value::I32(base)).push(Value::I32(x)),
    ensures
        i == Instr::I32Store(ma) ==> stores(f, m, q, s, base, ma, 4, semantics::unsigned32(x)),
        i == Instr::I32Store8(ma) ==> stores(f, m, q, s, base, ma, 1, semantics::unsigned32(x)),
        i == Instr::I32Store16(ma) ==> stores(f, m, q, s, base, ma, 2, semantics::unsigned32(x)),
{
    semantics::lemma_words32(x, 0);
    lemma_low_part(x as u32, 0);
    if i == Instr::I32Store(ma) {
        lemma_store(f, m, q, s, base, i, ma, Value::I32(x), access::store_number(i, Value::I32(x))->0);
    }
    if i == Instr::I32Store8(ma) {
        lemma_store(f, m, q, s, base, i, ma, Value::I32(x), access::store_number(i, Value::I32(x))->0);
    }
    if i == Instr::I32Store16(ma) {
        lemma_store(f, m, q, s, base, i, ma, Value::I32(x), access::store_number(i, Value::I32(x))->0);
    }
}

/// The stores of an `i64` write its lowest bytes: all eight, one, two, or
/// four.
pub proof fn law_stores_i64(
    f: FrameModel,
    m: InstanceModel,
    i: Instr,
    ma: MemArg,
    q: int,
    s: Seq<Value>,
    base: i32,
    y: i64,
)
    requires
        semantics::next_is(f, i, q),
        f.stack == s.push(Value::I32(base)).push(Value::I64(y)),
    ensures
        i == Instr::I64Store(ma) ==> stores(f, m, q, s, base, ma, 8, semantics::unsigned64(y)),
        i == Instr::I64Store8(ma) ==> stores(f, m, q, s, base, ma, 1, semantics::unsigned64(y)),
        i == Instr::I64Store16(ma) ==> stores(f, m, q, s, base, ma, 2, semantics::unsigned64(y)),
        i == Instr::I64Store32(ma) ==> stores(f, m, q, s, base, ma, 4, semantics::unsigned64(y)),
{
    semantics::lemma_words64(y, 0);
    lemma_low_part(0, y as u64);
    if i == Instr::I64Store(ma) {
        lemma_store(f, m, q, s, base, i, ma, Value::I64(y), access::store_number(i, Value::I64(y))->0);
    }
    if i == Instr::I64Store8(ma) {
        lemma_store(f, m, q, s, base, i, ma, Value::I64(y), access::store_number(i, Value::I64(y))->0);
    }
    if i == Instr::I64Store16(ma) {
        lemma_store(f, m, q, s, base, i, ma, Value::I64(y), access::store_number(i, Value::I64(y))->0);
    }
    if i == Instr::I64Store32(ma) {
        lemma_store(f, m, q, s, base, i, ma, Value::I64(y), access::store_number(i, Value::I64(y))->0);
    }
}

/// The store of an `f32` writes its bit pattern.
pub proof fn law_stores_f32(
    f: FrameModel,
    m: InstanceModel,
    i: Instr,
    ma: MemArg,
    q: int,
    s: Seq<Value>,
    base: i32,
    x: u32,
)
    requires
        semantics::next_is(f, i, q),
        f.stack == s.push(Value::I32(base)).push(Value::F32(x)),
    ensures
        i == Instr::F32Store(ma) ==> stores(f, m, q, s, base, ma, 4, x as int),
{
    if i == Instr::F32Store(ma) {
        lemma_store(f, m, q, s, base, i, ma, Value::F32(x), access::store_number(i, Value::F32(x))->0);
    }
}

/// The store of an `f64` writes its bit pattern.
pub proof fn law_stores_f64(
    f: FrameModel,
    m: InstanceModel,
    i: Instr,
    ma: MemArg,
    q: int,
    s: Seq<Value>,
    base: i32,
    x: u64,
)
    requires
        semantics::next_is(f, i, q),
        f.stack == s.push(Value::I32(base)).push(Value::F64(x)),
    ensures
        i == Instr::F64Store(ma) ==> stores(f, m, q, s, base, ma, 8, x as int),
{
    if i == Instr::F64Store(ma) {
        lemma_store(f, m, q, s, base, i, ma, Value::F64(x), access::store_number(i, Value::F64(x))->0);
    }
}

proof fn lemma_number_comes_back(m: MemoryModel, a: u32, v: nat, w: nat)
    requires
        w == 4 || w == 8,
        v < span(w),
        memory::access_error(m, a, w) is None,
    ensures
        memory::loaded(memory::stored(m, a, v, w)->Ok_0, a, w) == Ok::<nat, WasmError>(v),
{
    bytes::lemma_pow256();
    memory::law_load_after_store(m, a, v, w);
    vstd::arithmetic::div_mod::lemma_small_mod(v, span(w) as nat);
}

/// A value that is stored and then loaded from the same address, with the
/// full width of its type, comes back as it was.
pub proof fn law_value_comes_back(
    m: MemoryModel,
    base: i32,
    ma: MemArg,
    x: i32,
    y: i64,
    z: u32,
    w: u64,
)
    ensures
        access::store_result(Instr::I32Store(ma), m, base, Value::I32(x)) matches Ok(m2)
            ==> access::load_result(Instr::I32Load(ma), m2, base) == Ok::<Value, WasmError>(
            Value::I32(x),
        ),
        access::store_result(Instr::I64Store(ma), m, base, Value::I64(y)) matches Ok(m2)
            ==> access::load_result(Instr::I64Load(ma), m2, base) == Ok::<Value, WasmError>(
            Value::I64(y),
        ),
        access::store_result(Instr::F32Store(ma), m, base, Value::F32(z)) matches Ok(m2)
            ==> access::load_result(Instr::F32Load(ma), m2, base) == Ok::<Value, WasmError>(
            Value::F32(z),
        ),
        access::store_result(Instr::F64Store(ma), m, base, Value::F64(w)) matches Ok(m2)
            ==> access::load_result(Instr::F64Load(ma), m2, base) == Ok::<Value, WasmError>(
            Value::F64(w),
        ),
{
    let a = access::effective_addr(base, ma);
    semantics::lemma_words32(x, x as u32);
    semantics::lemma_words64(y, y as u64);
    if memory::access_error(m, a, 4) is None {
        lemma_number_comes_back(m, a, x as u32 as nat, 4);
        lemma_number_comes_back(m, a, z as nat, 4);
    }
    if memory::access_error(m, a, 8) is None {
        lemma_number_comes_back(m, a, y as u64 as nat, 8);
        lemma_number_comes_back(m, a, w as nat, 8);
    }
}

/// An access succeeds exactly when all its bytes are inside the memory.
pub proof fn law_access_inside(m: MemoryModel, base: i32, ma: MemArg, x: i32, y: i64, z: u32, w: u64)
    requires
        m.data.len() <= usize::MAX,
    ensures
        access::load_result(Instr::I32Load(ma), m, base) is Ok <==> address(base, ma) + 4
            <= m.data.len(),
        access::load_result(Instr::I64Load(ma), m, base) is Ok <==> address(base, ma) + 8
            <= m.data.len(),
        access::load_result(Instr::F32Load(ma), m, base) is Ok <==> address(base, ma) + 4
            <= m.data.len(),
        access::load_result(Instr::F64Load(ma), m, base) is Ok <==> address(base, ma) + 8
            <= m.data.len(),
        access::store_result(Instr::I32Store(ma), m, base, Value::I32(x)) is Ok <==> address(
            base,
            ma,
        ) + 4 <= m.data.len(),
        access::store_result(Instr::I64Store(ma), m, base, Value::I64(y)) is Ok <==> address(
            base,
            ma,
        ) + 8 <= m.data.len(),
        access::store_result(Instr::F32Store(ma), m, base, Value::F32(z)) is Ok <==> address(
            base,
            ma,
        ) + 4 <= m.data.len(),
        access::store_result(Instr::F64Store(ma), m, base, Value::F64(w)) is Ok <==> address(
            base,
            ma,
        ) + 8 <= m.data.len(),
{
    lemma_address(base, ma);
}

/// Whether `i` is a load.
pub open spec fn is_load(i: Instr) -> bool {
    i is I32Load || i is I64Load || i is F32Load || i is F64Load || i is I32Load8S
        || i is I32Load8U || i is I32Load16S || i is I32Load16U || i is I64Load8S || i is I64Load8U
        || i is I64Load16S || i is I64Load16U || i is I64Load32S || i is I64Load32U
}

/// Whether `i` is a store of a value of type `ty`.
pub open spec fn is_store(i: Instr, ty: ValType) -> bool {
    match ty {
        ValType::I32 => i is I32Store || i is I32Store8 || i is I32Store16,
        ValType::I64 => i is I64Store || i is I64Store8 || i is I64Store16 || i is I64Store32,
        ValType::F32 => i is F32Store,
        ValType::F64 => i is F64Store,
    }
}

/// A load takes an `i32` off the stack; a store takes a value of its type,
/// and then an `i32`.
pub proof fn law_access_operands(
    f: FrameModel,
    m: InstanceModel,
    i: Instr,
    ty: ValType,
    q: int,
    s: Seq<Value>,
    a: Value,
    v: Value,
)
    requires
        semantics::next_is(f, i, q),
    ensures
        is_load(i) && f.stack.len() == 0 ==> flow::fails(f, m, WasmError::StackUnderflow),
        is_load(i) && f.stack == s.push(a) && !(a is I32) ==> flow::fails(
            f,
            m,
            WasmError::TypeMismatch,
        ),
        is_store(i, ty) && f.stack.len() == 0 ==> flow::fails(f, m, WasmError::StackUnderflow),
        is_store(i, ty) && f.stack == s.push(v) && !flow::has_type(v, ty) ==> flow::fails(
            f,
            m,
            WasmError::TypeMismatch,
        ),
        is_store(i, ty) && f.stack.len() == 1 && flow::has_type(f.stack[0], ty) ==> flow::fails(
            f,
            m,
            WasmError::StackUnderflow,
        ),
        is_store(i, ty) && f.stack == s.push(a).push(v) && flow::has_type(v, ty) && !(a is I32)
            ==> flow::fails(f, m, WasmError::TypeMismatch),
{
    reveal(frame::step);
    assert(s.push(a).push(v).drop_last() =~= s.push(a));
}

// ---- The size of memory ----

/// `memory.size` puts the number of 64 KiB pages of the memory on the stack;
/// without a memory, 0.
pub proof fn law_memory_size(f: FrameModel, m: InstanceModel, q: int, pages: int)
    requires
        semantics::next_is(f, Instr::MemorySize, q),
        0 <= pages <= i32::MAX,
        if m.memories.len() > 0 {
            m.memories[0].data.len() == pages * 65536
        } else {
            pages == 0
        },
    ensures
        semantics::leaves(f, m, q, f.stack.push(Value::I32(pages as i32))),
{
    reveal(frame::step);
}

/// `memory.grow` adds as many zero pages as the topmost value says and puts
/// the old number of pages on the stack. Where the new number of pages is
/// over the maximum, or cannot be addressed, and where there is no memory, it
/// changes nothing and puts -1 there.
pub proof fn law_memory_grow(
    f: FrameModel,
    m: InstanceModel,
    q: int,
    s: Seq<Value>,
    delta: i32,
    pages: int,
)
    requires
        semantics::next_is(f, Instr::MemoryGrow, q),
        f.stack == s.push(Value::I32(delta)),
        m.memories.len() > 0 ==> m.memories[0].data.len() == pages * 65536,
        0 <= pages <= i32::MAX,
    ensures
        ({
            let more = semantics::unsigned32(delta);
            if m.memories.len() == 0 || pages + more > u32::MAX || (m.memories[0].max matches Some(
                max,
            ) && pages + more > max) || (pages + more) * 65536 > usize::MAX {
                semantics::leaves(f, m, q, s.push(Value::I32(-1i32)))
            } else {
                frame::step(f, m) matches Ok(st) && st.effect is Next && st.frame == (FrameModel {
                    stack: s.push(Value::I32(pages as i32)),
                    pc: q,
                    ..f
                }) && st.inst == (InstanceModel { memories: st.inst.memories, ..m })
                    && st.inst.memories.len() == m.memories.len() && st.inst.memories[0].max
                    == m.memories[0].max && st.inst.memories[0].data == m.memories[0].data
                    + Seq::new((more * 65536) as nat, |k: int| 0u8)
            }
        }),
{
    reveal(frame::step);
    semantics::lemma_words32(delta, 0);
    assert(f.stack.drop_last() =~= s);
    let more = semantics::unsigned32(delta);
    if m.memories.len() > 0 {
        let d = m.memories[0].data;
        assert(memory::pages_of(m.memories[0]) == pages);
        if pages + more <= u32::MAX {
            assert(memory::resized(d, ((pages + more) * 65536) as nat) =~= d + Seq::new(
                (more * 65536) as nat,
                |k: int| 0u8,
            ));
        }
        assert(m.memories.update(0, m.memories[0]) =~= m.memories);
    }
}

/// A new memory has its minimum number of pages, all zero, and its maximum.
pub proof fn law_new_memory(limits: Limits, i: int)
    requires
        0 <= i < limits.min * 65536,
    ensures
        memory::fresh_memory(limits).data.len() == limits.min * 65536,
        memory::fresh_memory(limits).data[i] == 0,
        memory::fresh_memory(limits).max == limits.max,
{
}

/// A new table has its minimum number of slots, and none is set.
pub proof fn law_new_table(limits: Limits, i: int)
    requires
        0 <= i < limits.min,
    ensures
        memory::fresh_table(limits).len() == limits.min,
        memory::fresh_table(limits)[i] is None,
{
}

} // verus!
