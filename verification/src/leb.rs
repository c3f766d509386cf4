//! The canonical LEB128 encodings, and that reading them gives the numbers
//! back.
use vstd::arithmetic::power;
use vstd::prelude::*;

use crate::reader;
use crate::types::WasmError;

verus! {

/// The canonical encoding of an unsigned number: seven bits per byte, lowest
/// first, with the top bit set on all bytes but the last.
pub open spec fn unsigned_leb(v: nat) -> Seq<u8>
    decreases v,
{
    if v < 128 {
        seq![v as u8]
    } else {
        seq![(v % 128 + 128) as u8] + unsigned_leb(v / 128)
    }
}

/// The canonical encoding of a signed number: as for unsigned numbers, in
/// two's complement, until the rest is the sign of the last group.
pub open spec fn signed_leb(v: int) -> Seq<u8>
    decreases
            if v < 0 {
                -v
            } else {
                v
            },
{
    if -64 <= v < 64 {
        seq![(v % 128) as u8]
    } else {
        seq![(v % 128 + 128) as u8] + signed_leb(v / 128)
    }
}

/// The encoded bytes stand at position `p`.
pub open spec fn stands_at(d: Seq<u8>, p: int, s: Seq<u8>) -> bool {
    0 <= p && p + s.len() <= d.len() && d.subrange(p, p + s.len()) == s
}

/// All bytes but the last announce another one.
spec fn continued(s: Seq<u8>) -> bool {
    &&& s.len() > 0
    &&& forall|i: int| 0 <= i < s.len() - 1 ==> #[trigger] s[i] >= 128
    &&& s.last() < 128
}

proof fn lemma_top_bit(b: u8)
    ensures
        b & 0x80 != 0 <==> b >= 128,
{
    assert(b & 0x80 != 0 <==> b >= 128) by (bit_vector);
}

proof fn lemma_unsigned_continued(v: nat)
    ensures
        continued(unsigned_leb(v)),
    decreases v,
{
    if v >= 128 {
        lemma_unsigned_continued(v / 128);
    }
}

proof fn lemma_signed_continued(v: int)
    ensures
        continued(signed_leb(v)),
    decreases
            if v < 0 {
                -v
            } else {
                v
            },
{
    if !(-64 <= v < 64) {
        lemma_signed_continued(v / 128);
    }
}

/// The run of continued bytes is all but the last byte of an encoding.
proof fn lemma_run_of(d: Seq<u8>, p: int, s: Seq<u8>)
    requires
        stands_at(d, p, s),
        continued(s),
    ensures
        reader::run_len(d, p) == s.len() - 1,
    decreases s.len(),
{
    lemma_top_bit(d[p]);
    assert(d[p] == d.subrange(p, p + s.len())[0]);
    if s.len() > 1 {
        assert(d.subrange(p + 1, p + s.len()) =~= d.subrange(p, p + s.len()).drop_first());
        lemma_run_of(d, p + 1, s.drop_first());
    }
}

proof fn lemma_unsigned_len(v: nat, k: nat)
    requires
        1 <= k,
        v < power::pow(128, k),
    ensures
        unsigned_leb(v).len() <= k,
    decreases k,
{
    reveal(power::pow);
    if v >= 128 {
        if k == 1 {
            assert(power::pow(128, 1) == 128 * power::pow(128, 0));
        } else {
            assert(power::pow(128, k) == 128 * power::pow(128, (k - 1) as nat));
            lemma_unsigned_len(v / 128, (k - 1) as nat);
        }
    }
}

proof fn lemma_pow128()
    ensures
        power::pow(128, 5) == 0x8_0000_0000,
        power::pow(128, 10) == 0x40_0000_0000_0000_0000,
{
    reveal(power::pow);
    reveal_with_fuel(power::pow, 11);
}

// ---- Splitting off the first group ----

proof fn lemma_bits64_split(s: Seq<u8>)
    requires
        2 <= s.len() <= 10,
    ensures
        reader::bits64(s) == ((s[0] & 0x7F) as u64) | (reader::bits64(s.drop_first()) << 7),
    decreases s.len(),
{
    let t = s.drop_first();
    let g = (s.last() & 0x7F) as u64;
    assert(t.last() == s.last());
    if s.len() == 2 {
        let a = (s[0] & 0x7F) as u64;
        reveal_with_fuel(reader::bits64, 3);
        assert(s.drop_last().drop_last() =~= Seq::<u8>::empty());
        assert(t.drop_last() =~= Seq::<u8>::empty());
        assert((0u64 | (a << 0)) | (g << 7) == a | ((0u64 | (g << 0)) << 7)) by (bit_vector);
    } else {
        lemma_bits64_split(s.drop_last());
        assert(s.drop_last().drop_first() =~= t.drop_last());
        assert(s.drop_last()[0] == s[0]);
        let a = (s[0] & 0x7F) as u64;
        let b = reader::bits64(t.drop_last());
        let x = (7 * (t.len() - 1)) as u64;
        assert(x <= 56);
        assert((7 * (s.len() - 1)) % 64 == x + 7);
        assert((7 * (t.len() - 1)) % 64 == x);
        assert((a | (b << 7)) | (g << ((x + 7) as u64)) == a | ((b | (g << x)) << 7))
            by (bit_vector)
            requires
                x <= 56,
        ;
    }
}

proof fn lemma_bits32_split(s: Seq<u8>)
    requires
        2 <= s.len() <= 5,
    ensures
        reader::bits32(s) == ((s[0] & 0x7F) as u32) | (reader::bits32(s.drop_first()) << 7),
    decreases s.len(),
{
    let t = s.drop_first();
    let g = (s.last() & 0x7F) as u32;
    assert(t.last() == s.last());
    if s.len() == 2 {
        let a = (s[0] & 0x7F) as u32;
        reveal_with_fuel(reader::bits32, 3);
        assert(s.drop_last().drop_last() =~= Seq::<u8>::empty());
        assert(t.drop_last() =~= Seq::<u8>::empty());
        assert((0u32 | (a << 0)) | (g << 7) == a | ((0u32 | (g << 0)) << 7)) by (bit_vector);
    } else {
        lemma_bits32_split(s.drop_last());
        assert(s.drop_last().drop_first() =~= t.drop_last());
        assert(s.drop_last()[0] == s[0]);
        let a = (s[0] & 0x7F) as u32;
        let b = reader::bits32(t.drop_last());
        let x = (7 * (t.len() - 1)) as u32;
        assert(x <= 21);
        assert((7 * (s.len() - 1)) % 32 == x + 7);
        assert((7 * (t.len() - 1)) % 32 == x);
        assert((a | (b << 7)) | (g << ((x + 7) as u32)) == a | ((b | (g << x)) << 7))
            by (bit_vector)
            requires
                x <= 21,
        ;
    }
}

// ---- Unsigned numbers ----

proof fn lemma_bits64_unsigned(v: u64)
    requires
        unsigned_leb(v as nat).len() <= 10,
    ensures
        reader::bits64(unsigned_leb(v as nat)) == v,
    decreases v,
{
    let s = unsigned_leb(v as nat);
    if v < 128 {
        let b = v as u8;
        assert(s.drop_last() =~= Seq::<u8>::empty());
        assert(reader::bits64(Seq::<u8>::empty()) == 0);
        assert(0u64 | (((b & 0x7F) as u64) << 0) == v) by (bit_vector)
            requires
                b as u64 == v,
                v < 128,
        ;
    } else {
        let w = v / 128;
        assert(s.drop_first() =~= unsigned_leb(w as nat));
        assert(w as nat == v as nat / 128);
        lemma_bits64_unsigned(w);
        lemma_bits64_split(s);
        let b = s[0];
        assert(b as u64 == v % 128 + 128);
        assert(((b & 0x7F) as u64) | (w << 7) == v) by (bit_vector)
            requires
                b as u64 == v % 128 + 128,
                w == v / 128,
        ;
    }
}

proof fn lemma_bits32_unsigned(v: u32)
    requires
        unsigned_leb(v as nat).len() <= 5,
    ensures
        reader::bits32(unsigned_leb(v as nat)) == v,
    decreases v,
{
    let s = unsigned_leb(v as nat);
    if v < 128 {
        let b = v as u8;
        assert(s.drop_last() =~= Seq::<u8>::empty());
        assert(reader::bits32(Seq::<u8>::empty()) == 0);
        assert(0u32 | (((b & 0x7F) as u32) << 0) == v) by (bit_vector)
            requires
                b as u32 == v,
                v < 128,
        ;
    } else {
        let w = v / 128;
        assert(s.drop_first() =~= unsigned_leb(w as nat));
        assert(w as nat == v as nat / 128);
        lemma_bits32_unsigned(w);
        lemma_bits32_split(s);
        let b = s[0];
        assert(b as u32 == v % 128 + 128);
        assert(((b & 0x7F) as u32) | (w << 7) == v) by (bit_vector)
            requires
                b as u32 == v % 128 + 128,
                w == v / 128,
        ;
    }
}

/// Reading the encoding of a 32-bit number gives the number, and stops after
/// it.
pub proof fn law_u32_round_trip(d: Seq<u8>, p: int, v: u32)
    requires
        stands_at(d, p, unsigned_leb(v as nat)),
    ensures
        reader::u32_at(d, p) == (
            Ok::<u32, WasmError>(v),
            p + unsigned_leb(v as nat).len() as int,
        ),
{
    lemma_pow128();
    lemma_unsigned_len(v as nat, 5);
    lemma_unsigned_continued(v as nat);
    lemma_run_of(d, p, unsigned_leb(v as nat));
    lemma_bits32_unsigned(v);
}

/// Reading the encoding of a 64-bit number gives the number, and stops after
/// it.
pub proof fn law_u64_round_trip(d: Seq<u8>, p: int, v: u64)
    requires
        stands_at(d, p, unsigned_leb(v as nat)),
    ensures
        reader::u64_at(d, p) == (
            Ok::<u64, WasmError>(v),
            p + unsigned_leb(v as nat).len() as int,
        ),
{
    lemma_pow128();
    lemma_unsigned_len(v as nat, 10);
    lemma_unsigned_continued(v as nat);
    lemma_run_of(d, p, unsigned_leb(v as nat));
    lemma_bits64_unsigned(v);
}

// ---- Signed numbers ----

proof fn lemma_signed_len(v: int, k: nat)
    requires
        -64 * power::pow(128, k) <= v < 64 * power::pow(128, k),
    ensures
        signed_leb(v).len() <= k + 1,
    decreases k,
{
    reveal(power::pow);
    if !(-64 <= v < 64) {
        if k == 0 {
            assert(power::pow(128, 0) == 1);
        } else {
            let q = power::pow(128, (k - 1) as nat);
            assert(power::pow(128, k) == 128 * q);
            lemma_signed_len(v / 128, (k - 1) as nat);
        }
    }
}

proof fn lemma_pow128_less()
    ensures
        power::pow(128, 4) == 0x1000_0000,
        power::pow(128, 9) == 0x8000_0000_0000_0000,
{
    reveal(power::pow);
    reveal_with_fuel(power::pow, 10);
}

proof fn lemma_signed64_split(s: Seq<u8>)
    requires
        2 <= s.len() <= 10,
    ensures
        reader::signed64(s) == (((s[0] & 0x7F) as u64) | ((reader::signed64(s.drop_first()) as u64)
            << 7)) as i64,
{
    lemma_bits64_split(s);
    let t = s.drop_first();
    assert(t.last() == s.last());
    let a = (s[0] & 0x7F) as u64;
    let b = reader::bits64(t);
    let x = (7 * t.len()) as u64;
    let ones = 0xFFFF_FFFF_FFFF_FFFFu64;
    if s.last() & 0x40 != 0 {
        if s.len() <= 9 {
            assert((a | (b << 7)) | (ones << ((x + 7) as u64)) == a | ((((b | (ones << x)) as i64)
                as u64) << 7)) by (bit_vector)
                requires
                    x <= 56,
                    ones == 0xFFFF_FFFF_FFFF_FFFFu64,
            ;
        } else {
            assert(a | (b << 7) == a | ((((b | (ones << 63)) as i64) as u64) << 7))
                by (bit_vector);
        }
    } else {
        assert(a | (b << 7) == a | (((b as i64) as u64) << 7)) by (bit_vector);
    }
}

proof fn lemma_signed32_split(s: Seq<u8>)
    requires
        2 <= s.len() <= 5,
    ensures
        reader::signed32(s) == (((s[0] & 0x7F) as u32) | ((reader::signed32(s.drop_first()) as u32)
            << 7)) as i32,
{
    lemma_bits32_split(s);
    let t = s.drop_first();
    assert(t.last() == s.last());
    let a = (s[0] & 0x7F) as u32;
    let b = reader::bits32(t);
    let x = (7 * t.len()) as u32;
    let ones = 0xFFFF_FFFFu32;
    if s.last() & 0x40 != 0 {
        if s.len() <= 4 {
            assert((a | (b << 7)) | (ones << ((x + 7) as u32)) == a | ((((b | (ones << x)) as i32)
                as u32) << 7)) by (bit_vector)
                requires
                    x <= 21,
                    ones == 0xFFFF_FFFFu32,
            ;
        } else {
            assert(a | (b << 7) == a | ((((b | (ones << 28)) as i32) as u32) << 7))
                by (bit_vector);
        }
    } else {
        assert(a | (b << 7) == a | (((b as i32) as u32) << 7)) by (bit_vector);
    }
}

proof fn lemma_signed64_of(v: i64)
    requires
        signed_leb(v as int).len() <= 10,
    ensures
        reader::signed64(signed_leb(v as int)) == v,
    decreases
            if v < 0 {
                -v
            } else {
                v as int
            },
{
    let s = signed_leb(v as int);
    if -64 <= v < 64 {
        let b = s[0];
        assert(s.drop_last() =~= Seq::<u8>::empty());
        assert(s.last() == b);
        assert(reader::bits64(Seq::<u8>::empty()) == 0);
        assert(reader::bits64(s) == 0u64 | (((b & 0x7F) as u64) << 0));
        if v >= 0 {
            assert(b as i64 == v);
            assert(b & 0x40 == 0 && (0u64 | (((b & 0x7F) as u64) << 0)) as i64 == v)
                by (bit_vector)
                requires
                    b as i64 == v,
                    0 <= v < 64,
            ;
        } else {
            assert(b as i64 == v + 128);
            assert(b & 0x40 != 0 && ((0u64 | (((b & 0x7F) as u64) << 0)) | (
            0xFFFF_FFFF_FFFF_FFFFu64 << 7)) as i64 == v) by (bit_vector)
                requires
                    b as i64 == v + 128,
                    -64 <= v < 0,
            ;
        }
    } else {
        let w: i64 = (v as int / 128) as i64;
        assert(w as int == v as int / 128);
        assert(s.drop_first() =~= signed_leb(w as int));
        lemma_signed64_of(w);
        lemma_signed64_split(s);
        let b = s[0];
        assert(b as int == v as int % 128 + 128);
        assert(v as int == 128 * w + (b as int - 128));
        assert((((b & 0x7F) as u64) | ((w as u64) << 7)) as i64 == v) by (bit_vector)
            requires
                v == 128 * w + (b - 128),
                b >= 128,
        ;
    }
}

proof fn lemma_signed32_of(v: i32)
    requires
        signed_leb(v as int).len() <= 5,
    ensures
        reader::signed32(signed_leb(v as int)) == v,
    decreases
            if v < 0 {
                -v
            } else {
                v as int
            },
{
    let s = signed_leb(v as int);
    if -64 <= v < 64 {
        let b = s[0];
        assert(s.drop_last() =~= Seq::<u8>::empty());
        assert(s.last() == b);
        assert(reader::bits32(Seq::<u8>::empty()) == 0);
        assert(reader::bits32(s) == 0u32 | (((b & 0x7F) as u32) << 0));
        if v >= 0 {
            assert(b as i32 == v);
            assert(b & 0x40 == 0 && (0u32 | (((b & 0x7F) as u32) << 0)) as i32 == v)
                by (bit_vector)
                requires
                    b as i32 == v,
                    0 <= v < 64,
            ;
        } else {
            assert(b as i32 == v + 128);
            assert(b & 0x40 != 0 && ((0u32 | (((b & 0x7F) as u32) << 0)) | (0xFFFF_FFFFu32
                << 7)) as i32 == v) by (bit_vector)
                requires
                    b as i32 == v + 128,
                    -64 <= v < 0,
            ;
        }
    } else {
        let w: i32 = (v as int / 128) as i32;
        assert(w as int == v as int / 128);
        assert(s.drop_first() =~= signed_leb(w as int));
        lemma_signed32_of(w);
        lemma_signed32_split(s);
        let b = s[0];
        assert(b as int == v as int % 128 + 128);
        assert(v as int == 128 * w + (b as int - 128));
        assert((((b & 0x7F) as u32) | ((w as u32) << 7)) as i32 == v) by (bit_vector)
            requires
                v == 128 * w + (b - 128),
                b >= 128,
        ;
    }
}

/// Reading the encoding of a signed 32-bit number gives the number, and stops
/// after it.
pub proof fn law_i32_round_trip(d: Seq<u8>, p: int, v: i32)
    requires
        stands_at(d, p, signed_leb(v as int)),
    ensures
        reader::i32_at(d, p) == (
            Ok::<i32, WasmError>(v),
            p + signed_leb(v as int).len() as int,
        ),
{
    lemma_pow128_less();
    lemma_signed_len(v as int, 4);
    lemma_signed_continued(v as int);
    lemma_run_of(d, p, signed_leb(v as int));
    lemma_signed32_of(v);
}

/// Reading the encoding of a signed 64-bit number gives the number, and stops
/// after it.
pub proof fn law_i64_round_trip(d: Seq<u8>, p: int, v: i64)
    requires
        stands_at(d, p, signed_leb(v as int)),
    ensures
        reader::i64_at(d, p) == (
            Ok::<i64, WasmError>(v),
            p + signed_leb(v as int).len() as int,
        ),
{
    lemma_pow128_less();
    lemma_signed_len(v as int, 9);
    lemma_signed_continued(v as int);
    lemma_run_of(d, p, signed_leb(v as int));
    lemma_signed64_of(v);
}

} // verus!
