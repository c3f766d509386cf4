//! A cursor over bytes, and the variable-length numbers of the binary format.
use vstd::prelude::*;
use vstd::utf8;

use crate::bytes;
use crate::types::WasmError;

verus! {

/// The outcome of reading at a position: the value or the error, and the
/// position afterwards.
pub type Cursor<T> = (Result<T, WasmError>, int);

/// A cursor over a byte slice.
pub struct Reader<'a> {
    pub data: &'a [u8],
    pub pos: usize,
}

/// One byte at `p`.
pub open spec fn byte_at(d: Seq<u8>, p: int) -> Cursor<u8> {
    if p < d.len() {
        (Ok(d[p]), p + 1)
    } else {
        (Err(WasmError::UnexpectedEof), p)
    }
}

/// `n` bytes at `p`.
pub open spec fn bytes_at(d: Seq<u8>, p: int, n: int) -> Cursor<Seq<u8>> {
    if p + n > d.len() {
        (Err(WasmError::UnexpectedEof), p)
    } else {
        (Ok(d.subrange(p, p + n)), p + n)
    }
}

/// How many of the bytes from `p` on announce that another one follows,
/// before the first that does not.
pub open spec fn run_len(d: Seq<u8>, p: int) -> nat
    decreases d.len() - p,
{
    if p < d.len() && d[p] & 0x80 != 0 {
        run_len(d, p + 1) + 1
    } else {
        0
    }
}

/// The low seven bits of each byte, group `i` shifted left by `7 * i` bits
/// (modulo the width), combined into 32 bits.
pub open spec fn bits32(s: Seq<u8>) -> u32
    decreases s.len(),
{
    if s.len() == 0 {
        0
    } else {
        bits32(s.drop_last()) | (((s.last() & 0x7F) as u32) << ((7 * (s.len() - 1)) % 32))
    }
}

/// The low seven bits of each byte, group `i` shifted left by `7 * i` bits
/// (modulo the width), combined into 64 bits.
pub open spec fn bits64(s: Seq<u8>) -> u64
    decreases s.len(),
{
    if s.len() == 0 {
        0
    } else {
        bits64(s.drop_last()) | (((s.last() & 0x7F) as u64) << ((7 * (s.len() - 1)) % 64))
    }
}

/// `bits32`, with the bits above the last group copied from its top bit.
pub open spec fn signed32(s: Seq<u8>) -> i32 {
    if s.len() <= 4 && s.last() & 0x40 != 0 {
        (bits32(s) | (0xFFFF_FFFFu32 << (7 * s.len()))) as i32
    } else {
        bits32(s) as i32
    }
}

/// `bits64`, with the bits above the last group copied from its top bit.
pub open spec fn signed64(s: Seq<u8>) -> i64 {
    if s.len() <= 9 && s.last() & 0x40 != 0 {
        (bits64(s) | (0xFFFF_FFFF_FFFF_FFFFu64 << (7 * s.len()))) as i64
    } else {
        bits64(s) as i64
    }
}

/// An unsigned 32-bit number at `p`; six continued bytes are too many.
pub open spec fn u32_at(d: Seq<u8>, p: int) -> Cursor<u32> {
    let n = run_len(d, p);
    if n >= 6 {
        (Err(WasmError::InvalidType), p + 6)
    } else if p + n >= d.len() {
        (Err(WasmError::UnexpectedEof), p + n)
    } else {
        (Ok(bits32(d.subrange(p, p + n + 1))), p + n + 1)
    }
}

/// An unsigned 64-bit number at `p`; eleven continued bytes are too many.
pub open spec fn u64_at(d: Seq<u8>, p: int) -> Cursor<u64> {
    let n = run_len(d, p);
    if n >= 11 {
        (Err(WasmError::InvalidType), p + 11)
    } else if p + n >= d.len() {
        (Err(WasmError::UnexpectedEof), p + n)
    } else {
        (Ok(bits64(d.subrange(p, p + n + 1))), p + n + 1)
    }
}

/// A signed 32-bit number at `p`.
pub open spec fn i32_at(d: Seq<u8>, p: int) -> Cursor<i32> {
    let n = run_len(d, p);
    if p + n >= d.len() {
        (Err(WasmError::UnexpectedEof), p + n)
    } else {
        (Ok(signed32(d.subrange(p, p + n + 1))), p + n + 1)
    }
}

/// A signed 64-bit number at `p`.
pub open spec fn i64_at(d: Seq<u8>, p: int) -> Cursor<i64> {
    let n = run_len(d, p);
    if p + n >= d.len() {
        (Err(WasmError::UnexpectedEof), p + n)
    } else {
        (Ok(signed64(d.subrange(p, p + n + 1))), p + n + 1)
    }
}

/// The bit pattern of a 32-bit float at `p`.
pub open spec fn f32_bits_at(d: Seq<u8>, p: int) -> Cursor<u32> {
    match bytes_at(d, p, 4) {
        (Ok(b), q) => (Ok(bytes::le(b) as u32), q),
        (Err(e), q) => (Err(e), q),
    }
}

/// The bit pattern of a 64-bit float at `p`.
pub open spec fn f64_bits_at(d: Seq<u8>, p: int) -> Cursor<u64> {
    match bytes_at(d, p, 8) {
        (Ok(b), q) => (Ok(bytes::le(b) as u64), q),
        (Err(e), q) => (Err(e), q),
    }
}

/// A length-prefixed UTF-8 name at `p`.
pub open spec fn name_at(d: Seq<u8>, p: int) -> Cursor<Seq<char>> {
    match u32_at(d, p) {
        (Err(e), q) => (Err(e), q),
        (Ok(n), q) => match bytes_at(d, q, n as int) {
            (Err(e), q2) => (Err(e), q2),
            (Ok(b), q2) => if utf8::valid_utf8(b) {
                (Ok(utf8::decode_utf8(b)), q2)
            } else {
                (Err(WasmError::InvalidType), q2)
            },
        },
    }
}

/// The run of continued bytes stays within the data.
pub proof fn lemma_run_len(d: Seq<u8>, p: int)
    requires
        0 <= p,
    ensures
        p <= d.len() ==> p + run_len(d, p) <= d.len(),
        p >= d.len() ==> run_len(d, p) == 0,
        forall|i: int| p <= i < p + run_len(d, p) ==> d[i] & 0x80 != 0,
        p + run_len(d, p) < d.len() ==> d[p + run_len(d, p)] & 0x80 == 0,
    decreases d.len() - p,
{
    if p < d.len() && d[p] & 0x80 != 0 {
        lemma_run_len(d, p + 1);
    }
}

/// A position is reached by continued bytes only, with the rest of the run
/// still ahead.
proof fn lemma_run_step(d: Seq<u8>, p: int, k: nat)
    requires
        0 <= p,
        p + k <= d.len(),
        forall|i: int| p <= i < p + k ==> d[i] & 0x80 != 0,
    ensures
        run_len(d, p) == k + run_len(d, p + k),
    decreases k,
{
    if k > 0 {
        assert(d[p] & 0x80 != 0);
        lemma_run_step(d, p + 1, (k - 1) as nat);
    }
}

/// `core::str::from_utf8`: the bytes as a string, if and only if they are
/// valid UTF-8; the characters are those that the bytes encode.
#[verifier::external_body]
fn utf8_str(b: &[u8]) -> (r: Result<&str, ()>)
    ensures
        r is Ok <==> utf8::valid_utf8(b@),
        r matches Ok(s) ==> s@ == utf8::decode_utf8(b@),
{
    core::str::from_utf8(b).map_err(|_| ())
}

impl<'a> Reader<'a> {
    /// A reader at the start of `data`.
    pub fn new(data: &'a [u8]) -> (r: Self)
        ensures
            r.data@ == data@,
            r.pos == 0,
    {
        Reader { data, pos: 0 }
    }

    /// How many bytes are left.
    pub fn remaining(&self) -> (r: usize)
        requires
            self.pos <= self.data.len(),
        ensures
            r == self.data.len() - self.pos,
    {
        self.data.len() - self.pos
    }

    /// Whether no byte is left.
    pub fn is_empty(&self) -> (r: bool)
        ensures
            r == (self.pos >= self.data.len()),
    {
        self.pos >= self.data.len()
    }

    /// Reads one byte.
    pub fn read_byte(&mut self) -> (r: Result<u8, WasmError>)
        ensures
            final(self).data == old(self).data,
            (r, final(self).pos as int) == byte_at(old(self).data@, old(self).pos as int),
    {
        if self.pos >= self.data.len() {
            return Err(WasmError::UnexpectedEof);
        }
        let b: u8 = self.data[self.pos];
        self.pos = self.pos + 1;
        Ok(b)
    }

    /// Reads `n` bytes.
    pub fn read_bytes(&mut self, n: usize) -> (r: Result<&'a [u8], WasmError>)
        ensures
            final(self).data == old(self).data,
            match r {
                Ok(s) => (Ok(s@), final(self).pos as int),
                Err(e) => (Err(e), final(self).pos as int),
            } == bytes_at(old(self).data@, old(self).pos as int, n as int),
    {
        if self.pos > self.data.len() || n > self.data.len() - self.pos {
            return Err(WasmError::UnexpectedEof);
        }
        let s = vstd::slice::slice_subrange(self.data, self.pos, self.pos + n);
        self.pos = self.pos + n;
        Ok(s)
    }

    /// Reads an unsigned LEB128 number into 32 bits.
    pub fn read_u32(&mut self) -> (r: Result<u32, WasmError>)
        ensures
            final(self).data == old(self).data,
            (r, final(self).pos as int) == u32_at(old(self).data@, old(self).pos as int),
    {
        let ghost d = self.data@;
        let ghost p = self.pos as int;
        let mut result: u32 = 0;
        let mut n: usize = 0;
        proof {
            lemma_run_len(d, p);
        }
        loop
            invariant
                self.data == old(self).data,
                self.data@ == d,
                p == old(self).pos,
                self.pos == p + n,
                n <= 5,
                n == 0 || p + n <= d.len(),
                forall|i: int| p <= i < p + n ==> d[i] & 0x80 != 0,
                n > 0 ==> result == bits32(d.subrange(p, p + n)),
                n == 0 ==> result == 0,
            decreases 6 - n,
        {
            proof {
                if n > 0 {
                    lemma_run_step(d, p, n as nat);
                }
                lemma_run_len(d, p + n);
            }
            let b: u8 = self.read_byte()?;
            proof {
                let s = d.subrange(p, p + n + 1);
                assert(s.drop_last() =~= d.subrange(p, p + n));
                assert(s.last() == b);
                assert(bits32(Seq::<u8>::empty()) == 0);
                if n == 0 {
                    assert(d.subrange(p, p) =~= Seq::<u8>::empty());
                }
                lemma_run_step(d, p, n as nat);
            }
            let sh: u32 = (7 * n as u32) % 32;
            result = result | (((b & 0x7F) as u32) << sh);
            n = n + 1;
            if b & 0x80 == 0 {
                return Ok(result);
            }
            if n > 5 {
                proof {
                    lemma_run_step(d, p, n as nat);
                }
                return Err(WasmError::InvalidType);
            }
        }
    }

    /// Reads an unsigned LEB128 number into 64 bits.
    pub fn read_u64(&mut self) -> (r: Result<u64, WasmError>)
        ensures
            final(self).data == old(self).data,
            (r, final(self).pos as int) == u64_at(old(self).data@, old(self).pos as int),
    {
        let ghost d = self.data@;
        let ghost p = self.pos as int;
        let mut result: u64 = 0;
        let mut n: usize = 0;
        proof {
            lemma_run_len(d, p);
        }
        loop
            invariant
                self.data == old(self).data,
                self.data@ == d,
                p == old(self).pos,
                self.pos == p + n,
                n <= 10,
                n == 0 || p + n <= d.len(),
                forall|i: int| p <= i < p + n ==> d[i] & 0x80 != 0,
                n > 0 ==> result == bits64(d.subrange(p, p + n)),
                n == 0 ==> result == 0,
            decreases 11 - n,
        {
            proof {
                if n > 0 {
                    lemma_run_step(d, p, n as nat);
                }
                lemma_run_len(d, p + n);
            }
            let b: u8 = self.read_byte()?;
            proof {
                let s = d.subrange(p, p + n + 1);
                assert(s.drop_last() =~= d.subrange(p, p + n));
                assert(s.last() == b);
                assert(bits64(Seq::<u8>::empty()) == 0);
                if n == 0 {
                    assert(d.subrange(p, p) =~= Seq::<u8>::empty());
                }
                lemma_run_step(d, p, n as nat);
            }
            let sh: u32 = (7 * n as u32) % 64;
            result = result | (((b & 0x7F) as u64) << sh);
            n = n + 1;
            if b & 0x80 == 0 {
                return Ok(result);
            }
            if n > 10 {
                proof {
                    lemma_run_step(d, p, n as nat);
                }
                return Err(WasmError::InvalidType);
            }
        }
    }

    /// Reads a signed LEB128 number into 32 bits.
    pub fn read_i32(&mut self) -> (r: Result<i32, WasmError>)
        ensures
            final(self).data == old(self).data,
            (r, final(self).pos as int) == i32_at(old(self).data@, old(self).pos as int),
    {
        let ghost d = self.data@;
        let ghost p = self.pos as int;
        let mut result: u32 = 0;
        let mut n: usize = 0;
        proof {
            lemma_run_len(d, p);
        }
        loop
            invariant
                self.data == old(self).data,
                self.data@ == d,
                p == old(self).pos,
                self.pos == p + n,
                n == 0 || p + n <= d.len(),
                forall|i: int| p <= i < p + n ==> d[i] & 0x80 != 0,
                n > 0 ==> result == bits32(d.subrange(p, p + n)),
                n == 0 ==> result == 0,
            decreases d.len() - n,
        {
            proof {
                if n > 0 {
                    lemma_run_step(d, p, n as nat);
                }
                lemma_run_len(d, p + n);
            }
            let b: u8 = self.read_byte()?;
            proof {
                let s = d.subrange(p, p + n + 1);
                assert(s.drop_last() =~= d.subrange(p, p + n));
                assert(s.last() == b);
                assert(bits32(Seq::<u8>::empty()) == 0);
                if n == 0 {
                    assert(d.subrange(p, p) =~= Seq::<u8>::empty());
                }
                lemma_run_step(d, p, n as nat);
            }
            let sh: u32 = (7 * (n % 32) as u32) % 32;
            proof {
                vstd::arithmetic::div_mod::lemma_mul_mod_noop_right(7, n as int, 32);
            }
            result = result | (((b & 0x7F) as u32) << sh);
            n = n + 1;
            if b & 0x80 == 0 {
                if n <= 4 && b & 0x40 != 0 {
                    result = result | (0xFFFF_FFFFu32 << (7 * n as u32));
                }
                return Ok(result as i32);
            }
        }
    }

    /// Reads a signed LEB128 number into 64 bits.
    pub fn read_i64(&mut self) -> (r: Result<i64, WasmError>)
        ensures
            final(self).data == old(self).data,
            (r, final(self).pos as int) == i64_at(old(self).data@, old(self).pos as int),
    {
        let ghost d = self.data@;
        let ghost p = self.pos as int;
        let mut result: u64 = 0;
        let mut n: usize = 0;
        proof {
            lemma_run_len(d, p);
        }
        loop
            invariant
                self.data == old(self).data,
                self.data@ == d,
                p == old(self).pos,
                self.pos == p + n,
                n == 0 || p + n <= d.len(),
                forall|i: int| p <= i < p + n ==> d[i] & 0x80 != 0,
                n > 0 ==> result == bits64(d.subrange(p, p + n)),
                n == 0 ==> result == 0,
            decreases d.len() - n,
        {
            proof {
                if n > 0 {
                    lemma_run_step(d, p, n as nat);
                }
                lemma_run_len(d, p + n);
            }
            let b: u8 = self.read_byte()?;
            proof {
                let s = d.subrange(p, p + n + 1);
                assert(s.drop_last() =~= d.subrange(p, p + n));
                assert(s.last() == b);
                assert(bits64(Seq::<u8>::empty()) == 0);
                if n == 0 {
                    assert(d.subrange(p, p) =~= Seq::<u8>::empty());
                }
                lemma_run_step(d, p, n as nat);
            }
            let sh: u32 = (7 * (n % 64) as u32) % 64;
            proof {
                vstd::arithmetic::div_mod::lemma_mul_mod_noop_right(7, n as int, 64);
            }
            result = result | (((b & 0x7F) as u64) << sh);
            n = n + 1;
            if b & 0x80 == 0 {
                if n <= 9 && b & 0x40 != 0 {
                    result = result | (0xFFFF_FFFF_FFFF_FFFFu64 << (7 * n as u32));
                }
                return Ok(result as i64);
            }
        }
    }

    /// Reads the bit pattern of a 32-bit float.
    pub fn read_f32(&mut self) -> (r: Result<u32, WasmError>)
        ensures
            final(self).data == old(self).data,
            (r, final(self).pos as int) == f32_bits_at(old(self).data@, old(self).pos as int),
    {
        let b = self.read_bytes(4)?;
        proof {
            bytes::lemma_pow256();
            assert(b@.subrange(0, 4) =~= b@);
        }
        Ok(bytes::get_le(b, 0, 4) as u32)
    }

    /// Reads the bit pattern of a 64-bit float.
    pub fn read_f64(&mut self) -> (r: Result<u64, WasmError>)
        ensures
            final(self).data == old(self).data,
            (r, final(self).pos as int) == f64_bits_at(old(self).data@, old(self).pos as int),
    {
        let b = self.read_bytes(8)?;
        proof {
            bytes::lemma_pow256();
            assert(b@.subrange(0, 8) =~= b@);
        }
        Ok(bytes::get_le(b, 0, 8))
    }

    /// Reads a length-prefixed UTF-8 name.
    pub fn read_name(&mut self) -> (r: Result<String, WasmError>)
        ensures
            final(self).data == old(self).data,
            match r {
                Ok(s) => (Ok(s@), final(self).pos as int),
                Err(e) => (Err(e), final(self).pos as int),
            } == name_at(old(self).data@, old(self).pos as int),
    {
        let len: u32 = self.read_u32()?;
        let b = self.read_bytes(len as usize)?;
        match utf8_str(b) {
            Ok(s) => Ok(s.to_string()),
            Err(_) => Err(WasmError::InvalidType),
        }
    }

    /// Splits off a reader over the next `len` bytes and moves past them.
    pub fn sub(&mut self, len: usize) -> (r: Result<Reader<'a>, WasmError>)
        ensures
            final(self).data == old(self).data,
            match r {
                Ok(s) => (Ok(s.data@), final(self).pos as int),
                Err(e) => (Err(e), final(self).pos as int),
            } == bytes_at(old(self).data@, old(self).pos as int, len as int),
            r matches Ok(s) ==> s.pos == 0,
    {
        let data = self.read_bytes(len)?;
        Ok(Reader { data, pos: 0 })
    }
}

// ---- Laws ----

proof fn lemma_run_all(d: Seq<u8>, p: int, n: nat)
    requires
        0 <= p,
        p + n <= d.len(),
        forall|i: int| p <= i < p + n ==> #[trigger] d[i] >= 128,
    ensures
        run_len(d, p) >= n,
        p + n == d.len() ==> run_len(d, p) == n,
    decreases n,
{
    if n > 0 {
        let b = d[p];
        assert(b >= 128 ==> b & 0x80 != 0) by (bit_vector);
        lemma_run_all(d, p + 1, (n - 1) as nat);
    }
}

/// A number whose bytes all announce another one, up to the end of the data,
/// has been cut off.
pub proof fn law_number_cut_off(d: Seq<u8>, p: int)
    requires
        0 <= p <= d.len(),
        forall|i: int| p <= i < d.len() ==> #[trigger] d[i] >= 128,
    ensures
        d.len() - p < 6 ==> u32_at(d, p) == (Err::<u32, WasmError>(WasmError::UnexpectedEof), d.len() as int),
        d.len() - p < 11 ==> u64_at(d, p) == (Err::<u64, WasmError>(WasmError::UnexpectedEof), d.len() as int),
        i32_at(d, p) == (Err::<i32, WasmError>(WasmError::UnexpectedEof), d.len() as int),
        i64_at(d, p) == (Err::<i64, WasmError>(WasmError::UnexpectedEof), d.len() as int),
{
    lemma_run_all(d, p, (d.len() - p) as nat);
}

/// An unsigned number that goes on for too many bytes is an error.
pub proof fn law_number_too_long(d: Seq<u8>, p: int)
    requires
        0 <= p,
    ensures
        p + 6 <= d.len() && (forall|i: int| p <= i < p + 6 ==> #[trigger] d[i] >= 128) ==> u32_at(d, p)
            == (Err::<u32, WasmError>(WasmError::InvalidType), p + 6),
        p + 11 <= d.len() && (forall|i: int| p <= i < p + 11 ==> #[trigger] d[i] >= 128) ==> u64_at(
            d,
            p,
        ) == (Err::<u64, WasmError>(WasmError::InvalidType), p + 11),
{
    if p + 6 <= d.len() && (forall|i: int| p <= i < p + 6 ==> #[trigger] d[i] >= 128) {
        lemma_run_all(d, p, 6);
    }
    if p + 11 <= d.len() && (forall|i: int| p <= i < p + 11 ==> #[trigger] d[i] >= 128) {
        lemma_run_all(d, p, 11);
    }
}

/// Reading bytes gives the bytes that stand there, as many as asked for, and
/// fails where there are too few; a position behind the end has no byte.
pub proof fn law_bytes(d: Seq<u8>, p: int, n: int, i: int)
    requires
        0 <= p,
        0 <= i < n,
    ensures
        p + n <= d.len() ==> (bytes_at(d, p, n).0 matches Ok(b) && b.len() == n && b[i] == d[p + i])
            && bytes_at(d, p, n).1 == p + n,
        p + n > d.len() ==> bytes_at(d, p, n) == (
            Err::<Seq<u8>, WasmError>(WasmError::UnexpectedEof),
            p,
        ),
        p < d.len() ==> byte_at(d, p) == (Ok::<u8, WasmError>(d[p]), p + 1),
        p >= d.len() ==> byte_at(d, p) == (Err::<u8, WasmError>(WasmError::UnexpectedEof), p),
{
}

} // verus!
