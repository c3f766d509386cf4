//! Linear memory and function tables.
use vstd::arithmetic::power;
use vstd::prelude::*;

use crate::bytes;
use crate::types::{Limits, TrapCode, WasmError};

verus! {

/// The size of a page of memory, in bytes.
pub const PAGE_SIZE: usize = 65_536;

/// A linear memory.
pub struct Memory {
    pub data: Vec<u8>,
    /// The most pages that it may grow to.
    pub max: Option<u32>,
}

/// Mathematical model of a [`Memory`].
#[verifier::ext_equal]
pub struct MemoryModel {
    pub data: Seq<u8>,
    pub max: Option<u32>,
}

impl View for Memory {
    type V = MemoryModel;

    open spec fn view(&self) -> MemoryModel {
        MemoryModel { data: self.data@, max: self.max }
    }
}

/// `n` zero bytes.
pub open spec fn zeros(n: nat) -> Seq<u8> {
    Seq::new(n, |i: int| 0u8)
}

/// `s` cut to `n` bytes, or filled up to `n` bytes with zeros.
pub open spec fn resized(s: Seq<u8>, n: nat) -> Seq<u8> {
    Seq::new(
        n,
        |i: int|
            if i < s.len() {
                s[i]
            } else {
                0u8
            },
    )
}

/// A memory as it is created from its limits.
pub open spec fn fresh_memory(limits: Limits) -> MemoryModel {
    MemoryModel { data: zeros((limits.min * 65536) as nat), max: limits.max }
}

/// Whether `pages` pages can be addressed on this machine.
pub open spec fn addressable(pages: int) -> bool {
    pages * 65536 <= usize::MAX
}

/// The number of whole pages.
pub open spec fn pages_of(m: MemoryModel) -> u32 {
    (m.data.len() / 65536) as u32
}

/// The memory after asking for `delta` more pages, and the answer: the old
/// number of pages, or -1 with the memory unchanged when the new number does
/// not fit in 32 bits, is over the maximum, or cannot be addressed.
pub open spec fn grown(m: MemoryModel, delta: u32) -> (MemoryModel, i32) {
    let new = pages_of(m) + delta;
    if new > u32::MAX || (m.max matches Some(max) && new > max) || !addressable(new) {
        (m, (-1) as i32)
    } else {
        (
            MemoryModel { data: resized(m.data, (new * 65536) as nat), ..m },
            pages_of(m) as i32,
        )
    }
}

/// Why an access of `n` bytes at `addr` fails, if it does.
pub open spec fn access_error(m: MemoryModel, addr: u32, n: nat) -> Option<WasmError> {
    if addr + n > usize::MAX {
        Some(WasmError::MemoryOutOfBounds)
    } else if addr + n > m.data.len() {
        Some(WasmError::Trap(TrapCode::MemoryOutOfBounds))
    } else {
        None
    }
}

/// The little-endian number in the `n` bytes at `addr`.
pub open spec fn loaded(m: MemoryModel, addr: u32, n: nat) -> Result<nat, WasmError> {
    match access_error(m, addr, n) {
        Some(e) => Err(e),
        None => Ok(bytes::le(m.data.subrange(addr as int, addr + n))),
    }
}

/// The memory after writing the `n` lowest bytes of `v` at `addr`.
pub open spec fn stored(m: MemoryModel, addr: u32, v: nat, n: nat) -> Result<
    MemoryModel,
    WasmError,
> {
    match access_error(m, addr, n) {
        Some(e) => Err(e),
        None => Ok(
            MemoryModel {
                data: bytes::overwrite(m.data, addr as int, bytes::le_bytes(v, n)),
                ..m
            },
        ),
    }
}

impl Memory {
    /// A zeroed memory of the minimum size.
    pub fn new(limits: &Limits) -> (r: Self)
        requires
            addressable(limits.min as int),
        ensures
            r@ == fresh_memory(*limits),
    {
        let pages: usize = limits.min as usize;
        let r = Memory { data: vec![0u8; pages * PAGE_SIZE], max: limits.max };
        assert(r@ =~= fresh_memory(*limits));
        r
    }

    /// The size in pages.
    pub fn size_pages(&self) -> (r: u32)
        ensures
            r == pages_of(self@),
    {
        (self.data.len() / PAGE_SIZE) as u32
    }

    /// Grows by `delta` pages. Gives the old size in pages, or -1 if the
    /// memory cannot grow so far.
    pub fn grow(&mut self, delta: u32) -> (r: i32)
        ensures
            (final(self)@, r) == grown(old(self)@, delta),
    {
        let old_pages: u32 = self.size_pages();
        let new_pages: u32 = match old_pages.checked_add(delta) {
            Some(n) => n,
            None => return -1,
        };
        if let Some(max) = self.max {
            if new_pages > max {
                return -1;
            }
        }
        if new_pages as usize > usize::MAX / PAGE_SIZE {
            return -1;
        }
        let size: usize = new_pages as usize * PAGE_SIZE;
        self.data.resize(size, 0);
        assert(self.data@ =~= resized(old(self).data@, size as nat));
        old_pages as i32
    }

    /// Checks an access of `size` bytes at `addr`.
    fn check(&self, addr: u32, size: u32) -> (r: Result<(), WasmError>)
        ensures
            r == (match access_error(self@, addr, size as nat) {
                Some(e) => Err(e),
                None => Ok(()),
            }),
    {
        match (addr as usize).checked_add(size as usize) {
            None => Err(WasmError::MemoryOutOfBounds),
            Some(end) => if end > self.data.len() {
                Err(WasmError::Trap(TrapCode::MemoryOutOfBounds))
            } else {
                Ok(())
            },
        }
    }

    /// The byte at `addr`.
    pub fn load_u8(&self, addr: u32) -> (r: Result<u8, WasmError>)
        ensures
            loaded(self@, addr, 1) == (match r {
                Ok(v) => Ok(v as nat),
                Err(e) => Err(e),
            }),
    {
        self.check(addr, 1)?;
        proof {
            bytes::lemma_pow256();
        }
        Ok(bytes::get_le(self.data.as_slice(), addr as usize, 1) as u8)
    }

    /// The 16-bit number at `addr`.
    pub fn load_u16(&self, addr: u32) -> (r: Result<u16, WasmError>)
        ensures
            loaded(self@, addr, 2) == (match r {
                Ok(v) => Ok(v as nat),
                Err(e) => Err(e),
            }),
    {
        self.check(addr, 2)?;
        proof {
            bytes::lemma_pow256();
        }
        Ok(bytes::get_le(self.data.as_slice(), addr as usize, 2) as u16)
    }

    /// The 32-bit number at `addr`.
    pub fn load_u32(&self, addr: u32) -> (r: Result<u32, WasmError>)
        ensures
            loaded(self@, addr, 4) == (match r {
                Ok(v) => Ok(v as nat),
                Err(e) => Err(e),
            }),
    {
        self.check(addr, 4)?;
        proof {
            bytes::lemma_pow256();
        }
        Ok(bytes::get_le(self.data.as_slice(), addr as usize, 4) as u32)
    }

    /// The 64-bit number at `addr`.
    pub fn load_u64(&self, addr: u32) -> (r: Result<u64, WasmError>)
        ensures
            loaded(self@, addr, 8) == (match r {
                Ok(v) => Ok(v as nat),
                Err(e) => Err(e),
            }),
    {
        self.check(addr, 8)?;
        Ok(bytes::get_le(self.data.as_slice(), addr as usize, 8))
    }

    /// Writes a byte at `addr`.
    pub fn store_u8(&mut self, addr: u32, v: u8) -> (r: Result<(), WasmError>)
        ensures
            match stored(old(self)@, addr, v as nat, 1) {
                Ok(m) => r is Ok && final(self)@ == m,
                Err(e) => r == Err::<(), WasmError>(e) && *final(self) == *old(self),
            },
    {
        self.check(addr, 1)?;
        bytes::put_le(&mut self.data, addr as usize, v as u64, 1);
        Ok(())
    }

    /// Writes a 16-bit number at `addr`.
    pub fn store_u16(&mut self, addr: u32, v: u16) -> (r: Result<(), WasmError>)
        ensures
            match stored(old(self)@, addr, v as nat, 2) {
                Ok(m) => r is Ok && final(self)@ == m,
                Err(e) => r == Err::<(), WasmError>(e) && *final(self) == *old(self),
            },
    {
        self.check(addr, 2)?;
        bytes::put_le(&mut self.data, addr as usize, v as u64, 2);
        Ok(())
    }

    /// Writes a 32-bit number at `addr`.
    pub fn store_u32(&mut self, addr: u32, v: u32) -> (r: Result<(), WasmError>)
        ensures
            match stored(old(self)@, addr, v as nat, 4) {
                Ok(m) => r is Ok && final(self)@ == m,
                Err(e) => r == Err::<(), WasmError>(e) && *final(self) == *old(self),
            },
    {
        self.check(addr, 4)?;
        bytes::put_le(&mut self.data, addr as usize, v as u64, 4);
        Ok(())
    }

    /// Writes a 64-bit number at `addr`.
    pub fn store_u64(&mut self, addr: u32, v: u64) -> (r: Result<(), WasmError>)
        ensures
            match stored(old(self)@, addr, v as nat, 8) {
                Ok(m) => r is Ok && final(self)@ == m,
                Err(e) => r == Err::<(), WasmError>(e) && *final(self) == *old(self),
            },
    {
        self.check(addr, 8)?;
        bytes::put_le(&mut self.data, addr as usize, v, 8);
        Ok(())
    }
}

/// What was stored is loaded back, modulo the width of the access.
pub proof fn law_load_after_store(m: MemoryModel, addr: u32, v: nat, n: nat)
    requires
        stored(m, addr, v, n) is Ok,
    ensures
        loaded(stored(m, addr, v, n)->Ok_0, addr, n) == Ok::<nat, WasmError>(
            v % (power::pow(256, n) as nat),
        ),
{
    bytes::law_le_round_trip(v, n);
    let m2 = stored(m, addr, v, n)->Ok_0;
    assert(m2.data.subrange(addr as int, addr + n) =~= bytes::le_bytes(v, n));
}

/// A store changes no load of bytes that it does not touch.
pub proof fn law_store_elsewhere(
    m: MemoryModel,
    addr: u32,
    v: nat,
    n: nat,
    other: u32,
    k: nat,
)
    requires
        stored(m, addr, v, n) is Ok,
        other + k <= addr || addr + n <= other,
    ensures
        loaded(stored(m, addr, v, n)->Ok_0, other, k) == loaded(m, other, k),
{
    bytes::lemma_le_bytes_len(v, n);
    let m2 = stored(m, addr, v, n)->Ok_0;
    if access_error(m, other, k) is None {
        assert(m2.data.subrange(other as int, other + k) =~= m.data.subrange(
            other as int,
            other + k,
        ));
    }
}

/// Growing either changes nothing and answers -1, or adds exactly the pages
/// asked for, all zero, keeps every byte, and answers with the old size.
pub proof fn law_grow(m: MemoryModel, delta: u32)
    requires
        m.data.len() % 65536 == 0,
        m.data.len() / 65536 <= u32::MAX,
    ensures
        grown(m, delta) == (m, (-1) as i32) || ({
            let (m2, r) = grown(m, delta);
            &&& r == pages_of(m) as i32
            &&& m2.max == m.max
            &&& m2.data == m.data + zeros((delta * 65536) as nat)
        }),
{
    let (m2, r) = grown(m, delta);
    if m2 != m {
        assert(m2.data =~= m.data + zeros((delta * 65536) as nat));
    } else if r != -1 {
        assert(m.data.len() == (pages_of(m) + delta) * 65536);
        assert(m2.data =~= m.data + zeros((delta * 65536) as nat));
    }
}

/// A table of function references.
pub struct Table {
    pub elems: Vec<Option<u32>>,
}

impl View for Table {
    type V = Seq<Option<u32>>;

    open spec fn view(&self) -> Seq<Option<u32>> {
        self.elems@
    }
}

/// A table as it is created from its limits: no slot is set.
pub open spec fn fresh_table(limits: Limits) -> Seq<Option<u32>> {
    Seq::new(limits.min as nat, |i: int| None)
}

impl Table {
    /// A table of the minimum size with no slot set.
    pub fn new(limits: &Limits) -> (r: Self)
        ensures
            r@ == fresh_table(*limits),
    {
        let r = Table { elems: vec![None; limits.min as usize] };
        assert(r@ =~= fresh_table(*limits));
        r
    }
}

} // verus!
