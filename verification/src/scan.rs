//! Scanning code for the ends of blocks without executing it.
use vstd::prelude::*;

use crate::reader;
use crate::types::WasmError;

verus! {

/// Where the LEB128 number at `p` ends; the end of the code if it is cut off.
pub open spec fn after_leb(code: Seq<u8>, p: int) -> int {
    let n = reader::run_len(code, p);
    if p + n < code.len() {
        p + n + 1
    } else {
        p + n
    }
}

/// Where `k` LEB128 numbers in a row end.
pub open spec fn after_lebs(code: Seq<u8>, p: int, k: nat) -> int
    decreases k,
{
    if k == 0 {
        p
    } else {
        after_lebs(code, after_leb(code, p), (k - 1) as nat)
    }
}

/// `n` bytes on from `p`, but no further than the end of the code.
pub open spec fn after_bytes(code: Seq<u8>, p: int, n: int) -> int {
    if p + n <= code.len() {
        p + n
    } else {
        code.len() as int
    }
}

/// Where the block type at `p` ends.
pub open spec fn after_blocktype(code: Seq<u8>, p: int) -> int {
    if p < code.len() && (code[p] == 0x40 || 0x7C <= code[p] <= 0x7F) {
        p + 1
    } else {
        after_leb(code, p)
    }
}

/// Where the immediate operands, at `p`, of opcode `op` end.
pub open spec fn after_imm(op: u8, code: Seq<u8>, p: int) -> int {
    if op == 0x0C || op == 0x0D || op == 0x10 || 0x20 <= op <= 0x24 || op == 0x41 || op == 0x42 {
        after_leb(code, p)
    } else if op == 0x0E {
        let q = after_leb(code, p);
        after_lebs(code, q, (reader::bits32(code.subrange(p, q)) + 1) as nat)
    } else if op == 0x11 || 0x28 <= op <= 0x3E {
        after_lebs(code, p, 2)
    } else if op == 0x3F || op == 0x40 {
        after_bytes(code, p, 1)
    } else if op == 0x43 {
        after_bytes(code, p, 4)
    } else if op == 0x44 {
        after_bytes(code, p, 8)
    } else {
        p
    }
}

/// Skipping a number moves on within the code.
pub proof fn lemma_after_leb(code: Seq<u8>, p: int)
    requires
        0 <= p <= code.len(),
    ensures
        p <= after_leb(code, p) <= code.len(),
        p < code.len() ==> p < after_leb(code, p),
{
    reader::lemma_run_len(code, p);
}

/// Skipping numbers stays within the code.
pub proof fn lemma_after_lebs(code: Seq<u8>, p: int, k: nat)
    requires
        0 <= p <= code.len(),
    ensures
        p <= after_lebs(code, p, k) <= code.len(),
        p == code.len() ==> after_lebs(code, p, k) == p,
    decreases k,
{
    if k > 0 {
        lemma_after_leb(code, p);
        lemma_after_lebs(code, after_leb(code, p), (k - 1) as nat);
    }
}

/// Skipping a block type stays within the code.
pub proof fn lemma_after_blocktype(code: Seq<u8>, p: int)
    requires
        0 <= p <= code.len(),
    ensures
        p <= after_blocktype(code, p) <= code.len(),
{
    lemma_after_leb(code, p);
}

/// Skipping operands stays within the code.
pub proof fn lemma_after_imm(op: u8, code: Seq<u8>, p: int)
    requires
        0 <= p <= code.len(),
    ensures
        p <= after_imm(op, code, p) <= code.len(),
{
    lemma_after_leb(code, p);
    let q = after_leb(code, p);
    lemma_after_lebs(code, q, (reader::bits32(code.subrange(p, q)) + 1) as nat);
    lemma_after_lebs(code, p, 2);
}

/// The position just after the `end` that closes the outermost of `depth`
/// blocks that are open at `pc`.
pub open spec fn block_end(code: Seq<u8>, pc: int, depth: nat) -> Option<int>
    decreases code.len() - pc,
{
    if !(0 <= pc < code.len()) {
        None
    } else if 0x02 <= code[pc] <= 0x04 {
        proof {
            lemma_after_blocktype(code, pc + 1);
        }
        block_end(code, after_blocktype(code, pc + 1), depth + 1)
    } else if code[pc] == 0x0B {
        if depth <= 1 {
            Some(pc + 1)
        } else {
            block_end(code, pc + 1, (depth - 1) as nat)
        }
    } else {
        proof {
            lemma_after_imm(code[pc], code, pc + 1);
        }
        block_end(code, after_imm(code[pc], code, pc + 1), depth)
    }
}

/// As [`block_end`], together with the position just after the last `else`
/// that belongs to the outermost block.
pub open spec fn else_and_end(
    code: Seq<u8>,
    pc: int,
    depth: nat,
    seen: Option<int>,
) -> Option<(Option<int>, int)>
    decreases code.len() - pc,
{
    if !(0 <= pc < code.len()) {
        None
    } else if 0x02 <= code[pc] <= 0x04 {
        proof {
            lemma_after_blocktype(code, pc + 1);
        }
        else_and_end(code, after_blocktype(code, pc + 1), depth + 1, seen)
    } else if code[pc] == 0x05 && depth == 1 {
        else_and_end(code, pc + 1, depth, Some(pc + 1))
    } else if code[pc] == 0x0B {
        if depth <= 1 {
            Some((seen, pc + 1))
        } else {
            else_and_end(code, pc + 1, (depth - 1) as nat, seen)
        }
    } else {
        proof {
            lemma_after_imm(code[pc], code, pc + 1);
        }
        else_and_end(code, after_imm(code[pc], code, pc + 1), depth, seen)
    }
}

fn skip_leb(code: &[u8], pc: usize) -> (r: usize)
    requires
        pc <= code.len(),
    ensures
        r == after_leb(code@, pc as int),
        pc <= r <= code.len(),
        pc < code.len() ==> pc < r,
{
    proof {
        lemma_after_leb(code@, pc as int);
    }
    let mut p: usize = pc;
    while p < code.len()
        invariant
            pc <= p <= code.len(),
            after_leb(code@, pc as int) == after_leb(code@, p as int),
        decreases code.len() - p,
    {
        if code[p] & 0x80 == 0 {
            return p + 1;
        }
        p = p + 1;
    }
    p
}

fn skip_lebs(code: &[u8], pc: usize, k: u64) -> (r: usize)
    requires
        pc <= code.len(),
    ensures
        r == after_lebs(code@, pc as int, k as nat),
        pc <= r <= code.len(),
{
    let mut p: usize = pc;
    let mut left: u64 = k;
    while left > 0 && p < code.len()
        invariant
            pc <= p <= code.len(),
            after_lebs(code@, pc as int, k as nat) == after_lebs(code@, p as int, left as nat),
        decreases left,
    {
        p = skip_leb(code, p);
        left = left - 1;
    }
    proof {
        lemma_after_lebs(code@, p as int, left as nat);
    }
    p
}

/// The count at the head of a branch table, and where it ends.
fn read_count(code: &[u8], pc: usize) -> (r: (u32, usize))
    requires
        pc <= code.len(),
    ensures
        r.1 == after_leb(code@, pc as int),
        r.0 == reader::bits32(code@.subrange(pc as int, r.1 as int)),
        pc <= r.1 <= code.len(),
{
    let mut p: usize = pc;
    let mut c: u32 = 0;
    proof {
        assert(code@.subrange(pc as int, pc as int) =~= Seq::<u8>::empty());
        lemma_after_leb(code@, pc as int);
    }
    while p < code.len()
        invariant
            pc <= p <= code.len(),
            after_leb(code@, pc as int) == after_leb(code@, p as int),
            c == reader::bits32(code@.subrange(pc as int, p as int)),
        decreases code.len() - p,
    {
        let x: u8 = code[p];
        let n: usize = p - pc;
        let sh: u32 = (7 * (n % 32) as u32) % 32;
        proof {
            vstd::arithmetic::div_mod::lemma_mul_mod_noop_right(7, n as int, 32);
            let s = code@.subrange(pc as int, p + 1);
            assert(s.drop_last() =~= code@.subrange(pc as int, p as int));
            assert(s.last() == x);
        }
        c = c | (((x & 0x7F) as u32) << sh);
        p = p + 1;
        if x & 0x80 == 0 {
            return (c, p);
        }
    }
    (c, p)
}

fn skip_blocktype(code: &[u8], pc: usize) -> (r: usize)
    requires
        pc <= code.len(),
    ensures
        r == after_blocktype(code@, pc as int),
        pc <= r <= code.len(),
{
    if pc < code.len() {
        let b: u8 = code[pc];
        if b == 0x40 || b == 0x7F || b == 0x7E || b == 0x7D || b == 0x7C {
            return pc + 1;
        }
    }
    skip_leb(code, pc)
}

fn skip_bytes(code: &[u8], pc: usize, n: usize) -> (r: usize)
    requires
        pc <= code.len(),
    ensures
        r == after_bytes(code@, pc as int, n as int),
        pc <= r <= code.len(),
{
    if n <= code.len() - pc {
        pc + n
    } else {
        code.len()
    }
}

/// Skips the immediate operands of opcode `op`.
fn skip_imm(op: u8, code: &[u8], pc: usize) -> (r: usize)
    requires
        pc <= code.len(),
    ensures
        r == after_imm(op, code@, pc as int),
        pc <= r <= code.len(),
{
    if op == 0x0C || op == 0x0D || op == 0x10 || (0x20 <= op && op <= 0x24) || op == 0x41 || op
        == 0x42 {
        skip_leb(code, pc)
    } else if op == 0x0E {
        let (count, p) = read_count(code, pc);
        skip_lebs(code, p, count as u64 + 1)
    } else if op == 0x11 || (0x28 <= op && op <= 0x3E) {
        skip_lebs(code, pc, 2)
    } else if op == 0x3F || op == 0x40 {
        skip_bytes(code, pc, 1)
    } else if op == 0x43 {
        skip_bytes(code, pc, 4)
    } else if op == 0x44 {
        skip_bytes(code, pc, 8)
    } else {
        pc
    }
}

/// Finds the position just after the `end` of the block whose body starts at
/// `start`.
pub fn find_end(code: &[u8], start: usize) -> (r: Result<usize, WasmError>)
    requires
        1 <= start,
    ensures
        match block_end(code@, start as int, 1) {
            Some(q) => r matches Ok(p) && p == q && start < p <= code.len(),
            None => r == Err::<usize, WasmError>(WasmError::UnexpectedEof),
        },
{
    let mut pc: usize = start;
    let mut depth: usize = 1;
    while pc < code.len()
        invariant
            1 <= start <= pc,
            1 <= depth <= pc,
            pc == start || pc <= code.len(),
            block_end(code@, start as int, 1) == block_end(code@, pc as int, depth as nat),
        decreases code.len() - pc,
    {
        let b: u8 = code[pc];
        if b == 0x02 || b == 0x03 || b == 0x04 {
            depth = depth + 1;
            pc = skip_blocktype(code, pc + 1);
        } else if b == 0x0B {
            pc = pc + 1;
            if depth == 1 {
                return Ok(pc);
            }
            depth = depth - 1;
        } else {
            pc = skip_imm(b, code, pc + 1);
        }
    }
    Err(WasmError::UnexpectedEof)
}

/// The positions as machine integers.
pub open spec fn positions(p: (Option<int>, int)) -> (Option<usize>, usize) {
    (
        match p.0 {
            Some(q) => Some(q as usize),
            None => None,
        },
        p.1 as usize,
    )
}

/// Finds the `else` and the `end` of the `if` whose body starts at `start`.
pub fn find_else_end(code: &[u8], start: usize) -> (r: Result<(Option<usize>, usize), WasmError>)
    requires
        1 <= start,
    ensures
        r == (match else_and_end(code@, start as int, 1, None) {
            Some(q) => Ok(positions(q)),
            None => Err(WasmError::UnexpectedEof),
        }),
{
    let mut pc: usize = start;
    let mut depth: usize = 1;
    let mut seen: Option<usize> = None;
    while pc < code.len()
        invariant
            1 <= start <= pc,
            1 <= depth <= pc,
            pc == start || pc <= code.len(),
            else_and_end(code@, start as int, 1, None) == else_and_end(
                code@,
                pc as int,
                depth as nat,
                match seen {
                    Some(p) => Some(p as int),
                    None => None,
                },
            ),
        decreases code.len() - pc,
    {
        let b: u8 = code[pc];
        if b == 0x02 || b == 0x03 || b == 0x04 {
            depth = depth + 1;
            pc = skip_blocktype(code, pc + 1);
        } else if b == 0x05 && depth == 1 {
            pc = pc + 1;
            seen = Some(pc);
        } else if b == 0x0B {
            pc = pc + 1;
            if depth == 1 {
                return Ok((seen, pc));
            }
            depth = depth - 1;
        } else {
            pc = skip_imm(b, code, pc + 1);
        }
    }
    Err(WasmError::UnexpectedEof)
}

/// The end that is found lies behind the start, just after an `end` opcode.
pub proof fn law_block_end(code: Seq<u8>, pc: int, depth: nat)
    requires
        block_end(code, pc, depth) is Some,
    ensures
        ({
            let q = block_end(code, pc, depth)->0;
            0 <= pc < q <= code.len() && code[q - 1] == 0x0B
        }),
    decreases code.len() - pc,
{
    if 0x02 <= code[pc] <= 0x04 {
        lemma_after_blocktype(code, pc + 1);
        law_block_end(code, after_blocktype(code, pc + 1), depth + 1);
    } else if code[pc] == 0x0B {
        if depth > 1 {
            law_block_end(code, pc + 1, (depth - 1) as nat);
        }
    } else {
        lemma_after_imm(code[pc], code, pc + 1);
        law_block_end(code, after_imm(code[pc], code, pc + 1), depth);
    }
}

/// The search for an `else` finds the same end; an `else` that is found lies
/// in between, just after an `else` opcode.
pub proof fn law_else_and_end(code: Seq<u8>, pc: int, depth: nat, seen: Option<int>)
    ensures
        match else_and_end(code, pc, depth, seen) {
            None => block_end(code, pc, depth) is None,
            Some((e, q)) => block_end(code, pc, depth) == Some(q) && (e == seen || (e matches Some(p)
                && 0 <= pc < p < q && code[p - 1] == 0x05)),
        },
    decreases code.len() - pc,
{
    if 0 <= pc < code.len() {
        if 0x02 <= code[pc] <= 0x04 {
            lemma_after_blocktype(code, pc + 1);
            law_else_and_end(code, after_blocktype(code, pc + 1), depth + 1, seen);
        } else if code[pc] == 0x05 && depth == 1 {
            law_else_and_end(code, pc + 1, depth, Some(pc + 1));
            if block_end(code, pc + 1, depth) is Some {
                law_block_end(code, pc + 1, depth);
            }
        } else if code[pc] == 0x0B {
            if depth > 1 {
                law_else_and_end(code, pc + 1, (depth - 1) as nat, seen);
            }
        } else {
            lemma_after_imm(code[pc], code, pc + 1);
            law_else_and_end(code, after_imm(code[pc], code, pc + 1), depth, seen);
        }
    }
}

} // verus!
