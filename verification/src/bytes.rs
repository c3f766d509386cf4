//! Little-endian numbers in byte sequences.
use vstd::arithmetic::power;
use vstd::prelude::*;

verus! {

/// The number that a byte sequence spells, least significant byte first.
pub open spec fn le(s: Seq<u8>) -> nat
    decreases s.len(),
{
    if s.len() == 0 {
        0
    } else {
        s[0] as nat + 256 * le(s.drop_first())
    }
}

/// The `n` lowest bytes of `v`, least significant first.
pub open spec fn le_bytes(v: nat, n: nat) -> Seq<u8>
    decreases n,
{
    if n == 0 {
        seq![]
    } else {
        seq![(v % 256) as u8] + le_bytes(v / 256, (n - 1) as nat)
    }
}

/// `s` with the bytes from `at` on replaced by `t`.
pub open spec fn overwrite(s: Seq<u8>, at: int, t: Seq<u8>) -> Seq<u8> {
    Seq::new(
        s.len(),
        |i: int|
            if at <= i < at + t.len() {
                t[i - at]
            } else {
                s[i]
            },
    )
}

/// `n` bytes spell a number below `256^n`.
pub proof fn lemma_le_bound(s: Seq<u8>)
    ensures
        le(s) < power::pow(256, s.len()),
    decreases s.len(),
{
    reveal(power::pow);
    if s.len() > 0 {
        lemma_le_bound(s.drop_first());
        assert(power::pow(256, s.len()) == 256 * power::pow(256, (s.len() - 1) as nat));
    }
}

/// The powers of 256 that bound the fixed-width numbers.
pub proof fn lemma_pow256()
    ensures
        power::pow(256, 1) == 0x100,
        power::pow(256, 2) == 0x1_0000,
        power::pow(256, 4) == 0x1_0000_0000,
        power::pow(256, 8) == 0x1_0000_0000_0000_0000,
{
    reveal(power::pow);
    reveal_with_fuel(power::pow, 9);
}

/// A number written as `n` bytes has `n` bytes.
pub proof fn lemma_le_bytes_len(v: nat, n: nat)
    ensures
        le_bytes(v, n).len() == n,
    decreases n,
{
    if n > 0 {
        lemma_le_bytes_len(v / 256, (n - 1) as nat);
    }
}

/// Writing a number as `n` bytes and reading them back gives the number
/// modulo `256^n`.
pub proof fn law_le_round_trip(v: nat, n: nat)
    ensures
        le_bytes(v, n).len() == n,
        le(le_bytes(v, n)) == v % (power::pow(256, n) as nat),
        power::pow(256, n) > 0,
    decreases n,
{
    reveal(power::pow);
    power::lemma_pow_positive(256, n);
    if n == 0 {
        assert(v % 1 == 0);
    } else {
        let m = (n - 1) as nat;
        law_le_round_trip(v / 256, m);
        let rest = le_bytes(v / 256, m);
        let s = le_bytes(v, n);
        assert(s.drop_first() =~= rest);
        assert(s[0] as nat == v % 256);
        let p = power::pow(256, m);
        assert(power::pow(256, n) == 256 * p);
        vstd::arithmetic::div_mod::lemma_mod_breakdown(v as int, 256, p);
        assert(v % (256 * p) as nat == (256 * ((v / 256) as int % p) + v as int % 256) as nat);
    }
}

/// Reading a byte sequence as a number and writing it back gives the same
/// bytes.
pub proof fn law_le_bytes_round_trip(s: Seq<u8>)
    ensures
        le_bytes(le(s), s.len()) == s,
    decreases s.len(),
{
    if s.len() > 0 {
        law_le_bytes_round_trip(s.drop_first());
        let rest = le(s.drop_first());
        assert(le(s) == s[0] as nat + 256 * rest);
        assert(le(s) % 256 == s[0] as nat);
        assert(le(s) / 256 == rest);
        assert(le_bytes(le(s), s.len()) =~= s);
    } else {
        assert(le_bytes(le(s), 0) =~= s);
    }
}

/// The number that the `n` bytes from `at` on spell.
pub fn get_le(data: &[u8], at: usize, n: usize) -> (r: u64)
    requires
        n <= 8,
        at + n <= data.len(),
    ensures
        r == le(data@.subrange(at as int, at + n)),
        r < power::pow(256, n as nat),
{
    let mut r: u64 = 0;
    let mut i: usize = n;
    proof {
        assert(data@.subrange(at + n, at + n) =~= Seq::<u8>::empty());
    }
    while i > 0
        invariant
            i <= n <= 8,
            at + n <= data.len(),
            r == le(data@.subrange(at + i, at + n)),
        decreases i,
    {
        let ghost rest = data@.subrange(at + i, at + n);
        i = i - 1;
        let ghost s = data@.subrange(at + i, at + n);
        proof {
            assert(s.drop_first() =~= rest);
            assert(s[0] == data@[at + i]);
            lemma_le_bound(rest);
            lemma_pow256();
            power::lemma_pow_increases(256, rest.len(), 7);
            reveal(power::pow);
            assert(power::pow(256, 8) == 256 * power::pow(256, 7));
        }
        r = data[at + i] as u64 + 256 * r;
    }
    proof {
        lemma_le_bound(data@.subrange(at as int, at + n));
    }
    r
}

/// Replaces the `n` bytes from `at` on by the `n` lowest bytes of `v`.
pub fn put_le(data: &mut Vec<u8>, at: usize, v: u64, n: usize)
    requires
        n <= 8,
        at + n <= old(data).len(),
    ensures
        final(data)@ == overwrite(old(data)@, at as int, le_bytes(v as nat, n as nat)),
{
    let mut x: u64 = v;
    let mut i: usize = 0;
    let ghost all = le_bytes(v as nat, n as nat);
    proof {
        lemma_le_bytes_len(v as nat, n as nat);
        assert(all.subrange(0, n as int) =~= all);
    }
    while i < n
        invariant
            i <= n,
            at + n <= data.len(),
            data.len() == old(data).len(),
            all.len() == n,
            all == le_bytes(v as nat, n as nat),
            all.subrange(i as int, n as int) == le_bytes(x as nat, (n - i) as nat),
            data@ == overwrite(old(data)@, at as int, all.subrange(0, i as int)),
        decreases n - i,
    {
        let ghost rest = le_bytes(x as nat, (n - i) as nat);
        data.set(at + i, (x % 256) as u8);
        proof {
            lemma_le_bytes_len((x / 256) as nat, (n - i - 1) as nat);
            assert(all[i as int] == all.subrange(i as int, n as int)[0]);
            assert(all[i as int] == rest[0]);
            assert(rest[0] == (x as nat % 256) as u8);
            assert(all.subrange(i + 1, n as int) =~= all.subrange(i as int, n as int).subrange(
                1,
                n - i,
            ));
            assert(rest.subrange(1, n - i) =~= le_bytes((x / 256) as nat, (n - i - 1) as nat));
            assert(data@ =~= overwrite(old(data)@, at as int, all.subrange(0, i + 1)));
        }
        x = x / 256;
        i = i + 1;
    }
    proof {
        assert(all.subrange(0, n as int) =~= all);
        assert(data@ =~= overwrite(old(data)@, at as int, all));
    }
}

} // verus!
