//! Little-endian integers as byte sequences, for every width up to eight.

use vstd::prelude::*;

verus! {

/// 256 to the power `n`.
pub open spec fn pow256(n: nat) -> nat
    decreases n,
{
    if n == 0 {
        1
    } else {
        256 * pow256((n - 1) as nat)
    }
}

/// The number that the bytes `s` spell, least significant byte first.
pub open spec fn le_value(s: Seq<u8>) -> nat
    decreases s.len(),
{
    if s.len() == 0 {
        0
    } else {
        s[0] as nat + 256 * le_value(s.subrange(1, s.len() as int))
    }
}

/// The `n` low bytes of `v`, least significant first.
pub open spec fn le_bytes(v: nat, n: nat) -> Seq<u8>
    decreases n,
{
    if n == 0 {
        Seq::<u8>::empty()
    } else {
        seq![(v % 256) as u8] + le_bytes(v / 256, (n - 1) as nat)
    }
}

/// The values of `pow256` for the widths that fit a `u64`.
pub proof fn lemma_pow256_values()
    ensures
        pow256(0) == 1,
        pow256(1) == 0x100,
        pow256(2) == 0x1_0000,
        pow256(3) == 0x100_0000,
        pow256(4) == 0x1_0000_0000,
        pow256(5) == 0x100_0000_0000,
        pow256(6) == 0x1_0000_0000_0000,
        pow256(7) == 0x100_0000_0000_0000,
        pow256(8) == 0x1_0000_0000_0000_0000,
{
    reveal_with_fuel(pow256, 10);
}

/// `le_bytes` yields exactly `n` bytes.
pub proof fn lemma_le_bytes_len(v: nat, n: nat)
    ensures
        le_bytes(v, n).len() == n,
    decreases n,
{
    if n > 0 {
        lemma_le_bytes_len(v / 256, (n - 1) as nat);
    }
}

/// A byte string spells a number below 256 to the power of its length.
pub proof fn lemma_le_value_bound(s: Seq<u8>)
    ensures
        le_value(s) < pow256(s.len()),
    decreases s.len(),
{
    if s.len() > 0 {
        lemma_le_value_bound(s.subrange(1, s.len() as int));
    }
}

/// Reading back the bytes of a number that fits gives the number.
pub proof fn lemma_le_value_of_bytes(v: nat, n: nat)
    requires
        v < pow256(n),
    ensures
        le_value(le_bytes(v, n)) == v,
    decreases n,
{
    if n > 0 {
        let rest = le_bytes(v / 256, (n - 1) as nat);
        let s = le_bytes(v, n);
        lemma_le_value_of_bytes(v / 256, (n - 1) as nat);
        assert(s.subrange(1, s.len() as int) =~= rest);
    }
}

/// Writing the number that a byte string spells gives the byte string.
pub proof fn lemma_le_bytes_of_value(s: Seq<u8>)
    ensures
        le_bytes(le_value(s), s.len()) == s,
    decreases s.len(),
{
    if s.len() > 0 {
        let tail = s.subrange(1, s.len() as int);
        lemma_le_bytes_of_value(tail);
        let v = le_value(s);
        assert(v % 256 == s[0] as nat);
        assert(v / 256 == le_value(tail));
        assert(le_bytes(v, s.len()) =~= s);
    } else {
        assert(le_bytes(le_value(s), s.len()) =~= s);
    }
}

/// Reads `n` bytes of `buf` from `off` as a little-endian number.
pub fn read_le(buf: &[u8], off: usize, n: usize) -> (v: u64)
    requires
        n <= 8,
        off + n <= buf.len(),
    ensures
        v as nat == le_value(buf@.subrange(off as int, off + n)),
        (v as nat) < pow256(n as nat),
{
    let mut v: u64 = 0;
    let mut i: usize = n;
    proof {
        lemma_pow256_values();
        assert(buf@.subrange(off + n, off + n).len() == 0);
    }
    while i > 0
        invariant
            i <= n <= 8,
            off + n <= buf.len(),
            v as nat == le_value(buf@.subrange(off + i, off + n)),
            (v as nat) < pow256((n - i) as nat),
        decreases i,
    {
        i = i - 1;
        let b: u8 = buf[off + i];
        proof {
            lemma_pow256_values();
            let cur = buf@.subrange(off + i, off + n);
            assert(cur.subrange(1, cur.len() as int) =~= buf@.subrange(off + i + 1, off + n));
            assert(cur[0] == b);
            assert(pow256((n - i) as nat) == 256 * pow256((n - i - 1) as nat));
            assert(pow256((n - i) as nat) <= 0x1_0000_0000_0000_0000);
        }
        v = v * 256 + b as u64;
    }
    v
}

/// Appends the `n` low bytes of `v` to `out`, least significant first.
pub fn push_le(out: &mut Vec<u8>, v: u64, n: usize)
    requires
        n <= 8,
    ensures
        final(out)@ == old(out)@ + le_bytes(v as nat, n as nat),
{
    let mut rest: u64 = v;
    let mut i: usize = 0;
    let ghost before = out@;
    while i < n
        invariant
            i <= n <= 8,
            before + le_bytes(v as nat, n as nat) == out@ + le_bytes(rest as nat, (n - i) as nat),
        decreases n - i,
    {
        let b: u8 = (rest % 256) as u8;
        proof {
            assert(le_bytes(rest as nat, (n - i) as nat) =~= seq![b] + le_bytes(
                (rest / 256) as nat,
                (n - i - 1) as nat,
            ));
            assert(out@.push(b) + le_bytes((rest / 256) as nat, (n - i - 1) as nat) =~= out@
                + le_bytes(rest as nat, (n - i) as nat));
        }
        out.push(b);
        rest = rest / 256;
        i = i + 1;
    }
    assert(out@ + le_bytes(rest as nat, 0) =~= out@);
}

} // verus!

verus! {

/// A copy of the bytes of `buf` from `from` up to `to`.
pub fn copy_range(buf: &[u8], from: usize, to: usize) -> (v: Vec<u8>)
    requires
        from <= to <= buf.len(),
    ensures
        v@ == buf@.subrange(from as int, to as int),
{
    let mut v: Vec<u8> = Vec::new();
    let mut i: usize = from;
    while i < to
        invariant
            from <= i <= to <= buf.len(),
            v@ == buf@.subrange(from as int, i as int),
        decreases to - i,
    {
        v.push(buf[i]);
        i = i + 1;
        assert(v@ =~= buf@.subrange(from as int, i as int));
    }
    v
}

} // verus!

verus! {

/// Copies `src` to the front of `dst` and leaves the rest of `dst` as it
/// is.
pub fn copy_into(dst: &mut [u8], src: &[u8])
    requires
        src.len() <= old(dst).len(),
    ensures
        final(dst)@ == src@ + old(dst)@.subrange(src.len() as int, old(dst).len() as int),
{
    let mut i: usize = 0;
    assert(dst@ =~= src@.subrange(0, 0) + old(dst)@.subrange(0, old(dst).len() as int));
    while i < src.len()
        invariant
            i <= src.len() <= dst.len(),
            dst.len() == old(dst).len(),
            dst@ == src@.subrange(0, i as int) + old(dst)@.subrange(i as int, old(dst).len() as int),
        decreases src.len() - i,
    {
        dst[i] = src[i];
        i = i + 1;
        assert(dst@ =~= src@.subrange(0, i as int) + old(dst)@.subrange(
            i as int,
            old(dst).len() as int,
        ));
    }
    assert(src@.subrange(0, src.len() as int) =~= src@);
}

/// Whether two byte strings are equal.
pub fn bytes_equal(a: &[u8], b: &[u8]) -> (r: bool)
    ensures
        r == (a@ == b@),
{
    if a.len() != b.len() {
        return false;
    }
    let mut i: usize = 0;
    while i < a.len()
        invariant
            i <= a.len(),
            a.len() == b.len(),
            a@.subrange(0, i as int) == b@.subrange(0, i as int),
        decreases a.len() - i,
    {
        if a[i] != b[i] {
            assert(a@[i as int] != b@[i as int]);
            return false;
        }
        i = i + 1;
        assert(a@.subrange(0, i as int) =~= a@.subrange(0, i - 1).push(a@[i - 1]));
        assert(b@.subrange(0, i as int) =~= b@.subrange(0, i - 1).push(b@[i - 1]));
    }
    assert(a@.subrange(0, a.len() as int) =~= a@);
    assert(b@.subrange(0, b.len() as int) =~= b@);
    true
}

} // verus!
