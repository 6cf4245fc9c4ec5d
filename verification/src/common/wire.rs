//! Big-endian integer encoding, the building block of every packet.
use vstd::prelude::*;

verus! {

/// `256^n`.
pub open spec fn pow256(n: nat) -> nat
    decreases n,
{
    if n == 0 {
        1
    } else {
        256 * pow256((n - 1) as nat)
    }
}

/// The `n` low-order bytes of `x`, most significant first.
pub open spec fn be_bytes(x: nat, n: nat) -> Seq<u8>
    decreases n,
{
    if n == 0 {
        Seq::empty()
    } else {
        be_bytes(x / 256, (n - 1) as nat).push((x % 256) as u8)
    }
}

/// The number whose big-endian bytes are `b`.
pub open spec fn be_value(b: Seq<u8>) -> nat
    decreases b.len(),
{
    if b.len() == 0 {
        0
    } else {
        be_value(b.drop_last()) * 256 + b.last() as nat
    }
}

pub proof fn lemma_pow256_positive(n: nat)
    ensures
        pow256(n) > 0,
    decreases n,
{
    if n > 0 {
        lemma_pow256_positive((n - 1) as nat);
    }
}

pub proof fn lemma_pow256_monotonic(a: nat, b: nat)
    requires
        a <= b,
    ensures
        pow256(a) <= pow256(b),
    decreases b,
{
    if a < b {
        lemma_pow256_monotonic(a, (b - 1) as nat);
        lemma_pow256_positive((b - 1) as nat);
    }
}

pub proof fn lemma_pow256_values()
    ensures
        pow256(1) == 0x100,
        pow256(2) == 0x1_0000,
        pow256(4) == 0x1_0000_0000,
        pow256(8) == 0x1_0000_0000_0000_0000,
        pow256(16) == 0x1_0000_0000_0000_0000_0000_0000_0000_0000,
{
    reveal_with_fuel(pow256, 17);
}

pub proof fn lemma_be_bytes_len(x: nat, n: nat)
    ensures
        be_bytes(x, n).len() == n,
    decreases n,
{
    if n > 0 {
        lemma_be_bytes_len(x / 256, (n - 1) as nat);
    }
}

/// Decoding the encoding of `x` in `n` bytes gives `x` back whenever it fits.
pub proof fn lemma_be_roundtrip(x: nat, n: nat)
    requires
        x < pow256(n),
    ensures
        be_value(be_bytes(x, n)) == x,
    decreases n,
{
    if n == 0 {
    } else {
        let q = x / 256;
        assert(q < pow256((n - 1) as nat)) by (nonlinear_arith)
            requires
                x < 256 * pow256((n - 1) as nat),
                q == x / 256,
        ;
        lemma_be_roundtrip(q, (n - 1) as nat);
        let s = be_bytes(q, (n - 1) as nat);
        assert(s.push((x % 256) as u8).drop_last() =~= s);
        assert(q * 256 + x % 256 == x) by (nonlinear_arith)
            requires
                q == x / 256,
        ;
    }
}

pub proof fn lemma_be_value_bound(b: Seq<u8>)
    ensures
        be_value(b) < pow256(b.len()),
    decreases b.len(),
{
    if b.len() > 0 {
        lemma_be_value_bound(b.drop_last());
        let v = be_value(b.drop_last());
        let p = pow256((b.len() - 1) as nat);
        let l = b.last();
        assert(v * 256 + l < 256 * p) by (nonlinear_arith)
            requires
                v < p,
                l < 256,
        ;
    }
}

/// One byte stands for itself.
pub proof fn lemma_be_single_byte(x: nat)
    requires
        x < 256,
    ensures
        be_bytes(x, 1) == seq![x as u8],
        be_value(seq![x as u8]) == x,
{
    assert(be_bytes(x / 256, 0) =~= Seq::<u8>::empty());
    assert(be_bytes(x, 1) =~= seq![x as u8]);
    assert(seq![x as u8].drop_last() =~= Seq::<u8>::empty());
    reveal_with_fuel(be_value, 2);
}

/// The value of a one-byte sequence is that byte.
pub proof fn lemma_be_value_single(b: Seq<u8>)
    requires
        b.len() == 1,
    ensures
        be_value(b) == b[0],
{
    assert(b.drop_last() =~= Seq::<u8>::empty());
    reveal_with_fuel(be_value, 2);
}

/// Appends the `n` low-order bytes of `x` to `out`, most significant first.
pub fn write_be(out: &mut Vec<u8>, x: u128, n: usize)
    requires
        n <= 16,
    ensures
        final(out)@ == old(out)@ + be_bytes(x as nat, n as nat),
    decreases n,
{
    if n > 0 {
        write_be(out, x / 256, n - 1);
        let ghost mid = out@;
        out.push((x % 256) as u8);
        proof {
            let prefix = be_bytes((x / 256) as nat, (n - 1) as nat);
            assert(mid == old(out)@ + prefix);
            assert(out@ =~= old(out)@ + prefix.push((x % 256) as u8));
        }
    }
}

/// Reads the big-endian number held in `bytes`.
pub fn read_be(bytes: &[u8]) -> (r: u128)
    requires
        bytes@.len() <= 16,
    ensures
        r == be_value(bytes@),
{
    let mut acc: u128 = 0;
    let mut i: usize = 0;
    proof {
        assert(bytes@.take(0) =~= Seq::<u8>::empty());
    }
    while i < bytes.len()
        invariant
            i <= bytes@.len() <= 16,
            acc == be_value(bytes@.take(i as int)),
        decreases bytes@.len() - i,
    {
        proof {
            lemma_be_value_bound(bytes@.take(i as int));
            lemma_pow256_monotonic(i as nat, 15);
            lemma_pow256_values();
            reveal_with_fuel(pow256, 17);
            assert(bytes@.take(i + 1).drop_last() =~= bytes@.take(i as int));
            let p = pow256(i as nat);
            assert(acc * 256 + 255 <= u128::MAX) by (nonlinear_arith)
                requires
                    acc < p,
                    p <= pow256(15),
                    pow256(15) == 0x1_0000_0000_0000_0000_0000_0000_0000_00,
            ;
        }
        acc = acc * 256 + bytes[i] as u128;
        i = i + 1;
    }
    proof {
        assert(bytes@.take(i as int) =~= bytes@);
    }
    acc
}

} // verus!
