//! Big-endian byte strings and the numbers they denote.

use vstd::prelude::*;

verus! {

/// 256 to the power `k`.
pub open spec fn pow256(k: nat) -> nat
    decreases k,
{
    if k == 0 {
        1
    } else {
        256 * pow256((k - 1) as nat)
    }
}

/// The `k` low-order bytes of `x`, most significant first.
pub open spec fn be_bytes(x: nat, k: nat) -> Seq<u8>
    decreases k,
{
    if k == 0 {
        Seq::empty()
    } else {
        be_bytes(x / 256, (k - 1) as nat).push((x % 256) as u8)
    }
}

/// The number denoted by a big-endian byte string.
pub open spec fn be_value(s: Seq<u8>) -> nat
    decreases s.len(),
{
    if s.len() == 0 {
        0
    } else {
        be_value(s.drop_last()) * 256 + s.last() as nat
    }
}

pub proof fn lemma_pow256_positive(k: nat)
    ensures
        pow256(k) > 0,
    decreases k,
{
    if k > 0 {
        lemma_pow256_positive((k - 1) as nat);
    }
}

pub proof fn lemma_be_bytes_len(x: nat, k: nat)
    ensures
        be_bytes(x, k).len() == k,
    decreases k,
{
    if k > 0 {
        lemma_be_bytes_len(x / 256, (k - 1) as nat);
    }
}

/// Reading back `k` big-endian bytes of `x` gives `x` modulo `256^k`.
pub proof fn lemma_be_value_of_bytes(x: nat, k: nat)
    ensures
        be_value(be_bytes(x, k)) == x % pow256(k),
    decreases k,
{
    if k == 0 {
    } else {
        lemma_be_bytes_len(x / 256, (k - 1) as nat);
        lemma_be_value_of_bytes(x / 256, (k - 1) as nat);
        let s = be_bytes(x, k);
        assert(s.drop_last() =~= be_bytes(x / 256, (k - 1) as nat));
        lemma_pow256_positive((k - 1) as nat);
        vstd::arithmetic::div_mod::lemma_mod_breakdown(x as int, 256, pow256((k - 1) as nat) as int);
        assert(pow256(k) == 256 * pow256((k - 1) as nat));
        vstd::arithmetic::mul::lemma_mul_is_commutative(
            256,
            ((x / 256) % pow256((k - 1) as nat)) as int,
        );
    }
}

/// A big-endian string of `n` bytes denotes a number below `256^n`.
pub proof fn lemma_be_value_bound(s: Seq<u8>)
    ensures
        be_value(s) < pow256(s.len()),
    decreases s.len(),
{
    if s.len() > 0 {
        lemma_be_value_bound(s.drop_last());
        let p = pow256((s.len() - 1) as nat);
        assert(be_value(s.drop_last()) + 1 <= p);
        vstd::arithmetic::mul::lemma_mul_inequality(
            be_value(s.drop_last()) as int + 1,
            p as int,
            256,
        );
        vstd::arithmetic::mul::lemma_mul_is_commutative(p as int, 256);
    }
}

/// Writing the value of a byte string back with its own length restores it.
pub proof fn lemma_be_bytes_of_value(s: Seq<u8>)
    ensures
        be_bytes(be_value(s), s.len()) == s,
    decreases s.len(),
{
    if s.len() > 0 {
        let v = be_value(s);
        let rest = s.drop_last();
        lemma_be_bytes_of_value(rest);
        assert(v == be_value(rest) * 256 + s.last() as nat);
        vstd::arithmetic::div_mod::lemma_fundamental_div_mod_converse(
            v as int,
            256,
            be_value(rest) as int,
            s.last() as int,
        );
        assert(be_bytes(v, s.len()) =~= be_bytes(be_value(rest), rest.len()).push(s.last()));
        assert(s =~= rest.push(s.last()));
    }
}

/// A leading byte contributes its value scaled by the length of what follows.
pub proof fn lemma_be_value_prepend(b: u8, r: Seq<u8>)
    ensures
        be_value(seq![b] + r) == b as nat * pow256(r.len()) + be_value(r),
    decreases r.len(),
{
    if r.len() == 0 {
        assert(seq![b] + r =~= seq![b]);
        assert(seq![b].drop_last() =~= Seq::<u8>::empty());
        assert(be_value(Seq::<u8>::empty()) == 0);
        assert(be_value(seq![b]) == b as nat);
        assert(pow256(0) == 1);
    } else {
        let r2 = r.drop_last();
        lemma_be_value_prepend(b, r2);
        assert((seq![b] + r).drop_last() =~= seq![b] + r2);
        assert((seq![b] + r).last() == r.last());
        let p2 = pow256(r2.len());
        assert(pow256(r.len()) == 256 * p2);
        let x = be_value(seq![b] + r2);
        assert(x == b as nat * p2 + be_value(r2));
        assert(be_value(seq![b] + r) == x * 256 + r.last() as nat);
        assert(be_value(r) == be_value(r2) * 256 + r.last() as nat);
        assert((b as nat * p2 + be_value(r2)) * 256 == b as nat * (256 * p2) + be_value(r2) * 256)
            by (nonlinear_arith);
    }
}

pub proof fn lemma_pow256_values()
    ensures
        pow256(0) == 1,
        pow256(1) == 0x100,
        pow256(2) == 0x1_0000,
        pow256(3) == 0x100_0000,
        pow256(4) == 0x1_0000_0000,
        pow256(7) == 0x100_0000_0000_0000,
        pow256(8) == 0x1_0000_0000_0000_0000,
{
    reveal_with_fuel(pow256, 9);
}

/// Appends the `k` low-order bytes of `x`, most significant first.
pub fn push_be_bytes(out: &mut Vec<u8>, x: u64, k: usize)
    requires
        k <= 8,
    ensures
        final(out)@ == old(out)@ + be_bytes(x as nat, k as nat),
    decreases k,
{
    if k > 0 {
        push_be_bytes(out, x / 256, k - 1);
        out.push((x % 256) as u8);
        assert(be_bytes(x as nat, k as nat) == be_bytes((x / 256) as nat, (k - 1) as nat).push(
            (x % 256) as u8,
        ));
    } else {
        assert(old(out)@ + Seq::<u8>::empty() =~= old(out)@);
    }
}

} // verus!
