//! Big-endian unsigned integers as byte sequences.

use vstd::prelude::*;

verus! {

/// `256` raised to `n`: the number of values that `n` bytes can hold.
pub open spec fn radix(n: nat) -> nat
    decreases n,
{
    if n == 0 {
        1
    } else {
        256 * radix((n - 1) as nat)
    }
}

/// The `n` bytes that write `x` in big-endian order (the high bytes that do not
/// fit are cut off).
pub open spec fn be_bytes(x: nat, n: nat) -> Seq<u8>
    decreases n,
{
    if n == 0 {
        Seq::empty()
    } else {
        be_bytes(x / 256, (n - 1) as nat).push((x % 256) as u8)
    }
}

/// The number that a byte sequence writes in big-endian order.
pub open spec fn be_value(s: Seq<u8>) -> nat
    decreases s.len(),
{
    if s.len() == 0 {
        0
    } else {
        be_value(s.drop_last()) * 256 + s.last() as nat
    }
}

pub proof fn lemma_radix_positive(n: nat)
    ensures
        radix(n) >= 1,
    decreases n,
{
    if n > 0 {
        lemma_radix_positive((n - 1) as nat);
    }
}

pub proof fn lemma_radix_monotonic(m: nat, n: nat)
    requires
        m <= n,
    ensures
        radix(m) <= radix(n),
    decreases n,
{
    if m < n {
        lemma_radix_monotonic(m, (n - 1) as nat);
        lemma_radix_positive((n - 1) as nat);
    }
}

pub proof fn lemma_radix_values()
    ensures
        radix(2) == 0x1_0000,
        radix(4) == 0x1_0000_0000,
        radix(16) == 0x1_0000_0000_0000_0000_0000_0000_0000_0000,
{
    reveal_with_fuel(radix, 17);
}

pub proof fn lemma_be_bytes_len(x: nat, n: nat)
    ensures
        be_bytes(x, n).len() == n,
    decreases n,
{
    if n > 0 {
        lemma_be_bytes_len(x / 256, (n - 1) as nat);
    }
}

pub proof fn lemma_be_value_bound(s: Seq<u8>)
    ensures
        be_value(s) < radix(s.len()),
    decreases s.len(),
{
    if s.len() > 0 {
        let v = be_value(s.drop_last());
        let r = radix((s.len() - 1) as nat);
        let b = s.last() as nat;
        lemma_be_value_bound(s.drop_last());
        assert(v * 256 + b < 256 * r) by (nonlinear_arith)
            requires
                v < r,
                b < 256,
        ;
    }
}

/// Reading back the bytes of a number that fits gives the number.
pub proof fn lemma_be_value_of_bytes(x: nat, n: nat)
    requires
        x < radix(n),
    ensures
        be_value(be_bytes(x, n)) == x,
    decreases n,
{
    if n > 0 {
        let r = radix((n - 1) as nat);
        assert(x / 256 < r) by (nonlinear_arith)
            requires
                x < 256 * r,
        ;
        lemma_be_value_of_bytes(x / 256, (n - 1) as nat);
        let s = be_bytes(x, n);
        assert(s.drop_last() =~= be_bytes(x / 256, (n - 1) as nat));
        assert((x / 256) * 256 + x % 256 == x) by (nonlinear_arith);
    }
}

/// Writing back the number that some bytes read gives the bytes.
pub proof fn lemma_be_bytes_of_value(s: Seq<u8>)
    ensures
        be_bytes(be_value(s), s.len()) == s,
    decreases s.len(),
{
    if s.len() > 0 {
        let v = be_value(s.drop_last());
        let b = s.last() as nat;
        lemma_be_bytes_of_value(s.drop_last());
        assert((v * 256 + b) / 256 == v && (v * 256 + b) % 256 == b) by (nonlinear_arith)
            requires
                b < 256,
        ;
        assert(be_bytes(be_value(s), s.len()) =~= s.drop_last().push(s.last()));
        assert(s.drop_last().push(s.last()) =~= s);
    }
}

/// Numbers that fit are told apart by their bytes.
pub proof fn lemma_be_bytes_injective(x: nat, y: nat, n: nat)
    requires
        x < radix(n),
        y < radix(n),
        be_bytes(x, n) == be_bytes(y, n),
    ensures
        x == y,
{
    lemma_be_value_of_bytes(x, n);
    lemma_be_value_of_bytes(y, n);
}

/// Reads the `n` bytes of `s` from `start` as a big-endian number.
pub fn read_be(s: &[u8], start: usize, n: usize) -> (r: u128)
    requires
        n <= 16,
        start + n <= s@.len(),
    ensures
        r as nat == be_value(s@.subrange(start as int, start + n)),
{
    let len: usize = s.len();
    let mut v: u128 = 0;
    let mut i: usize = 0;
    while i < n
        invariant
            len == s@.len(),
            i <= n <= 16,
            start + n <= s@.len(),
            v as nat == be_value(s@.subrange(start as int, start + i)),
        decreases n - i,
    {
        let ghost prev = s@.subrange(start as int, start + i);
        let ghost next = s@.subrange(start as int, start + i + 1);
        proof {
            assert(next.drop_last() =~= prev);
            lemma_be_value_bound(prev);
            lemma_radix_monotonic(i as nat, 15);
            lemma_radix_values();
            assert(radix(16) == 256 * radix(15));
            let b = s@[start + i] as nat;
            assert(v * 256 + b < radix(16)) by (nonlinear_arith)
                requires
                    v < radix(i as nat),
                    radix(i as nat) <= radix(15),
                    radix(16) == 256 * radix(15),
                    b < 256,
            ;
        }
        v = v * 256 + s[start + i] as u128;
        i = i + 1;
    }
    v
}

/// Appends the `n` big-endian bytes of `x`.
pub fn push_be(dst: &mut Vec<u8>, x: u128, n: usize)
    requires
        n <= 16,
    ensures
        final(dst)@ == old(dst)@ + be_bytes(x as nat, n as nat),
    decreases n,
{
    if n > 0 {
        push_be(dst, x / 256, n - 1);
        dst.push((x % 256) as u8);
        proof {
            assert(final(dst)@ =~= old(dst)@ + be_bytes(x as nat, n as nat));
        }
    }
}

} // verus!
