//! Unsigned integers as big-endian byte strings.
use vstd::prelude::*;

verus! {

/// The number that a byte string stands for, most significant byte first.
pub open spec fn be_value(s: Seq<u8>) -> nat
    decreases s.len(),
{
    if s.len() == 0 {
        0
    } else {
        be_value(s.drop_last()) * 256 + s.last() as nat
    }
}

/// The low `len` base-256 digits of `n`, most significant first.
pub open spec fn be_bytes(n: nat, len: nat) -> Seq<u8>
    decreases len,
{
    if len == 0 {
        Seq::empty()
    } else {
        be_bytes(n / 256, (len - 1) as nat).push((n % 256) as u8)
    }
}

/// The little-endian form: `be_bytes` read backwards.
pub open spec fn le_bytes(n: nat, len: nat) -> Seq<u8> {
    be_bytes(n, len).reverse()
}

/// 256 to the power `k`: one more than the greatest number of `k` bytes.
pub open spec fn pow256(k: nat) -> nat
    decreases k,
{
    if k == 0 {
        1
    } else {
        256 * pow256((k - 1) as nat)
    }
}

/// `a` comes before `b` when byte strings of one length are ordered as a dictionary orders words.
pub open spec fn lexicographically_less(a: Seq<u8>, b: Seq<u8>) -> bool {
    exists|i: int| #[trigger] first_difference_at(a, b, i) && a[i] < b[i]
}

/// `a` and `b` agree before position `i`, and both reach it.
pub open spec fn first_difference_at(a: Seq<u8>, b: Seq<u8>, i: int) -> bool {
    &&& 0 <= i < a.len()
    &&& i < b.len()
    &&& a.take(i) == b.take(i)
}

/// What the value of a byte string is: zero for none, and one more byte at the end makes those
/// before it worth 256 times as much.
pub proof fn lemma_be_value_of_more(s: Seq<u8>, b: u8)
    ensures
        be_value(Seq::empty()) == 0,
        be_value(s.push(b)) == 256 * be_value(s) + b,
{
    assert(s.push(b).drop_last() =~= s);
}

/// A string of `k` bytes stands for a number below `pow256(k)`.
pub proof fn lemma_be_value_bound(s: Seq<u8>)
    ensures
        be_value(s) < pow256(s.len()),
    decreases s.len(),
{
    if s.len() > 0 {
        lemma_be_value_bound(s.drop_last());
    }
}

/// There are as many digits as were asked for.
pub proof fn lemma_be_bytes_len(n: nat, len: nat)
    ensures
        be_bytes(n, len).len() == len,
    decreases len,
{
    if len > 0 {
        lemma_be_bytes_len(n / 256, (len - 1) as nat);
    }
}

/// Reading what was written: a number that fits in `len` bytes is the value of its bytes.
pub proof fn lemma_value_of_bytes(n: nat, len: nat)
    requires
        n < pow256(len),
    ensures
        be_value(be_bytes(n, len)) == n,
    decreases len,
{
    if len > 0 {
        lemma_value_of_bytes(n / 256, (len - 1) as nat);
        let s = be_bytes(n, len);
        assert(s.drop_last() =~= be_bytes(n / 256, (len - 1) as nat));
    }
}

/// Writing what was read: a byte string is the bytes of its value.
pub proof fn lemma_bytes_of_value(s: Seq<u8>)
    ensures
        be_bytes(be_value(s), s.len()) == s,
    decreases s.len(),
{
    if s.len() > 0 {
        lemma_bytes_of_value(s.drop_last());
        let v = be_value(s);
        assert(v / 256 == be_value(s.drop_last()));
        assert(v % 256 == s.last() as nat);
        assert(s =~= s.drop_last().push(s.last()));
    } else {
        assert(s =~= Seq::<u8>::empty());
    }
}

/// Byte strings of one length are equal exactly where their values are.
pub proof fn lemma_be_value_injective(a: Seq<u8>, b: Seq<u8>)
    requires
        a.len() == b.len(),
    ensures
        be_value(a) == be_value(b) <==> a == b,
{
    lemma_bytes_of_value(a);
    lemma_bytes_of_value(b);
}

/// On byte strings of one length, numeric order is dictionary order.
pub proof fn lemma_be_value_order(a: Seq<u8>, b: Seq<u8>)
    requires
        a.len() == b.len(),
    ensures
        be_value(a) < be_value(b) <==> lexicographically_less(a, b),
    decreases a.len(),
{
    if a.len() > 0 {
        let pa = a.drop_last();
        let pb = b.drop_last();
        let last = a.len() - 1;
        lemma_be_value_order(pa, pb);
        lemma_be_value_injective(pa, pb);
        if be_value(a) < be_value(b) {
            if pa == pb {
                assert(a.take(last) =~= pa && b.take(last) =~= pb);
                assert(first_difference_at(a, b, last));
            } else {
                let i = choose|i: int| #[trigger] first_difference_at(pa, pb, i) && pa[i] < pb[i];
                assert(a.take(i) =~= pa.take(i) && b.take(i) =~= pb.take(i));
                assert(first_difference_at(a, b, i));
            }
        }
        if lexicographically_less(a, b) {
            let i = choose|i: int| #[trigger] first_difference_at(a, b, i) && a[i] < b[i];
            if i == last {
                assert(a.take(last) =~= pa && b.take(last) =~= pb);
            } else {
                assert(a.take(i) =~= pa.take(i) && b.take(i) =~= pb.take(i));
                assert(first_difference_at(pa, pb, i));
            }
        }
    }
}

/// Taking a string apart: the value of a concatenation.
pub proof fn lemma_be_value_concat(a: Seq<u8>, b: Seq<u8>)
    ensures
        be_value(a + b) == be_value(a) * pow256(b.len()) + be_value(b),
    decreases b.len(),
{
    if b.len() == 0 {
        assert(a + b =~= a);
        assert(be_value(a) * 1 == be_value(a)) by (nonlinear_arith);
    } else {
        let pb = b.drop_last();
        lemma_be_value_concat(a, pb);
        assert((a + b).drop_last() =~= a + pb);
        assert(be_value(a) * (256 * pow256(pb.len())) == (be_value(a) * pow256(pb.len())) * 256)
            by (nonlinear_arith);
    }
}

/// The numbers of eight and of sixteen bytes are those of a `u64` and of a `u128`.
pub proof fn lemma_pow256_values()
    ensures
        pow256(8) == 0x1_0000_0000_0000_0000,
        pow256(16) == 0x1_0000_0000_0000_0000_0000_0000_0000_0000,
{
    reveal_with_fuel(pow256, 17);
}

/// The `len` low bytes of `x`, most significant first.
pub(crate) fn write_be(x: u128, len: usize) -> (r: Vec<u8>)
    ensures
        r@ == be_bytes(x as nat, len as nat),
{
    let mut reversed: Vec<u8> = Vec::new();
    let mut rest: u128 = x;
    let mut k: usize = 0;
    while k < len
        invariant
            k <= len,
            reversed@.len() == k,
            be_bytes(x as nat, len as nat) =~= be_bytes(rest as nat, (len - k) as nat)
                + reversed@.reverse(),
        decreases len - k,
    {
        let digit: u8 = (rest % 256) as u8;
        let ghost before = reversed@;
        reversed.push(digit);
        proof {
            assert(be_bytes(rest as nat, (len - k) as nat) + before.reverse() =~= be_bytes(
                (rest / 256) as nat,
                (len - k - 1) as nat,
            ) + reversed@.reverse());
        }
        rest = rest / 256;
        k = k + 1;
    }
    let mut r: Vec<u8> = Vec::new();
    let mut i: usize = 0;
    while i < len
        invariant
            i <= len,
            reversed@.len() == len,
            r@ =~= reversed@.reverse().take(i as int),
        decreases len - i,
    {
        r.push(reversed[len - 1 - i]);
        i = i + 1;
    }
    assert(be_bytes(rest as nat, 0) =~= Seq::<u8>::empty());
    r
}

/// The number that bytes `from .. to` of `s` stand for.
pub(crate) fn read_be(s: &[u8], from: usize, to: usize) -> (r: u128)
    requires
        from <= to <= s@.len(),
        to - from <= 16,
    ensures
        r == be_value(s@.subrange(from as int, to as int)),
{
    let mut r: u128 = 0;
    let mut i: usize = from;
    proof {
        assert(s@.subrange(from as int, from as int) =~= Seq::<u8>::empty());
    }
    while i < to
        invariant
            from <= i <= to <= s@.len(),
            to - from <= 16,
            r == be_value(s@.subrange(from as int, i as int)),
        decreases to - i,
    {
        proof {
            let next = s@.subrange(from as int, i + 1);
            assert(next.drop_last() =~= s@.subrange(from as int, i as int));
            lemma_be_value_bound(next);
            lemma_pow256_monotone(next.len(), 16);
            lemma_pow256_values();
        }
        r = r * 256 + s[i] as u128;
        i = i + 1;
    }
    r
}

proof fn lemma_pow256_monotone(a: nat, b: nat)
    requires
        a <= b,
    ensures
        pow256(a) <= pow256(b),
    decreases b,
{
    if a < b {
        lemma_pow256_monotone(a, (b - 1) as nat);
    }
}

} // verus!
