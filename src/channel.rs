use crate::frame::is_bits;
use crate::permutation::is_permutation;
use vstd::prelude::*;

verus! {

/// The least significant bit of a sample.
pub open spec fn lsb(x: i16) -> u8 {
    (x & 1i16) as u8
}

/// A sample with its least significant bit replaced by `bit`.
pub open spec fn with_lsb(x: i16, bit: u8) -> i16 {
    (x & !1i16) | (bit as i16)
}

/// A sample with its least significant bit cleared: what a rewrite keeps.
pub open spec fn upper_bits(x: i16) -> i16 {
    x & !1i16
}

proof fn lemma_with_lsb(x: i16, bit: u8)
    requires
        bit <= 1,
    ensures
        lsb(with_lsb(x, bit)) == bit,
        upper_bits(with_lsb(x, bit)) == upper_bits(x),
        -1 <= with_lsb(x, bit) - x <= 1,
{
    assert(((((x & !1i16) | (bit as i16)) & 1i16) as u8) == bit) by (bit_vector)
        requires
            bit <= 1,
    ;
    assert((((x & !1i16) | (bit as i16)) & !1i16) == (x & !1i16)) by (bit_vector)
        requires
            bit <= 1,
    ;
    assert(-1 <= ((x & !1i16) | (bit as i16)) - x <= 1) by (bit_vector)
        requires
            bit <= 1,
    ;
}

proof fn lemma_lsb_is_bit(x: i16)
    ensures
        lsb(x) <= 1,
{
    assert(((x & 1i16) as u8) <= 1) by (bit_vector);
}

/// The samples `s` after bit `k` of `bits` went into the sample at `p[k]`, for
/// each `k` in order.
pub open spec fn written(s: Seq<i16>, p: Seq<usize>, bits: Seq<u8>) -> Seq<i16>
    decreases bits.len(),
{
    if bits.len() == 0 {
        s
    } else {
        let k = bits.len() - 1;
        let prev = written(s, p, bits.take(k));
        prev.update(p[k] as int, with_lsb(prev[p[k] as int], bits[k]))
    }
}

/// The least significant bits of `s`, taken in the order that `p` lists.
pub open spec fn lsbs_along(s: Seq<i16>, p: Seq<usize>) -> Seq<u8> {
    Seq::new(p.len(), |k: int| lsb(s[p[k] as int]))
}

/// `p[k] == i` for some `k` before `count`: sample `i` carries one of the
/// first `count` bits.
pub open spec fn touched(p: Seq<usize>, count: int, i: int) -> bool {
    exists|k: int| 0 <= k < count && p[k] as int == i
}

/// What writing bits along a permutation does: each bit lands in the least
/// significant bit of its sample, every other bit of every sample is kept, and
/// the samples that no bit reaches are unchanged.
pub proof fn lemma_written(s: Seq<i16>, p: Seq<usize>, bits: Seq<u8>)
    requires
        is_permutation(p, s.len()),
        bits.len() <= s.len(),
        is_bits(bits),
    ensures
        written(s, p, bits).len() == s.len(),
        forall|k: int| 0 <= k < bits.len() ==> lsb(#[trigger] written(s, p, bits)[p[k] as int]) == bits[k],
        forall|i: int|
            0 <= i < s.len() ==> upper_bits(#[trigger] written(s, p, bits)[i]) == upper_bits(s[i]),
        forall|i: int|
            0 <= i < s.len() ==> -1 <= #[trigger] written(s, p, bits)[i] - s[i] <= 1,
        forall|i: int|
            0 <= i < s.len() && !touched(p, bits.len() as int, i) ==> #[trigger] written(s, p, bits)[i]
                == s[i],
    decreases bits.len(),
{
    if bits.len() > 0 {
        let k = bits.len() - 1;
        let prev_bits = bits.take(k);
        assert(is_bits(prev_bits));
        lemma_written(s, p, prev_bits);
        let prev = written(s, p, prev_bits);
        let w = written(s, p, bits);
        let t = p[k] as int;
        lemma_with_lsb(prev[t], bits[k]);
        assert forall|j: int| 0 <= j < bits.len() implies lsb(#[trigger] w[p[j] as int]) == bits[j] by {
            if j < k {
                assert(p[j] != p[k]);
                assert(prev_bits[j] == bits[j]);
            }
        }
        assert forall|i: int| 0 <= i < s.len() implies -1 <= #[trigger] w[i] - s[i] <= 1 by {
            if i == t {
                if touched(p, k, i) {
                    let j = choose|j: int| 0 <= j < k && p[j] as int == i;
                    assert(p[j] != p[k]);
                }
            }
        }
        assert forall|i: int|
            0 <= i < s.len() && !touched(p, bits.len() as int, i) implies #[trigger] w[i] == s[i] by {
            assert(i != t);
            if touched(p, k, i) {
                let j = choose|j: int| 0 <= j < k && p[j] as int == i;
                assert(touched(p, bits.len() as int, i));
            }
        }
    }
}

/// The least significant bits of samples are bits.
pub proof fn lemma_lsbs_are_bits(s: Seq<i16>, p: Seq<usize>)
    requires
        is_permutation(p, s.len()),
    ensures
        is_bits(lsbs_along(s, p)),
{
    assert forall|k: int| 0 <= k < p.len() implies #[trigger] lsbs_along(s, p)[k] <= 1 by {
        lemma_lsb_is_bit(s[p[k] as int]);
    }
}

/// Writing into each sample the bit that it already carries changes nothing.
pub proof fn lemma_write_same(s: Seq<i16>, p: Seq<usize>, bits: Seq<u8>)
    requires
        is_permutation(p, s.len()),
        bits.len() <= s.len(),
        forall|k: int| 0 <= k < bits.len() ==> #[trigger] bits[k] == lsb(s[p[k] as int]),
    ensures
        written(s, p, bits) == s,
    decreases bits.len(),
{
    if bits.len() > 0 {
        let k = bits.len() - 1;
        lemma_write_same(s, p, bits.take(k));
        let x = s[p[k] as int];
        assert(((x & !1i16) | (((x & 1i16) as u8) as i16)) == x) by (bit_vector);
        assert(written(s, p, bits) =~= s);
    }
}

/// Writes bit `k` of `bits` into the least significant bit of the sample at
/// `perm[k]`, for each `k` in order.
pub fn write_bits(samples: &mut Vec<i16>, perm: &Vec<usize>, bits: &Vec<u8>)
    requires
        is_permutation(perm@, old(samples)@.len()),
        bits.len() <= old(samples)@.len(),
        is_bits(bits@),
    ensures
        final(samples)@ == written(old(samples)@, perm@, bits@),
{
    let ghost start = samples@;
    let mut k: usize = 0;
    while k < bits.len()
        invariant
            is_permutation(perm@, start.len()),
            bits.len() <= start.len(),
            k <= bits.len(),
            samples@ == written(start, perm@, bits@.take(k as int)),
            samples@.len() == start.len(),
        decreases bits.len() - k,
    {
        let t = perm[k];
        let x = samples[t];
        samples.set(t, (x & !1i16) | (bits[k] as i16));
        assert(bits@.take(k + 1).take(k as int) =~= bits@.take(k as int));
        k = k + 1;
    }
    assert(bits@.take(k as int) =~= bits@);
}

/// Reads the least significant bit of each sample, in the order that `perm`
/// lists.
pub fn read_bits(samples: &Vec<i16>, perm: &Vec<usize>) -> (r: Vec<u8>)
    requires
        is_permutation(perm@, samples@.len()),
    ensures
        r@ == lsbs_along(samples@, perm@),
        is_bits(r@),
{
    let mut out: Vec<u8> = Vec::with_capacity(perm.len());
    let mut k: usize = 0;
    while k < perm.len()
        invariant
            is_permutation(perm@, samples@.len()),
            k <= perm.len(),
            out@ == lsbs_along(samples@, perm@).take(k as int),
        decreases perm.len() - k,
    {
        let x = samples[perm[k]];
        out.push((x & 1i16) as u8);
        k = k + 1;
        assert(out@ =~= lsbs_along(samples@, perm@).take(k as int));
    }
    assert(out@ =~= lsbs_along(samples@, perm@));
    assert forall|k: int| 0 <= k < out@.len() implies #[trigger] out@[k] <= 1 by {
        lemma_lsb_is_bit(samples@[perm@[k] as int]);
    }
    out
}

} // verus!
