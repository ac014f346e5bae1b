use vstd::arithmetic::div_mod::lemma_div_denominator;
use vstd::arithmetic::power2::{
    lemma2_to64, lemma_pow2_pos, lemma_pow2_strictly_increases, lemma_pow2_unfold, pow2,
};
use vstd::prelude::*;

verus! {

/// Bit `i` of the `w`-bit value `v`, counted from the most significant bit.
pub open spec fn bit_at(v: nat, w: nat, i: int) -> u8 {
    ((v / pow2((w - 1 - i) as nat)) % 2) as u8
}

/// The `w` bits of `v`, most significant first.
pub open spec fn bits_of(v: nat, w: nat) -> Seq<u8> {
    Seq::new(w, |i: int| bit_at(v, w, i))
}

/// The value of a sequence of bits read most significant first.
pub open spec fn bits_value(s: Seq<u8>) -> nat
    decreases s.len(),
{
    if s.len() == 0 {
        0
    } else {
        2 * bits_value(s.drop_last()) + s.last() as nat
    }
}

/// Every item of `s` is a bit.
pub open spec fn is_bits(s: Seq<u8>) -> bool {
    forall|i: int| 0 <= i < s.len() ==> #[trigger] s[i] <= 1
}

/// The bits of a payload: eight per byte, each byte most significant bit first.
pub open spec fn payload_bits(p: Seq<u8>) -> Seq<u8> {
    Seq::new(8 * p.len(), |k: int| bit_at(p[k / 8] as nat, 8, k % 8))
}

/// The frame of a payload: its length in sixteen bits, then its bytes.
pub open spec fn frame_bits(p: Seq<u8>) -> Seq<u8> {
    bits_of(p.len(), 16) + payload_bits(p)
}

/// Where the header of a frame read from `bits` ends.
pub open spec fn header_end(bits: Seq<u8>) -> int {
    if bits.len() < 16 {
        bits.len() as int
    } else {
        16
    }
}

/// The payload length that the header of `bits` announces.
pub open spec fn announced_length(bits: Seq<u8>) -> nat {
    bits_value(bits.take(header_end(bits)))
}

/// Where the body of a frame read from `bits` ends: after the announced
/// number of bytes, or at the end of `bits` if that comes first.
pub open spec fn body_end(bits: Seq<u8>) -> int {
    let h = header_end(bits);
    let e = h + 8 * announced_length(bits);
    if e < bits.len() {
        e
    } else {
        bits.len() as int
    }
}

/// Byte `i` of the body: eight bits, or fewer where the body ends first.
pub open spec fn body_byte(bits: Seq<u8>, i: int) -> u8 {
    let start = header_end(bits) + 8 * i;
    let stop = if start + 8 < body_end(bits) {
        start + 8
    } else {
        body_end(bits)
    };
    bits_value(bits.subrange(start, stop)) as u8
}

/// The bytes that a frame read from `bits` holds. Any bit sequence decodes to
/// something: a short header or body is read as far as it goes.
pub open spec fn decode_frame(bits: Seq<u8>) -> Seq<u8> {
    Seq::new(((body_end(bits) - header_end(bits) + 7) / 8) as nat, |i: int| body_byte(bits, i))
}

proof fn lemma_bits_value_step(s: Seq<u8>, a: int, k: int)
    requires
        0 <= a <= k < s.len(),
    ensures
        bits_value(s.subrange(a, k + 1)) == 2 * bits_value(s.subrange(a, k)) + s[k],
{
    assert(s.subrange(a, k + 1).drop_last() =~= s.subrange(a, k));
}

proof fn lemma_bits_value_bound(s: Seq<u8>)
    requires
        is_bits(s),
    ensures
        bits_value(s) < pow2(s.len()),
    decreases s.len(),
{
    if s.len() == 0 {
        lemma2_to64();
    } else {
        assert(is_bits(s.drop_last()));
        lemma_bits_value_bound(s.drop_last());
        lemma_pow2_unfold(s.len());
    }
}

proof fn lemma_bits_of_split(v: nat, w: nat)
    requires
        w > 0,
    ensures
        bits_of(v, w).drop_last() == bits_of(v / 2, (w - 1) as nat),
        bits_of(v, w).last() == v % 2,
{
    lemma2_to64();
    let b = bits_of(v, w);
    let half = bits_of(v / 2, (w - 1) as nat);
    assert forall|i: int| 0 <= i < w - 1 implies #[trigger] b[i] == half[i] by {
        let e = (w - 2 - i) as nat;
        lemma_pow2_unfold((w - 1 - i) as nat);
        lemma_pow2_pos(e);
        lemma_div_denominator(v as int, 2, pow2(e) as int);
    }
    assert(b.drop_last() =~= half);
    assert(v / pow2(0) == v);
}

proof fn lemma_bits_of_value(v: nat, w: nat)
    requires
        v < pow2(w),
    ensures
        bits_value(bits_of(v, w)) == v,
    decreases w,
{
    if w == 0 {
        lemma2_to64();
    } else {
        lemma_pow2_unfold(w);
        lemma_bits_of_split(v, w);
        lemma_bits_of_value(v / 2, (w - 1) as nat);
    }
}

/// A sequence of bits is the bit pattern of its own value.
proof fn lemma_bits_of_inverse(s: Seq<u8>)
    requires
        is_bits(s),
    ensures
        bits_of(bits_value(s), s.len()) == s,
    decreases s.len(),
{
    if s.len() > 0 {
        let w = s.len();
        let v = bits_value(s);
        assert(is_bits(s.drop_last()));
        lemma_bits_of_inverse(s.drop_last());
        lemma_bits_of_split(v, w);
        assert(s.last() <= 1);
        assert(v / 2 == bits_value(s.drop_last()));
        assert(bits_of(v, w) =~= s.drop_last().push(s.last()));
        assert(s.drop_last().push(s.last()) =~= s);
    } else {
        assert(bits_of(0, 0) =~= s);
    }
}

/// Appends the `w` bits of `v` to `out`, most significant first.
fn push_bits(out: &mut Vec<u8>, v: u32, w: u32)
    requires
        1 <= w <= 16,
        v < pow2(w as nat),
    ensures
        final(out)@ == old(out)@ + bits_of(v as nat, w as nat),
{
    let ghost start = old(out)@;
    proof {
        lemma2_to64();
        lemma_pow2_strictly_increases((w - 1) as nat, 16);
    }
    let mut d: u32 = 1;
    let mut e: u32 = 0;
    while e + 1 < w
        invariant
            1 <= w <= 16,
            e < w,
            d as nat == pow2(e as nat),
            out@ == start,
        decreases w - e,
    {
        proof {
            lemma2_to64();
            lemma_pow2_unfold((e + 1) as nat);
            lemma_pow2_strictly_increases((e + 1) as nat, 16);
        }
        d = d * 2;
        e = e + 1;
    }
    let mut i: u32 = 0;
    while i < w
        invariant
            1 <= w <= 16,
            i <= w,
            i < w ==> d as nat == pow2((w - 1 - i) as nat),
            out@ == start + bits_of(v as nat, w as nat).take(i as int),
        decreases w - i,
    {
        proof {
            lemma_pow2_pos((w - 1 - i) as nat);
        }
        let bit = ((v / d) % 2) as u8;
        out.push(bit);
        proof {
            if i + 1 < w {
                lemma_pow2_unfold((w - 1 - i) as nat);
            }
        }
        d = d / 2;
        i = i + 1;
        assert(out@ =~= start + bits_of(v as nat, w as nat).take(i as int));
    }
    assert(bits_of(v as nat, w as nat).take(w as int) =~= bits_of(v as nat, w as nat));
}

/// Encodes a payload as a frame: sixteen bits of length, big-endian, then each
/// byte most significant bit first.
pub fn encode_frame(payload: &Vec<u8>) -> (r: Vec<u8>)
    requires
        payload.len() <= 0xFFFF,
    ensures
        r@ == frame_bits(payload@),
        is_bits(r@),
{
    let mut out: Vec<u8> = Vec::new();
    proof {
        lemma2_to64();
    }
    push_bits(&mut out, payload.len() as u32, 16);
    assert(out@ =~= bits_of(payload@.len(), 16));
    let mut j: usize = 0;
    while j < payload.len()
        invariant
            j <= payload.len() <= 0xFFFF,
            out@ == bits_of(payload@.len(), 16) + payload_bits(payload@.take(j as int)),
        decreases payload.len() - j,
    {
        proof {
            lemma2_to64();
        }
        push_bits(&mut out, payload[j] as u32, 8);
        proof {
            let p = payload@;
            let a = payload_bits(p.take(j as int));
            let b = payload_bits(p.take(j + 1));
            assert forall|k: int| 0 <= k < b.len() implies #[trigger] b[k] == (a + bits_of(
                p[j as int] as nat,
                8,
            ))[k] by {
                if k < 8 * j {
                    assert(k / 8 < j);
                } else {
                    assert(k / 8 == j);
                    assert(k % 8 == k - 8 * j);
                }
            }
            assert(b =~= a + bits_of(p[j as int] as nat, 8));
        }
        j = j + 1;
        assert(out@ =~= bits_of(payload@.len(), 16) + payload_bits(payload@.take(j as int)));
    }
    assert(payload@.take(j as int) =~= payload@);
    assert forall|k: int| 0 <= k < out@.len() implies #[trigger] out@[k] <= 1 by {
        if k < 16 {
            assert(out@[k] == bit_at(payload@.len(), 16, k));
        } else {
            assert(out@[k] == bit_at(payload@[(k - 16) / 8] as nat, 8, (k - 16) % 8));
        }
    }
    out
}

/// Reads the bits of `bits` from `start` up to `stop` as one value, most
/// significant first.
fn read_value(bits: &Vec<u8>, start: usize, stop: usize) -> (r: usize)
    requires
        start <= stop <= bits.len(),
        stop - start <= 16,
        is_bits(bits@),
    ensures
        r == bits_value(bits@.subrange(start as int, stop as int)),
        r < pow2((stop - start) as nat),
{
    let mut acc: usize = 0;
    let mut k: usize = start;
    proof {
        lemma2_to64();
    }
    while k < stop
        invariant
            start <= k <= stop <= bits.len(),
            stop - start <= 16,
            is_bits(bits@),
            acc == bits_value(bits@.subrange(start as int, k as int)),
            acc < pow2((k - start) as nat),
        decreases stop - k,
    {
        proof {
            lemma2_to64();
            lemma_bits_value_step(bits@, start as int, k as int);
            lemma_pow2_unfold((k + 1 - start) as nat);
            lemma_pow2_strictly_increases((k + 1 - start) as nat, 17);
        }
        acc = acc * 2 + bits[k] as usize;
        k = k + 1;
    }
    acc
}

/// Decodes a frame from a sequence of bits. It never fails: the length comes
/// from the first sixteen bits, and the body is read as far as the bits go.
pub fn decode_frame_bits(bits: &Vec<u8>) -> (r: Vec<u8>)
    requires
        is_bits(bits@),
    ensures
        r@ == decode_frame(bits@),
{
    let n = bits.len();
    let h: usize = if n < 16 {
        n
    } else {
        16
    };
    let l = read_value(bits, 0, h);
    assert(bits@.subrange(0, h as int) =~= bits@.take(h as int));
    proof {
        lemma2_to64();
        if h < 16 {
            lemma_pow2_strictly_increases(h as nat, 16);
        }
    }
    let end: usize = if l * 8 < n - h {
        h + l * 8
    } else {
        n
    };
    assert(end == body_end(bits@));
    let mut out: Vec<u8> = Vec::new();
    let mut pos: usize = h;
    while pos < end
        invariant
            h == header_end(bits@),
            end == body_end(bits@),
            h <= pos <= end <= bits.len(),
            is_bits(bits@),
            out.len() == (pos - h + 7) / 8,
            pos < end ==> pos == h + 8 * out.len(),
            forall|i: int| 0 <= i < out.len() ==> out@[i] == body_byte(bits@, i),
        decreases end - pos,
    {
        let stop: usize = if end - pos > 8 {
            pos + 8
        } else {
            end
        };
        let v = read_value(bits, pos, stop);
        proof {
            lemma2_to64();
            if stop - pos < 8 {
                lemma_pow2_strictly_increases((stop - pos) as nat, 8);
            }
        }
        out.push(v as u8);
        pos = stop;
    }
    assert(out@ =~= decode_frame(bits@));
    out
}

/// Decoding the frame of a payload, followed by any bits, gives the payload
/// back.
pub proof fn lemma_frame_round_trip(p: Seq<u8>, bits: Seq<u8>)
    requires
        p.len() <= 0xFFFF,
        bits.len() >= 16 + 8 * p.len(),
        bits.take(16 + 8 * p.len() as int) == frame_bits(p),
    ensures
        decode_frame(bits) == p,
{
    lemma2_to64();
    let f = frame_bits(p);
    assert(bits.take(16) =~= bits_of(p.len(), 16)) by {
        assert forall|k: int| 0 <= k < 16 implies #[trigger] bits[k] == f[k] by {
            assert(bits.take(16 + 8 * p.len() as int)[k] == bits[k]);
        }
    }
    lemma_bits_of_value(p.len(), 16);
    assert(announced_length(bits) == p.len());
    let d = decode_frame(bits);
    assert(d.len() == p.len());
    assert forall|i: int| 0 <= i < p.len() implies #[trigger] d[i] == p[i] by {
        let s = bits.subrange(16 + 8 * i, 16 + 8 * i + 8);
        assert forall|j: int| 0 <= j < 8 implies #[trigger] s[j] == bits_of(p[i] as nat, 8)[j] by {
            let k = 8 * i + j;
            assert(k / 8 == i);
            assert(k % 8 == j);
            assert(bits.take(16 + 8 * p.len() as int)[16 + k] == bits[16 + k]);
            assert(f[16 + k] == payload_bits(p)[k]);
        }
        assert(s =~= bits_of(p[i] as nat, 8));
        lemma_bits_of_value(p[i] as nat, 8);
    }
    assert(d =~= p);
}

/// Bits that decode to a payload, with room to spare after the frame it
/// announces, begin with that payload's frame.
pub proof fn lemma_frame_of_decoded(bits: Seq<u8>, p: Seq<u8>)
    requires
        is_bits(bits),
        decode_frame(bits) == p,
        16 + 8 * p.len() < bits.len(),
    ensures
        p.len() <= 0xFFFF,
        bits.take(16 + 8 * p.len() as int) == frame_bits(p),
{
    lemma2_to64();
    let n = bits.len();
    let head = bits.take(16);
    assert(is_bits(head));
    lemma_bits_value_bound(head);
    let a = announced_length(bits);
    assert(a == bits_value(head));
    if 16 + 8 * a >= n {
        assert(body_end(bits) == n);
        assert(decode_frame(bits).len() == (n - 16 + 7) / 8);
        assert(false);
    }
    assert(a == p.len());
    lemma_bits_of_inverse(head);
    let f = frame_bits(p);
    let t = bits.take(16 + 8 * p.len() as int);
    assert forall|k: int| 0 <= k < t.len() implies #[trigger] t[k] == f[k] by {
        if k < 16 {
            assert(head[k] == bits[k]);
        } else {
            let i = (k - 16) / 8;
            let j = (k - 16) % 8;
            let sub = bits.subrange(16 + 8 * i, 16 + 8 * i + 8);
            assert(is_bits(sub));
            lemma_bits_value_bound(sub);
            assert(p[i] == body_byte(bits, i));
            assert(body_byte(bits, i) == bits_value(sub) as u8);
            lemma_bits_of_inverse(sub);
            assert(sub[j] == bits[k]);
        }
    }
    assert(t =~= f);
}

} // verus!
