//! CRC-16/XMODEM: polynomial 0x1021, initial value 0x0000, no reflection,
//! no final xor. The wire format protects each frame's logical bytes with
//! this checksum, transmitted big-endian; a receiver that feeds the logical
//! bytes followed by the transmitted checksum into the same computation must
//! end at zero.

use vstd::prelude::*;

verus! {

/// One shift of the polynomial-division register.
pub open spec fn crc_shift(c: u16) -> u16 {
    if c & 0x8000 != 0 {
        (c << 1) ^ 0x1021
    } else {
        c << 1
    }
}

/// Fold one message byte into the register: xor into the high byte, then
/// eight polynomial-division shifts.
pub open spec fn crc_step(c: u16, b: u8) -> u16 {
    crc_shift(crc_shift(crc_shift(crc_shift(crc_shift(crc_shift(crc_shift(crc_shift(
        c ^ ((b as u16) << 8),
    ))))))))
}

/// The CRC-16/XMODEM digest of a byte sequence.
pub open spec fn crc16(s: Seq<u8>) -> u16
    decreases s.len(),
{
    if s.len() == 0 {
        0u16
    } else {
        crc_step(crc16(s.drop_last()), s.last())
    }
}

/// The digest of `s` in big-endian byte order, as it is transmitted.
pub open spec fn crc_bytes(s: Seq<u8>) -> Seq<u8> {
    seq![(crc16(s) / 256) as u8, (crc16(s) % 256) as u8]
}

fn crc_shift_exec(c: u16) -> (r: u16)
    ensures
        r == crc_shift(c),
{
    if c & 0x8000 != 0 {
        (c << 1u16) ^ 0x1021
    } else {
        c << 1u16
    }
}

/// Fold one byte into a running digest.
pub fn crc_step_exec(c: u16, b: u8) -> (r: u16)
    ensures
        r == crc_step(c, b),
{
    let x = c ^ ((b as u16) << 8u16);
    crc_shift_exec(crc_shift_exec(crc_shift_exec(crc_shift_exec(crc_shift_exec(
        crc_shift_exec(crc_shift_exec(crc_shift_exec(x))),
    )))))
}

pub proof fn lemma_crc16_push(s: Seq<u8>, b: u8)
    ensures
        crc16(s.push(b)) == crc_step(crc16(s), b),
{
    assert(s.push(b).drop_last() =~= s);
    assert(s.push(b).last() == b);
}

/// Compute the digest of `data`.
pub fn crc16_exec(data: &Vec<u8>) -> (r: u16)
    ensures
        r == crc16(data@),
{
    let mut c: u16 = 0;
    let mut i: usize = 0;
    while i < data.len()
        invariant
            i <= data.len(),
            c == crc16(data@.take(i as int)),
        decreases data.len() - i,
    {
        proof {
            assert(data@.take(i as int).push(data@[i as int]) =~= data@.take(i + 1));
            lemma_crc16_push(data@.take(i as int), data@[i as int]);
        }
        c = crc_step_exec(c, data[i]);
        i = i + 1;
    }
    proof {
        assert(data@.take(data@.len() as int) =~= data@);
    }
    c
}

/// Processing any register value's own big-endian bytes drives the register
/// to zero: the algebraic core of the receiver's checksum test.
pub proof fn lemma_crc_digest_zero(c: u16, hi: u8, lo: u8)
    requires
        hi as u16 == c / 256,
        lo as u16 == c % 256,
    ensures
        crc_step(crc_step(c, hi), lo) == 0,
{
    let a0 = c ^ ((hi as u16) << 8);
    let a1 = crc_shift(a0);
    let a2 = crc_shift(a1);
    let a3 = crc_shift(a2);
    let a4 = crc_shift(a3);
    let a5 = crc_shift(a4);
    let a6 = crc_shift(a5);
    let a7 = crc_shift(a6);
    let a8 = crc_shift(a7);
    assert(crc_step(c, hi) == a8);
    let b0 = a8 ^ ((lo as u16) << 8);
    let b1 = crc_shift(b0);
    let b2 = crc_shift(b1);
    let b3 = crc_shift(b2);
    let b4 = crc_shift(b3);
    let b5 = crc_shift(b4);
    let b6 = crc_shift(b5);
    let b7 = crc_shift(b6);
    let b8 = crc_shift(b7);
    assert(crc_step(a8, lo) == b8);
    assert(b8 == 0) by (bit_vector)
        requires
            hi as u16 == c / 256,
            lo as u16 == c % 256,
            a0 == c ^ ((hi as u16) << 8),
            a1 == crc_shift(a0),
            a2 == crc_shift(a1),
            a3 == crc_shift(a2),
            a4 == crc_shift(a3),
            a5 == crc_shift(a4),
            a6 == crc_shift(a5),
            a7 == crc_shift(a6),
            a8 == crc_shift(a7),
            b0 == a8 ^ ((lo as u16) << 8),
            b1 == crc_shift(b0),
            b2 == crc_shift(b1),
            b3 == crc_shift(b2),
            b4 == crc_shift(b3),
            b5 == crc_shift(b4),
            b6 == crc_shift(b5),
            b7 == crc_shift(b6),
            b8 == crc_shift(b7),
    ;
}

/// Fold `s` into a running register, left to right.
pub open spec fn crc_from(c: u16, s: Seq<u8>) -> u16
    decreases s.len(),
{
    if s.len() == 0 {
        c
    } else {
        crc_from(crc_step(c, s[0]), s.drop_first())
    }
}

proof fn lemma_crc_from_push(c: u16, s: Seq<u8>, b: u8)
    ensures
        crc_from(c, s.push(b)) == crc_step(crc_from(c, s), b),
    decreases s.len(),
{
    if s.len() == 0 {
        assert(s.push(b)[0] == b);
        assert(s.push(b).drop_first() =~= Seq::<u8>::empty());
        assert(crc_from(c, s) == c);
        assert(crc_from(c, s.push(b)) == crc_from(crc_step(c, b), s.push(b).drop_first()));
        assert(crc_from(crc_step(c, b), Seq::<u8>::empty()) == crc_step(c, b));
    } else {
        assert(s.push(b)[0] == s[0]);
        assert(s.push(b).drop_first() =~= s.drop_first().push(b));
        lemma_crc_from_push(crc_step(c, s[0]), s.drop_first(), b);
        assert(crc_from(c, s.push(b)) == crc_from(crc_step(c, s[0]), s.drop_first().push(b)));
        assert(crc_from(c, s) == crc_from(crc_step(c, s[0]), s.drop_first()));
    }
}

/// The last-byte recursion of `crc16` and the left-to-right fold agree.
pub proof fn lemma_crc16_is_crc_from(s: Seq<u8>)
    ensures
        crc16(s) == crc_from(0u16, s),
    decreases s.len(),
{
    if s.len() != 0 {
        lemma_crc16_is_crc_from(s.drop_last());
        lemma_crc_from_push(0u16, s.drop_last(), s.last());
        assert(s.drop_last().push(s.last()) =~= s);
    }
}

proof fn lemma_crc_from_concat(c: u16, a: Seq<u8>, b: Seq<u8>)
    ensures
        crc_from(c, a + b) == crc_from(crc_from(c, a), b),
    decreases a.len(),
{
    if a.len() == 0 {
        assert(a + b =~= b);
    } else {
        assert((a + b)[0] == a[0]);
        assert((a + b).drop_first() =~= a.drop_first() + b);
        lemma_crc_from_concat(crc_step(c, a[0]), a.drop_first(), b);
    }
}

/// Distinct registers stay distinct through a step: the register update is
/// affine over xor and its linear part is invertible.
proof fn lemma_crc_step_injective_register(c1: u16, c2: u16, b: u8)
    requires
        c1 != c2,
    ensures
        crc_step(c1, b) != crc_step(c2, b),
{
    let a0 = c1 ^ ((b as u16) << 8);
    let a1 = crc_shift(a0);
    let a2 = crc_shift(a1);
    let a3 = crc_shift(a2);
    let a4 = crc_shift(a3);
    let a5 = crc_shift(a4);
    let a6 = crc_shift(a5);
    let a7 = crc_shift(a6);
    let a8 = crc_shift(a7);
    assert(crc_step(c1, b) == a8);
    let b0 = c2 ^ ((b as u16) << 8);
    let b1 = crc_shift(b0);
    let b2 = crc_shift(b1);
    let b3 = crc_shift(b2);
    let b4 = crc_shift(b3);
    let b5 = crc_shift(b4);
    let b6 = crc_shift(b5);
    let b7 = crc_shift(b6);
    let b8 = crc_shift(b7);
    assert(crc_step(c2, b) == b8);
    assert(a8 != b8) by (bit_vector)
        requires
            c1 != c2,
            a0 == c1 ^ ((b as u16) << 8),
            a1 == crc_shift(a0),
            a2 == crc_shift(a1),
            a3 == crc_shift(a2),
            a4 == crc_shift(a3),
            a5 == crc_shift(a4),
            a6 == crc_shift(a5),
            a7 == crc_shift(a6),
            a8 == crc_shift(a7),
            b0 == c2 ^ ((b as u16) << 8),
            b1 == crc_shift(b0),
            b2 == crc_shift(b1),
            b3 == crc_shift(b2),
            b4 == crc_shift(b3),
            b5 == crc_shift(b4),
            b6 == crc_shift(b5),
            b7 == crc_shift(b6),
            b8 == crc_shift(b7),
    ;
}

/// A step distinguishes bytes: feeding different bytes from the same
/// register never collides.
proof fn lemma_crc_step_injective_byte(c: u16, x: u8, y: u8)
    requires
        x != y,
    ensures
        crc_step(c, x) != crc_step(c, y),
{
    let a0 = c ^ ((x as u16) << 8);
    let a1 = crc_shift(a0);
    let a2 = crc_shift(a1);
    let a3 = crc_shift(a2);
    let a4 = crc_shift(a3);
    let a5 = crc_shift(a4);
    let a6 = crc_shift(a5);
    let a7 = crc_shift(a6);
    let a8 = crc_shift(a7);
    assert(crc_step(c, x) == a8);
    let b0 = c ^ ((y as u16) << 8);
    let b1 = crc_shift(b0);
    let b2 = crc_shift(b1);
    let b3 = crc_shift(b2);
    let b4 = crc_shift(b3);
    let b5 = crc_shift(b4);
    let b6 = crc_shift(b5);
    let b7 = crc_shift(b6);
    let b8 = crc_shift(b7);
    assert(crc_step(c, y) == b8);
    assert(a8 != b8) by (bit_vector)
        requires
            x != y,
            a0 == c ^ ((x as u16) << 8),
            a1 == crc_shift(a0),
            a2 == crc_shift(a1),
            a3 == crc_shift(a2),
            a4 == crc_shift(a3),
            a5 == crc_shift(a4),
            a6 == crc_shift(a5),
            a7 == crc_shift(a6),
            a8 == crc_shift(a7),
            b0 == c ^ ((y as u16) << 8),
            b1 == crc_shift(b0),
            b2 == crc_shift(b1),
            b3 == crc_shift(b2),
            b4 == crc_shift(b3),
            b5 == crc_shift(b4),
            b6 == crc_shift(b5),
            b7 == crc_shift(b6),
            b8 == crc_shift(b7),
    ;
}

proof fn lemma_crc_from_injective(c1: u16, c2: u16, s: Seq<u8>)
    requires
        c1 != c2,
    ensures
        crc_from(c1, s) != crc_from(c2, s),
    decreases s.len(),
{
    if s.len() != 0 {
        lemma_crc_step_injective_register(c1, c2, s[0]);
        lemma_crc_from_injective(crc_step(c1, s[0]), crc_step(c2, s[0]), s.drop_first());
    }
}

/// Error detection: changing any single byte of a message — in particular
/// flipping any single bit — changes its digest.
pub proof fn lemma_crc_detects_corruption(s: Seq<u8>, i: int, b: u8)
    requires
        0 <= i < s.len(),
        b != s[i],
    ensures
        crc16(s.update(i, b)) != crc16(s),
{
    let t = s.update(i, b);
    let pre = s.take(i);
    let post = s.skip(i + 1);
    assert(s =~= (pre + seq![s[i]]) + post);
    assert(t =~= (pre + seq![b]) + post);
    lemma_crc16_is_crc_from(s);
    lemma_crc16_is_crc_from(t);
    lemma_crc_from_concat(0u16, pre + seq![s[i]], post);
    lemma_crc_from_concat(0u16, pre + seq![b], post);
    lemma_crc_from_concat(0u16, pre, seq![s[i]]);
    lemma_crc_from_concat(0u16, pre, seq![b]);
    let cp = crc_from(0u16, pre);
    assert(seq![s[i]].drop_first() =~= Seq::<u8>::empty());
    assert(seq![b].drop_first() =~= Seq::<u8>::empty());
    assert(crc_from(cp, seq![s[i]]) == crc_from(crc_step(cp, s[i]), seq![s[i]].drop_first()));
    assert(crc_from(crc_step(cp, s[i]), Seq::<u8>::empty()) == crc_step(cp, s[i]));
    assert(crc_from(cp, seq![b]) == crc_from(crc_step(cp, b), seq![b].drop_first()));
    assert(crc_from(crc_step(cp, b), Seq::<u8>::empty()) == crc_step(cp, b));
    lemma_crc_step_injective_byte(cp, s[i], b);
    lemma_crc_from_injective(crc_step(cp, s[i]), crc_step(cp, b), post);
}

/// A message followed by its own big-endian digest has digest zero.
pub proof fn lemma_crc16_with_digest(s: Seq<u8>)
    ensures
        crc16(s + crc_bytes(s)) == 0,
{
    let c = crc16(s);
    assert(c / 256 < 256);
    let hi = (c / 256) as u8;
    let lo = (c % 256) as u8;
    lemma_crc16_push(s, hi);
    lemma_crc16_push(s.push(hi), lo);
    assert(s + crc_bytes(s) =~= s.push(hi).push(lo));
    lemma_crc_digest_zero(c, hi, lo);
}

} // verus!
