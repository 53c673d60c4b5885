//! Key derivation and the byte-wise mask transform.

use vstd::prelude::*;

use crate::error::DecodeError;

verus! {

/// The mask state after consuming one byte: shift left by one bit within
/// 32 bits (the top bit is discarded), then XOR the byte in.
pub open spec fn mask_step(m: u32, b: u8) -> u32 {
    (m << 1u32) ^ (b as u32)
}

/// The mask state reached from `m` after consuming `bytes` left to right.
pub open spec fn fold_mask(m: u32, bytes: Seq<u8>) -> u32
    decreases bytes.len(),
{
    if bytes.len() == 0 {
        m
    } else {
        mask_step(fold_mask(m, bytes.drop_last()), bytes.last())
    }
}

/// ASCII uppercase of one byte; bytes outside `a..=z` are left as they are.
pub open spec fn upper_byte(b: u8) -> u8 {
    if 97 <= b && b <= 122 {
        (b - 32) as u8
    } else {
        b
    }
}

/// ASCII uppercase of a byte string.
pub open spec fn upper_seq(s: Seq<u8>) -> Seq<u8> {
    s.map_values(|b: u8| upper_byte(b))
}

/// Every byte is 7-bit ASCII.
pub open spec fn is_ascii_seq(s: Seq<u8>) -> bool {
    forall|i: int| 0 <= i < s.len() ==> s[i] < 128
}

/// The initial mask of a base name: the fold of its uppercased bytes from zero.
pub open spec fn name_mask(name: Seq<u8>) -> u32 {
    fold_mask(0, upper_seq(name))
}

/// One output byte of the transform: the low eight bits of `b XOR m`.
pub open spec fn out_byte(b: u8, m: u32) -> u8 {
    (((b as u32) ^ m) % 256) as u8
}

/// Decoding of a masked region under initial mask `m`: each byte is XORed with
/// the mask reached after the encoded bytes before it.
pub open spec fn unmask_seq(c: Seq<u8>, m: u32) -> Seq<u8> {
    Seq::new(c.len(), |i: int| out_byte(c[i], fold_mask(m, c.take(i))))
}

/// Encoding of a plain region under initial mask `m`, the forward direction of
/// the transform: the state advances on each encoded byte produced.
pub open spec fn mask_seq(p: Seq<u8>, m: u32) -> Seq<u8>
    decreases p.len(),
{
    if p.len() == 0 {
        Seq::empty()
    } else {
        let prev = mask_seq(p.drop_last(), m);
        prev.push(out_byte(p.last(), fold_mask(m, prev)))
    }
}

/// Advances the mask state by one byte.
fn step(m: u32, b: u8) -> (r: u32)
    ensures
        r == mask_step(m, b),
{
    (m << 1u32) ^ (b as u32)
}

/// ASCII uppercase of one byte.
fn to_upper(b: u8) -> (r: u8)
    ensures
        r == upper_byte(b),
{
    if 97 <= b && b <= 122 {
        b - 32
    } else {
        b
    }
}

/// Consuming one more byte advances the fold by one step.
pub proof fn lemma_fold_mask_push(m: u32, bytes: Seq<u8>, b: u8)
    ensures
        fold_mask(m, bytes.push(b)) == mask_step(fold_mask(m, bytes), b),
{
    assert(bytes.push(b).drop_last() =~= bytes);
}

/// The transform undoes itself on one byte under the same mask.
pub proof fn lemma_out_byte_involutive(b: u8, k: u32)
    ensures
        out_byte(out_byte(b, k), k) == b,
{
    assert((((((((b as u32) ^ k) % 256) as u8) as u32) ^ k) % 256) as u8 == b) by (bit_vector);
}

/// Each encoded byte is the plain byte XORed with the mask reached after the
/// encoded bytes before it.
pub proof fn lemma_mask_seq_index(p: Seq<u8>, m: u32)
    ensures
        mask_seq(p, m).len() == p.len(),
        forall|i: int|
            0 <= i < p.len() ==> #[trigger] mask_seq(p, m)[i] == out_byte(
                p[i],
                fold_mask(m, mask_seq(p, m).take(i)),
            ),
    decreases p.len(),
{
    if p.len() > 0 {
        let q = p.drop_last();
        lemma_mask_seq_index(q, m);
        let prev = mask_seq(q, m);
        let c = mask_seq(p, m);
        assert forall|i: int| 0 <= i < p.len() implies #[trigger] c[i] == out_byte(
            p[i],
            fold_mask(m, c.take(i)),
        ) by {
            if i < p.len() - 1 {
                assert(c.take(i) =~= prev.take(i));
                assert(prev[i] == out_byte(q[i], fold_mask(m, prev.take(i))));
            } else {
                assert(c.take(i) =~= prev);
            }
        }
    }
}

/// Unmasking a region that was masked under the same initial mask gives the
/// plain bytes back.
pub proof fn lemma_unmask_mask(p: Seq<u8>, m: u32)
    ensures
        unmask_seq(mask_seq(p, m), m) == p,
{
    lemma_mask_seq_index(p, m);
    let c = mask_seq(p, m);
    assert forall|i: int| 0 <= i < p.len() implies #[trigger] unmask_seq(c, m)[i] == p[i] by {
        lemma_out_byte_involutive(p[i], fold_mask(m, c.take(i)));
    }
    assert(unmask_seq(c, m) =~= p);
}

/// The second decoded byte is taken under the mask advanced by the first
/// encoded byte, whatever the first decoded byte is.
pub proof fn lemma_second_byte_uses_encoded_first(c: Seq<u8>, m: u32)
    requires
        c.len() >= 2,
    ensures
        unmask_seq(c, m)[1] == out_byte(c[1], mask_step(m, c[0])),
{
    assert(c.take(1) =~= Seq::<u8>::empty().push(c[0]));
    lemma_fold_mask_push(m, Seq::<u8>::empty(), c[0]);
    assert(fold_mask(m, Seq::<u8>::empty()) == m);
}

/// The initial mask depends on the uppercased base name alone: two names that
/// agree once uppercased get the same mask.
pub proof fn lemma_name_mask_of_uppercase(a: Seq<u8>, b: Seq<u8>)
    requires
        upper_seq(a) == upper_seq(b),
    ensures
        name_mask(a) == name_mask(b),
{
}

/// The initial mask of a base name, or `InvalidName` when a byte of it is not
/// 7-bit ASCII.
pub fn initial_mask(name: &[u8]) -> (r: Result<u32, DecodeError>)
    ensures
        is_ascii_seq(name@) ==> r == Ok::<u32, DecodeError>(name_mask(name@)),
        !is_ascii_seq(name@) ==> r == Err::<u32, DecodeError>(DecodeError::InvalidName),
{
    let n = name.len();
    let mut i: usize = 0;
    while i < n
        invariant
            n == name@.len(),
            i <= n,
            forall|j: int| 0 <= j < i ==> name@[j] < 128,
        decreases n - i,
    {
        if name[i] >= 128 {
            return Err(DecodeError::InvalidName);
        }
        i = i + 1;
    }
    let mut m: u32 = 0;
    let mut i: usize = 0;
    while i < n
        invariant
            n == name@.len(),
            i <= n,
            m == fold_mask(0, upper_seq(name@).take(i as int)),
        decreases n - i,
    {
        let u = to_upper(name[i]);
        proof {
            assert(upper_seq(name@).take(i + 1) =~= upper_seq(name@).take(i as int).push(u));
            lemma_fold_mask_push(0, upper_seq(name@).take(i as int), u);
        }
        m = step(m, u);
        i = i + 1;
    }
    assert(upper_seq(name@).take(n as int) =~= upper_seq(name@));
    Ok(m)
}

/// Unmasks `buf` in place under initial mask `m`, left to right; the state
/// advances on each encoded byte before it is overwritten.
pub fn unmask_in_place(buf: &mut Vec<u8>, m: u32)
    ensures
        final(buf)@ == unmask_seq(old(buf)@, m),
{
    let ghost c = buf@;
    let n = buf.len();
    let mut cur: u32 = m;
    let mut i: usize = 0;
    while i < n
        invariant
            n == c.len(),
            buf@.len() == n,
            i <= n,
            cur == fold_mask(m, c.take(i as int)),
            forall|j: int| i <= j < n ==> buf@[j] == c[j],
            forall|j: int| 0 <= j < i ==> buf@[j] == out_byte(c[j], fold_mask(m, c.take(j))),
        decreases n - i,
    {
        let og = buf[i];
        buf.set(i, (((og as u32) ^ cur) % 256) as u8);
        proof {
            assert(c.take(i + 1) =~= c.take(i as int).push(og));
            lemma_fold_mask_push(m, c.take(i as int), og);
        }
        cur = step(cur, og);
        i = i + 1;
    }
    assert(buf@ =~= unmask_seq(c, m));
}

/// Masks `plain` under initial mask `m`: the forward direction of
/// [`unmask_in_place`].
pub fn mask_payload(plain: &[u8], m: u32) -> (r: Vec<u8>)
    ensures
        r@ == mask_seq(plain@, m),
{
    let n = plain.len();
    let mut out: Vec<u8> = Vec::new();
    let mut cur: u32 = m;
    let mut i: usize = 0;
    while i < n
        invariant
            n == plain@.len(),
            i <= n,
            out@ == mask_seq(plain@.take(i as int), m),
            cur == fold_mask(m, out@),
        decreases n - i,
    {
        let c = (((plain[i] as u32) ^ cur) % 256) as u8;
        proof {
            assert(plain@.take(i + 1).drop_last() =~= plain@.take(i as int));
            lemma_fold_mask_push(m, out@, c);
        }
        out.push(c);
        cur = step(cur, c);
        i = i + 1;
    }
    assert(plain@.take(n as int) =~= plain@);
    out
}

} // verus!
