//! SipHash-2-4, the keyed function behind the verification stamp.

use vstd::prelude::*;

verus! {

/// The four words of state that SipHash works on.
#[derive(Clone, Copy)]
pub struct SipState {
    pub v0: u64,
    pub v1: u64,
    pub v2: u64,
    pub v3: u64,
}

/// `x` rotated left by `n` bits, for `0 < n < 64`.
pub open spec fn rotl(x: u64, n: u64) -> u64 {
    (x << n) | (x >> ((64 - n) as u64))
}

/// One round of SipHash.
pub open spec fn sip_round(s: SipState) -> SipState {
    let v0 = s.v0.wrapping_add(s.v1);
    let v1 = rotl(s.v1, 13) ^ v0;
    let v0 = rotl(v0, 32);
    let v2 = s.v2.wrapping_add(s.v3);
    let v3 = rotl(s.v3, 16) ^ v2;
    let v0 = v0.wrapping_add(v3);
    let v3 = rotl(v3, 21) ^ v0;
    let v2 = v2.wrapping_add(v1);
    let v1 = rotl(v1, 17) ^ v2;
    let v2 = rotl(v2, 32);
    SipState { v0, v1, v2, v3 }
}

/// The state after one word of the message is taken in: two rounds between the two places
/// where the word is mixed in.
pub open spec fn absorb(s: SipState, m: u64) -> SipState {
    let t = sip_round(sip_round(SipState { v3: s.v3 ^ m, ..s }));
    SipState { v0: t.v0 ^ m, ..t }
}

/// The state that a key starts from.
pub open spec fn initial_state(k0: u64, k1: u64) -> SipState {
    SipState {
        v0: k0 ^ 0x736f6d6570736575u64,
        v1: k1 ^ 0x646f72616e646f6du64,
        v2: k0 ^ 0x6c7967656e657261u64,
        v3: k1 ^ 0x7465646279746573u64,
    }
}

/// The word made of up to eight bytes of `bytes` from index `at` on, the first byte lowest.
pub open spec fn le_word(bytes: Seq<u8>, at: int, count: int) -> u64
    decreases count,
{
    if count <= 0 || at < 0 || at + count > bytes.len() {
        0
    } else {
        le_word(bytes, at, count - 1) | ((bytes[at + count - 1] as u64) << (((count - 1) * 8) as u64))
    }
}

/// The state after the first `n` whole words of the message are taken in.
pub open spec fn absorb_words(s: SipState, msg: Seq<u8>, n: int) -> SipState
    decreases n,
{
    if n <= 0 {
        s
    } else {
        absorb(absorb_words(s, msg, n - 1), le_word(msg, 8 * (n - 1), 8))
    }
}

/// The last word: the bytes after the last whole word, and the length of the message,
/// modulo 256, in the highest byte.
pub open spec fn last_word(msg: Seq<u8>) -> u64 {
    let whole = (msg.len() / 8) as int;
    le_word(msg, 8 * whole, (msg.len() % 8) as int) | (((msg.len() % 256) as u64) << 56)
}

/// The end of SipHash-2-4: four rounds after `0xff` is mixed in, and the four words folded
/// into one.
pub open spec fn finish(s: SipState) -> u64 {
    let t = sip_round(sip_round(sip_round(sip_round(SipState { v2: s.v2 ^ 0xffu64, ..s }))));
    t.v0 ^ t.v1 ^ t.v2 ^ t.v3
}

/// SipHash-2-4 of `msg` under the key `(k0, k1)`.
pub open spec fn siphash24(k0: u64, k1: u64, msg: Seq<u8>) -> u64 {
    finish(
        absorb(
            absorb_words(initial_state(k0, k1), msg, (msg.len() / 8) as int),
            last_word(msg),
        ),
    )
}

fn rotate(x: u64, n: u64) -> (r: u64)
    requires
        0 < n < 64,
    ensures
        r == rotl(x, n),
{
    (x << n) | (x >> (64 - n))
}

fn round(s: SipState) -> (r: SipState)
    ensures
        r == sip_round(s),
{
    let v0 = s.v0.wrapping_add(s.v1);
    let v1 = rotate(s.v1, 13) ^ v0;
    let v0 = rotate(v0, 32);
    let v2 = s.v2.wrapping_add(s.v3);
    let v3 = rotate(s.v3, 16) ^ v2;
    let v0 = v0.wrapping_add(v3);
    let v3 = rotate(v3, 21) ^ v0;
    let v2 = v2.wrapping_add(v1);
    let v1 = rotate(v1, 17) ^ v2;
    let v2 = rotate(v2, 32);
    SipState { v0, v1, v2, v3 }
}

fn take_in(s: SipState, m: u64) -> (r: SipState)
    ensures
        r == absorb(s, m),
{
    let t = round(round(SipState { v0: s.v0, v1: s.v1, v2: s.v2, v3: s.v3 ^ m }));
    SipState { v0: t.v0 ^ m, v1: t.v1, v2: t.v2, v3: t.v3 }
}

/// Reads up to eight bytes as a word, the first byte lowest.
pub fn read_word(bytes: &[u8], at: usize, count: usize) -> (r: u64)
    requires
        count <= 8,
        at + count <= bytes.len(),
    ensures
        r == le_word(bytes@, at as int, count as int),
{
    let mut r: u64 = 0;
    let mut i: usize = 0;
    while i < count
        invariant
            i <= count <= 8,
            at + count <= bytes.len(),
            r == le_word(bytes@, at as int, i as int),
        decreases count - i,
    {
        let shift: u64 = (i as u64) * 8;
        r = r | ((bytes[at + i] as u64) << shift);
        i += 1;
    }
    r
}

/// Computes SipHash-2-4 of `msg` under the key `(k0, k1)`.
pub fn hash(k0: u64, k1: u64, msg: &[u8]) -> (h: u64)
    ensures
        h == siphash24(k0, k1, msg@),
{
    let mut s = SipState {
        v0: k0 ^ 0x736f6d6570736575u64,
        v1: k1 ^ 0x646f72616e646f6du64,
        v2: k0 ^ 0x6c7967656e657261u64,
        v3: k1 ^ 0x7465646279746573u64,
    };
    let whole: usize = msg.len() / 8;
    let mut n: usize = 0;
    while n < whole
        invariant
            n <= whole,
            whole == msg.len() / 8,
            s == absorb_words(initial_state(k0, k1), msg@, n as int),
        decreases whole - n,
    {
        let m = read_word(msg, 8 * n, 8);
        s = take_in(s, m);
        n += 1;
    }
    let rest: usize = msg.len() % 8;
    let tail = read_word(msg, 8 * whole, rest);
    let length: u64 = (msg.len() % 256) as u64;
    let last = tail | (length << 56);
    s = take_in(s, last);
    let t = round(round(round(round(SipState { v0: s.v0, v1: s.v1, v2: s.v2 ^ 0xffu64, v3: s.v3 }))));
    t.v0 ^ t.v1 ^ t.v2 ^ t.v3
}

/// The eight bytes of `h`, the lowest first.
pub open spec fn le_bytes(h: u64) -> Seq<u8> {
    seq![
        (h & 0xff) as u8,
        ((h >> 8) & 0xff) as u8,
        ((h >> 16) & 0xff) as u8,
        ((h >> 24) & 0xff) as u8,
        ((h >> 32) & 0xff) as u8,
        ((h >> 40) & 0xff) as u8,
        ((h >> 48) & 0xff) as u8,
        ((h >> 56) & 0xff) as u8,
    ]
}

/// The eight bytes of `h`, the lowest first.
pub fn to_le_bytes(h: u64) -> (r: Vec<u8>)
    ensures
        r@ == le_bytes(h),
{
    let mut r: Vec<u8> = Vec::new();
    assert((h & 0xff) <= 0xff && ((h >> 8) & 0xff) <= 0xff && ((h >> 16) & 0xff) <= 0xff && ((h
        >> 24) & 0xff) <= 0xff && ((h >> 32) & 0xff) <= 0xff && ((h >> 40) & 0xff) <= 0xff && ((h
        >> 48) & 0xff) <= 0xff && ((h >> 56) & 0xff) <= 0xff) by (bit_vector);
    r.push((h & 0xff) as u8);
    r.push(((h >> 8) & 0xff) as u8);
    r.push(((h >> 16) & 0xff) as u8);
    r.push(((h >> 24) & 0xff) as u8);
    r.push(((h >> 32) & 0xff) as u8);
    r.push(((h >> 40) & 0xff) as u8);
    r.push(((h >> 48) & 0xff) as u8);
    r.push(((h >> 56) & 0xff) as u8);
    assert(r@ =~= le_bytes(h));
    r
}

/// A word is told by its eight bytes.
pub proof fn lemma_le_bytes_tell_apart(g: u64, h: u64)
    requires
        le_bytes(g) == le_bytes(h),
    ensures
        g == h,
{
    let a = le_bytes(g);
    let b = le_bytes(h);
    assert(a[0] == b[0] && a[1] == b[1] && a[2] == b[2] && a[3] == b[3] && a[4] == b[4] && a[5]
        == b[5] && a[6] == b[6] && a[7] == b[7]);
    assert((g & 0xff) <= 0xff && ((g >> 8) & 0xff) <= 0xff && ((g >> 16) & 0xff) <= 0xff && ((g
        >> 24) & 0xff) <= 0xff && ((g >> 32) & 0xff) <= 0xff && ((g >> 40) & 0xff) <= 0xff && ((g
        >> 48) & 0xff) <= 0xff && ((g >> 56) & 0xff) <= 0xff) by (bit_vector);
    assert((h & 0xff) <= 0xff && ((h >> 8) & 0xff) <= 0xff && ((h >> 16) & 0xff) <= 0xff && ((h
        >> 24) & 0xff) <= 0xff && ((h >> 32) & 0xff) <= 0xff && ((h >> 40) & 0xff) <= 0xff && ((h
        >> 48) & 0xff) <= 0xff && ((h >> 56) & 0xff) <= 0xff) by (bit_vector);
    assert((g & 0xff) == (h & 0xff) && ((g >> 8) & 0xff) == ((h >> 8) & 0xff) && ((g >> 16)
        & 0xff) == ((h >> 16) & 0xff) && ((g >> 24) & 0xff) == ((h >> 24) & 0xff) && ((g >> 32)
        & 0xff) == ((h >> 32) & 0xff) && ((g >> 40) & 0xff) == ((h >> 40) & 0xff) && ((g >> 48)
        & 0xff) == ((h >> 48) & 0xff) && ((g >> 56) & 0xff) == ((h >> 56) & 0xff));
    assert(((g & 0xff) == (h & 0xff) && ((g >> 8) & 0xff) == ((h >> 8) & 0xff) && ((g >> 16)
        & 0xff) == ((h >> 16) & 0xff) && ((g >> 24) & 0xff) == ((h >> 24) & 0xff) && ((g >> 32)
        & 0xff) == ((h >> 32) & 0xff) && ((g >> 40) & 0xff) == ((h >> 40) & 0xff) && ((g >> 48)
        & 0xff) == ((h >> 48) & 0xff) && ((g >> 56) & 0xff) == ((h >> 56) & 0xff)) ==> g == h)
        by (bit_vector);
}

} // verus!
