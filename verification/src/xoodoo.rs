//! The Xoodoo permutation: a 48-byte (twelve 32-bit little-endian words)
//! state and a 12-round invertible transform, together with the byte-level
//! primitives the duplex construction needs.

use vstd::prelude::*;
use zeroize::Zeroize;

verus! {

/// The round constant XOR-ed into word 0 on round `i` (0-based).
pub open spec fn round_constant(i: int) -> u32 {
    if i == 0 {
        0x058
    } else if i == 1 {
        0x038
    } else if i == 2 {
        0x3c0
    } else if i == 3 {
        0x0d0
    } else if i == 4 {
        0x120
    } else if i == 5 {
        0x014
    } else if i == 6 {
        0x060
    } else if i == 7 {
        0x02c
    } else if i == 8 {
        0x380
    } else if i == 9 {
        0x0f0
    } else if i == 10 {
        0x1a0
    } else {
        0x012
    }
}

fn round_constant_at(i: usize) -> (r: u32)
    requires
        i < 12,
    ensures
        r == round_constant(i as int),
{
    if i == 0 {
        0x058
    } else if i == 1 {
        0x038
    } else if i == 2 {
        0x3c0
    } else if i == 3 {
        0x0d0
    } else if i == 4 {
        0x120
    } else if i == 5 {
        0x014
    } else if i == 6 {
        0x060
    } else if i == 7 {
        0x02c
    } else if i == 8 {
        0x380
    } else if i == 9 {
        0x0f0
    } else if i == 10 {
        0x1a0
    } else {
        0x012
    }
}

/// Left rotation of a 32-bit word.
pub open spec fn rotl(x: u32, n: u32) -> u32
    recommends
        0 < n < 32,
{
    (x << n) | (x >> ((32 - n) as u32))
}

fn rotl_exec(x: u32, n: u32) -> (r: u32)
    requires
        0 < n < 32,
    ensures
        r == rotl(x, n),
{
    (x << n) | (x >> (32 - n))
}

/// Little-endian 32-bit word assembled from `b[4i] .. b[4i+3]`.
pub open spec fn le_word(b: Seq<u8>, i: int) -> u32
    recommends
        0 <= i,
        4 * i + 3 < b.len(),
{
    (b[4 * i] as u32) | ((b[4 * i + 1] as u32) << 8u32) | ((b[4 * i + 2] as u32) << 16u32) | ((b[4
        * i + 3] as u32) << 24u32)
}

/// The twelve words of a 48-byte state, little-endian.
pub open spec fn bytes_to_words(b: Seq<u8>) -> Seq<u32>
    recommends
        b.len() == 48,
{
    Seq::new(12, |i: int| le_word(b, i))
}

/// Byte `k` (0-based, little-endian) of a 32-bit word.
pub open spec fn word_byte(w: u32, k: int) -> u8
    recommends
        0 <= k < 4,
{
    if k == 0 {
        (w & 0xff) as u8
    } else if k == 1 {
        ((w >> 8u32) & 0xff) as u8
    } else if k == 2 {
        ((w >> 16u32) & 0xff) as u8
    } else {
        ((w >> 24u32) & 0xff) as u8
    }
}

/// The 48-byte little-endian serialization of twelve 32-bit words.
pub open spec fn words_to_bytes(ws: Seq<u32>) -> Seq<u8>
    recommends
        ws.len() == 12,
{
    Seq::new(48, |i: int| word_byte(ws[i / 4], i % 4))
}

/// One Xoodoo round on the twelve-word state: plane parity and rotated
/// mixing (theta), round-constant addition (iota), plane shuffle (rho-west),
/// the nonlinear AND-NOT layer (chi) and the final rotations (rho-east).
pub open spec fn xoodoo_round(s: Seq<u32>, rk: u32) -> Seq<u32>
    recommends
        s.len() == 12,
{
    let p0 = s[0] ^ s[4] ^ s[8];
    let p1 = s[1] ^ s[5] ^ s[9];
    let p2 = s[2] ^ s[6] ^ s[10];
    let p3 = s[3] ^ s[7] ^ s[11];
    let e0 = rotl(p3, 5) ^ rotl(p3, 14);
    let e1 = rotl(p0, 5) ^ rotl(p0, 14);
    let e2 = rotl(p1, 5) ^ rotl(p1, 14);
    let e3 = rotl(p2, 5) ^ rotl(p2, 14);
    let t0 = e0 ^ s[0] ^ rk;
    let t1 = e1 ^ s[1];
    let t2 = e2 ^ s[2];
    let t3 = e3 ^ s[3];
    let t4 = e3 ^ s[7];
    let t5 = e0 ^ s[4];
    let t6 = e1 ^ s[5];
    let t7 = e2 ^ s[6];
    let t8 = rotl(e0 ^ s[8], 11);
    let t9 = rotl(e1 ^ s[9], 11);
    let t10 = rotl(e2 ^ s[10], 11);
    let t11 = rotl(e3 ^ s[11], 11);
    seq![
        (!t4 & t8) ^ t0,
        (!t5 & t9) ^ t1,
        (!t6 & t10) ^ t2,
        (!t7 & t11) ^ t3,
        rotl((!t8 & t0) ^ t4, 1),
        rotl((!t9 & t1) ^ t5, 1),
        rotl((!t10 & t2) ^ t6, 1),
        rotl((!t11 & t3) ^ t7, 1),
        rotl((!t2 & t6) ^ t10, 8),
        rotl((!t3 & t7) ^ t11, 8),
        rotl((!t0 & t4) ^ t8, 8),
        rotl((!t1 & t5) ^ t9, 8),
    ]
}

/// The first `n` rounds of the permutation, in round-constant order.
pub open spec fn xoodoo_rounds(s: Seq<u32>, n: int) -> Seq<u32>
    decreases n,
{
    if n <= 0 {
        s
    } else {
        xoodoo_round(xoodoo_rounds(s, n - 1), round_constant(n - 1))
    }
}

/// The full 12-round Xoodoo permutation on the byte view of the state.
pub open spec fn xoodoo_permute(b: Seq<u8>) -> Seq<u8>
    recommends
        b.len() == 48,
{
    words_to_bytes(xoodoo_rounds(bytes_to_words(b), 12))
}

/// XOR `data` into the first `data.len()` positions of `st`.
pub open spec fn xor_into(st: Seq<u8>, data: Seq<u8>) -> Seq<u8>
    recommends
        data.len() <= st.len(),
{
    Seq::new(st.len(), |i: int| if i < data.len() { st[i] ^ data[i] } else { st[i] })
}

/// A Xoodoo permutation state: 48 bytes, fixed for the life of the value,
/// wiped on release.
#[derive(Clone, Debug)]
pub struct Xoodoo {
    st: [u8; 48],
}

impl View for Xoodoo {
    type V = Seq<u8>;

    closed spec fn view(&self) -> Seq<u8> {
        self.st@
    }
}

/// A permutation state always holds exactly 48 bytes.
pub broadcast proof fn lemma_xoodoo_len(x: Xoodoo)
    ensures
        (#[trigger] x@.len()) == 48,
{
}

/// The permutation always yields exactly 48 bytes.
pub broadcast proof fn lemma_permute_len(b: Seq<u8>)
    ensures
        (#[trigger] xoodoo_permute(b)).len() == 48,
{
}

/// Relies on `zeroize::Zeroize` for `[u8; 48]`: overwrites every byte of the
/// array with zero, in place, through writes the compiler will not elide.
#[verifier::external_body]
fn wipe_state(buf: &mut [u8; 48])
    ensures
        final(buf)@ == Seq::new(48, |i: int| 0u8),
    opens_invariants none
    no_unwind
{
    buf.zeroize();
}

impl Xoodoo {
    /// The all-zero starting state.
    pub fn new() -> (r: Self)
        ensures
            r@ == Seq::new(48, |i: int| 0u8),
    {
        let st = [0u8; 48];
        proof {
            assert(st@ =~= Seq::new(48, |i: int| 0u8));
        }
        Xoodoo { st }
    }

    /// A state initialized from 48 given bytes.
    pub fn from_bytes(bytes: [u8; 48]) -> (r: Self)
        ensures
            r@ == bytes@,
    {
        Xoodoo { st: bytes }
    }

    /// Copy the whole state into `out`.
    pub fn bytes(&self, out: &mut [u8; 48])
        ensures
            final(out)@ == self@,
    {
        let mut i: usize = 0;
        while i < 48
            invariant
                i <= 48,
                out@.len() == 48,
                self@.len() == 48,
                forall|j: int| 0 <= j < i ==> out@[j] == self@[j],
            decreases 48 - i,
        {
            out[i] = self.st[i];
            i += 1;
        }
        proof {
            assert(out@ =~= self@);
        }
    }

    /// Read one byte of the state.
    pub fn byte_at(&self, offset: usize) -> (r: u8)
        requires
            offset < 48,
        ensures
            r == self@[offset as int],
    {
        self.st[offset]
    }

    /// XOR one byte into the state at `offset`.
    pub fn add_byte(&mut self, byte: u8, offset: usize)
        requires
            offset < 48,
        ensures
            final(self)@ == old(self)@.update(offset as int, old(self)@[offset as int] ^ byte),
    {
        self.st[offset] = self.st[offset] ^ byte;
        proof {
            assert(self@ =~= old(self)@.update(offset as int, old(self)@[offset as int] ^ byte));
        }
    }

    /// XOR `bytes` into the state, starting at offset 0.
    pub fn add_bytes(&mut self, bytes: &[u8])
        requires
            bytes@.len() <= 48,
        ensures
            final(self)@ == xor_into(old(self)@, bytes@),
    {
        let n = bytes.len();
        let mut i: usize = 0;
        while i < n
            invariant
                i <= n,
                n == bytes@.len() <= 48,
                self@.len() == 48,
                forall|j: int| 0 <= j < i ==> self@[j] == old(self)@[j] ^ bytes@[j],
                forall|j: int| i <= j < 48 ==> self@[j] == old(self)@[j],
            decreases n - i,
        {
            self.st[i] = self.st[i] ^ bytes[i];
            i += 1;
        }
        proof {
            assert(self@ =~= xor_into(old(self)@, bytes@));
        }
    }

    /// Copy the first `out.len()` bytes of the state into `out`.
    pub fn extract_bytes(&self, out: &mut [u8])
        requires
            old(out)@.len() <= 48,
        ensures
            final(out)@ == self@.take(old(out)@.len() as int),
    {
        let n = out.len();
        let mut i: usize = 0;
        while i < n
            invariant
                i <= n,
                n == out@.len() <= 48,
                self@.len() == 48,
                forall|j: int| 0 <= j < i ==> out@[j] == self@[j],
            decreases n - i,
        {
            out[i] = self.byte_at(i);
            i += 1;
        }
        proof {
            assert(out@ =~= self@.take(n as int));
        }
    }

    /// The state as twelve little-endian words.
    fn to_words(&self) -> (ws: Vec<u32>)
        ensures
            ws@ == bytes_to_words(self@),
    {
        let mut ws: Vec<u32> = Vec::new();
        let mut i: usize = 0;
        while i < 12
            invariant
                i <= 12,
                self@.len() == 48,
                ws@.len() == i,
                forall|j: int| 0 <= j < i ==> ws@[j] == le_word(self@, j),
            decreases 12 - i,
        {
            let w = (self.st[4 * i] as u32) | ((self.st[4 * i + 1] as u32) << 8) | ((self.st[4 * i
                + 2] as u32) << 16) | ((self.st[4 * i + 3] as u32) << 24);
            ws.push(w);
            i += 1;
        }
        proof {
            assert(ws@ =~= bytes_to_words(self@));
        }
        ws
    }

    /// Overwrite the state with the little-endian bytes of twelve words.
    fn set_words(&mut self, ws: &Vec<u32>)
        requires
            ws@.len() == 12,
        ensures
            final(self)@ == words_to_bytes(ws@),
    {
        let mut i: usize = 0;
        while i < 12
            invariant
                i <= 12,
                ws@.len() == 12,
                self@.len() == 48,
                forall|j: int| 0 <= j < 4 * i ==> self@[j] == word_byte(ws@[j / 4], j % 4),
            decreases 12 - i,
        {
            let w = ws[i];
            proof {
                assert(w & 0xff < 256 && (w >> 8u32) & 0xff < 256 && (w >> 16u32) & 0xff < 256 && (
                w >> 24u32) & 0xff < 256) by (bit_vector);
            }
            self.st[4 * i] = (w & 0xff) as u8;
            self.st[4 * i + 1] = ((w >> 8) & 0xff) as u8;
            self.st[4 * i + 2] = ((w >> 16) & 0xff) as u8;
            self.st[4 * i + 3] = ((w >> 24) & 0xff) as u8;
            i += 1;
        }
        proof {
            assert(self@ =~= words_to_bytes(ws@));
        }
    }

    /// One round of the permutation on the word vector.
    fn round(ws: &mut Vec<u32>, rk: u32)
        requires
            old(ws)@.len() == 12,
        ensures
            final(ws)@ == xoodoo_round(old(ws)@, rk),
    {
        let s0 = ws[0];
        let s1 = ws[1];
        let s2 = ws[2];
        let s3 = ws[3];
        let s4 = ws[4];
        let s5 = ws[5];
        let s6 = ws[6];
        let s7 = ws[7];
        let s8 = ws[8];
        let s9 = ws[9];
        let s10 = ws[10];
        let s11 = ws[11];
        let p0 = s0 ^ s4 ^ s8;
        let p1 = s1 ^ s5 ^ s9;
        let p2 = s2 ^ s6 ^ s10;
        let p3 = s3 ^ s7 ^ s11;
        let e0 = rotl_exec(p3, 5) ^ rotl_exec(p3, 14);
        let e1 = rotl_exec(p0, 5) ^ rotl_exec(p0, 14);
        let e2 = rotl_exec(p1, 5) ^ rotl_exec(p1, 14);
        let e3 = rotl_exec(p2, 5) ^ rotl_exec(p2, 14);
        let t0 = e0 ^ s0 ^ rk;
        let t1 = e1 ^ s1;
        let t2 = e2 ^ s2;
        let t3 = e3 ^ s3;
        let t4 = e3 ^ s7;
        let t5 = e0 ^ s4;
        let t6 = e1 ^ s5;
        let t7 = e2 ^ s6;
        let t8 = rotl_exec(e0 ^ s8, 11);
        let t9 = rotl_exec(e1 ^ s9, 11);
        let t10 = rotl_exec(e2 ^ s10, 11);
        let t11 = rotl_exec(e3 ^ s11, 11);
        let mut nw: Vec<u32> = Vec::new();
        nw.push((!t4 & t8) ^ t0);
        nw.push((!t5 & t9) ^ t1);
        nw.push((!t6 & t10) ^ t2);
        nw.push((!t7 & t11) ^ t3);
        nw.push(rotl_exec((!t8 & t0) ^ t4, 1));
        nw.push(rotl_exec((!t9 & t1) ^ t5, 1));
        nw.push(rotl_exec((!t10 & t2) ^ t6, 1));
        nw.push(rotl_exec((!t11 & t3) ^ t7, 1));
        nw.push(rotl_exec((!t2 & t6) ^ t10, 8));
        nw.push(rotl_exec((!t3 & t7) ^ t11, 8));
        nw.push(rotl_exec((!t0 & t4) ^ t8, 8));
        nw.push(rotl_exec((!t1 & t5) ^ t9, 8));
        proof {
            assert(nw@ =~= xoodoo_round(ws@, rk));
        }
        *ws = nw;
    }

    /// Apply the full 12-round Xoodoo permutation to the state.
    pub fn permute(&mut self)
        ensures
            final(self)@ == xoodoo_permute(old(self)@),
    {
        let mut ws = self.to_words();
        let mut i: usize = 0;
        while i < 12
            invariant
                i <= 12,
                ws@ == xoodoo_rounds(bytes_to_words(old(self)@), i as int),
                self == old(self),
            decreases 12 - i,
        {
            let rk = round_constant_at(i);
            Self::round(&mut ws, rk);
            i += 1;
        }
        self.set_words(&ws);
    }
}

impl Default for Xoodoo {
    /// The all-zero starting state.
    fn default() -> (r: Self)
        ensures
            r@ == Seq::new(48, |i: int| 0u8),
    {
        Xoodoo::new()
    }
}

impl Drop for Xoodoo {
    /// Wipe the state on release, on every exit path.
    fn drop(&mut self)
        opens_invariants none
        no_unwind
    {
        wipe_state(&mut self.st);
    }
}

} // verus!
