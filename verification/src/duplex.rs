//! The duplex construction over the Xoodoo permutation: phases, modes,
//! rates, and the low-level `up` / `down` / `absorb_any` / `squeeze_any`
//! operations with their domain-separation bytes.
//!
//! Everything an engine does is specified against [`DuplexModel`], a
//! mathematical image of an engine: the 48 state bytes, the mode and the
//! phase. Each executable operation's contract equates its effect with a
//! spec function on the model, so outputs are a pure function of the model
//! and the arguments.

use vstd::prelude::*;

use crate::xoodoo::{xoodoo_permute, xor_into, Xoodoo};

verus! {

broadcast use crate::xoodoo::lemma_xoodoo_len;

/// Whether an engine carries key material. Fixed at construction.
#[derive(Copy, Clone, Debug, Eq, PartialEq, Structural)]
pub enum Mode {
    Hash,
    Keyed,
}

/// What last produced the state: a permutation call (`Up`, output-facing)
/// or an absorption (`Down`, input-facing).
#[derive(Copy, Clone, Debug, Eq, PartialEq, Structural)]
pub enum Phase {
    Up,
    Down,
}

/// Absorb rate of an unkeyed engine, in bytes.
pub const HASH_ABSORB_RATE: usize = 16;

/// Squeeze rate of an unkeyed engine, in bytes.
pub const HASH_SQUEEZE_RATE: usize = 16;

/// Absorb rate of a keyed engine, in bytes.
pub const KEYED_ABSORB_RATE: usize = 44;

/// Squeeze rate of a keyed engine, in bytes.
pub const KEYED_SQUEEZE_RATE: usize = 24;

/// Rate at which ratchet material is squeezed and re-absorbed.
pub const RATCHET_RATE: usize = 16;

/// The absorb rate that a mode fixes.
pub open spec fn absorb_rate_of(m: Mode) -> int {
    match m {
        Mode::Hash => 16,
        Mode::Keyed => 44,
    }
}

/// The squeeze rate that a mode fixes.
pub open spec fn squeeze_rate_of(m: Mode) -> int {
    match m {
        Mode::Hash => 16,
        Mode::Keyed => 24,
    }
}

pub(crate) fn squeeze_rate_for(m: Mode) -> (r: usize)
    ensures
        r as int == squeeze_rate_of(m),
{
    match m {
        Mode::Hash => HASH_SQUEEZE_RATE,
        Mode::Keyed => KEYED_SQUEEZE_RATE,
    }
}

/// The mathematical image of a duplex engine.
pub struct DuplexModel {
    /// The 48 bytes of the permutation state.
    pub st: Seq<u8>,
    /// Whether the engine is keyed.
    pub mode: Mode,
    /// Which way the engine is facing.
    pub phase: Phase,
}

/// Shorthand constructor for a model.
pub open spec fn duplex(st: Seq<u8>, mode: Mode, phase: Phase) -> DuplexModel {
    DuplexModel { st, mode, phase }
}

impl DuplexModel {
    /// A model is well formed when its state holds exactly 48 bytes.
    pub open spec fn wf(self) -> bool {
        self.st.len() == 48
    }
}

/// The duplex `up` call: in keyed mode XOR the domain byte into the state's
/// last byte, then permute; the phase becomes `Up`.
pub open spec fn up_model(d: DuplexModel, cu: u8) -> DuplexModel {
    let st1 = if d.mode == Mode::Keyed {
        d.st.update(47, d.st[47] ^ cu)
    } else {
        d.st
    };
    DuplexModel { st: xoodoo_permute(st1), mode: d.mode, phase: Phase::Up }
}

/// The duplex `down` call: XOR `bin` in from offset 0, XOR the `0x01` frame
/// terminator just past it, and XOR the domain byte (masked to its lowest
/// bit in hash mode) into the last byte; the phase becomes `Down`. An
/// absent input is the empty sequence.
pub open spec fn down_model(d: DuplexModel, bin: Seq<u8>, cd: u8) -> DuplexModel
    recommends
        d.wf(),
        bin.len() <= absorb_rate_of(d.mode),
{
    let st1 = xor_into(d.st, bin);
    let st2 = st1.update(bin.len() as int, st1[bin.len() as int] ^ 0x01);
    let mask = if d.mode == Mode::Hash {
        cd & 0x01
    } else {
        cd
    };
    DuplexModel { st: st2.update(47, st2[47] ^ mask), mode: d.mode, phase: Phase::Down }
}

/// Re-permute if the engine is input-facing: the step taken before a first
/// absorption chunk when the previous call left the phase at `Down`.
pub open spec fn up_if_down(d: DuplexModel) -> DuplexModel {
    if d.phase != Phase::Up {
        up_model(d, 0x00)
    } else {
        d
    }
}

/// Absorption of every chunk after the first: each is preceded by a
/// re-permuting `up` and uses domain byte `0x00`.
pub open spec fn absorb_rest(d: DuplexModel, bin: Seq<u8>, rate: int) -> DuplexModel
    decreases bin.len(),
{
    if bin.len() == 0 {
        d
    } else if rate < 1 {
        d
    } else if bin.len() <= rate {
        down_model(up_model(d, 0x00), bin, 0x00)
    } else {
        absorb_rest(down_model(up_model(d, 0x00), bin.take(rate), 0x00), bin.skip(rate), rate)
    }
}

/// A whole `absorb_any` call: split `bin` into chunks of at most `rate`
/// bytes; at least one `down` happens even for empty input; only the first
/// chunk carries `cd`; a re-permuting `up` precedes the first chunk only if
/// the phase is `Down`, and every later chunk unconditionally.
pub open spec fn absorb_any_model(d: DuplexModel, bin: Seq<u8>, rate: int, cd: u8) -> DuplexModel
    recommends
        d.wf(),
        1 <= rate <= absorb_rate_of(d.mode),
{
    let d0 = up_if_down(d);
    if bin.len() <= rate {
        down_model(d0, bin, cd)
    } else {
        absorb_rest(down_model(d0, bin.take(rate), cd), bin.skip(rate), rate)
    }
}

/// State after squeezing `k` further output bytes, each chunk produced by
/// an empty `down` followed by an `up`.
pub open spec fn squeeze_cont_st(d: DuplexModel, k: int) -> DuplexModel
    decreases k,
{
    if k <= 0 {
        d
    } else {
        let r = squeeze_rate_of(d.mode);
        let c = if k <= r {
            k
        } else {
            r
        };
        squeeze_cont_st(up_model(down_model(d, Seq::empty(), 0x00), 0x00), k - c)
    }
}

/// The `k` further output bytes themselves.
pub open spec fn squeeze_cont_out(d: DuplexModel, k: int) -> Seq<u8>
    decreases k,
{
    if k <= 0 {
        Seq::empty()
    } else {
        let r = squeeze_rate_of(d.mode);
        let c = if k <= r {
            k
        } else {
            r
        };
        let d1 = up_model(down_model(d, Seq::empty(), 0x00), 0x00);
        d1.st.take(c) + squeeze_cont_out(d1, k - c)
    }
}

/// State after a whole `squeeze_any` call for `n` output bytes: one `up`
/// with the domain byte (even for `n == 0`), then continuation chunks.
pub open spec fn squeeze_any_st(d: DuplexModel, n: int, cu: u8) -> DuplexModel {
    let r = squeeze_rate_of(d.mode);
    let d1 = up_model(d, cu);
    squeeze_cont_st(d1, if n <= r {
        0
    } else {
        n - r
    })
}

/// The `n` bytes that the `squeeze_any` call writes.
pub open spec fn squeeze_any_out(d: DuplexModel, n: int, cu: u8) -> Seq<u8> {
    let r = squeeze_rate_of(d.mode);
    let c = if n <= r {
        n
    } else {
        r
    };
    let d1 = up_model(d, cu);
    d1.st.take(c) + squeeze_cont_out(d1, if n <= r {
        0
    } else {
        n - r
    })
}

/// Squeezed continuation output has exactly the requested length.
pub proof fn lemma_squeeze_cont_out_len(d: DuplexModel, k: int)
    ensures
        squeeze_cont_out(d, k).len() == if k <= 0 {
            0
        } else {
            k
        },
    decreases k,
{
    broadcast use crate::xoodoo::lemma_permute_len;

    if k > 0 {
        let r = squeeze_rate_of(d.mode);
        let c = if k <= r {
            k
        } else {
            r
        };
        let d1 = up_model(down_model(d, Seq::empty(), 0x00), 0x00);
        lemma_squeeze_cont_out_len(d1, k - c);
    }
}

/// A whole squeeze writes exactly the requested number of bytes.
pub proof fn lemma_squeeze_any_out_len(d: DuplexModel, n: int, cu: u8)
    ensures
        n >= 0 ==> squeeze_any_out(d, n, cu).len() == n,
{
    broadcast use crate::xoodoo::lemma_permute_len;

    let r = squeeze_rate_of(d.mode);
    let d1 = up_model(d, cu);
    lemma_squeeze_cont_out_len(d1, if n <= r {
        0
    } else {
        n - r
    });
}

/// The state of the all-zero engine start.
pub open spec fn zero_state() -> Seq<u8> {
    Seq::new(48, |i: int| 0u8)
}

/// A public `absorb` call: `absorb_any` at the mode's rate with domain
/// byte `0x03`.
pub open spec fn absorb_model(d: DuplexModel, bin: Seq<u8>) -> DuplexModel {
    absorb_any_model(d, bin, absorb_rate_of(d.mode), 0x03)
}

/// A public `absorb_more` call: continuation chunks only, every one
/// preceded by a re-permuting `up`, none carrying a domain byte.
pub open spec fn absorb_more_model(d: DuplexModel, bin: Seq<u8>, rate: int) -> DuplexModel {
    absorb_rest(d, bin, rate)
}

/// State after a public `squeeze` of `n` bytes (domain byte `0x40`).
pub open spec fn squeeze_st_model(d: DuplexModel, n: int) -> DuplexModel {
    squeeze_any_st(d, n, 0x40)
}

/// The `n` bytes a public `squeeze` writes.
pub open spec fn squeeze_out_model(d: DuplexModel, n: int) -> Seq<u8> {
    squeeze_any_out(d, n, 0x40)
}

/// State after a `squeeze_key` of `n` bytes (domain byte `0x20`, reserved
/// for key derivation).
pub open spec fn squeeze_key_st_model(d: DuplexModel, n: int) -> DuplexModel {
    squeeze_any_st(d, n, 0x20)
}

/// The `n` bytes a `squeeze_key` writes.
pub open spec fn squeeze_key_out_model(d: DuplexModel, n: int) -> Seq<u8> {
    squeeze_any_out(d, n, 0x20)
}

/// A vector of `len` zero bytes.
pub(crate) fn zero_vec(len: usize) -> (r: Vec<u8>)
    ensures
        r@ == Seq::new(len as nat, |i: int| 0u8),
{
    let mut r: Vec<u8> = Vec::new();
    let mut i: usize = 0;
    while i < len
        invariant
            i <= len,
            r@.len() == i,
            forall|j: int| 0 <= j < i ==> r@[j] == 0u8,
        decreases len - i,
    {
        r.push(0u8);
        i += 1;
    }
    proof {
        assert(r@ =~= Seq::new(len as nat, |i: int| 0u8));
    }
    r
}

/// Append every byte of `src` to `dst`.
pub(crate) fn push_all(dst: &mut Vec<u8>, src: &[u8])
    ensures
        final(dst)@ == old(dst)@ + src@,
{
    let ghost base = dst@;
    let n = src.len();
    let mut i: usize = 0;
    while i < n
        invariant
            i <= n,
            n == src@.len(),
            dst@ == base + src@.take(i as int),
        decreases n - i,
    {
        dst.push(src[i]);
        i += 1;
        proof {
            assert(base + src@.take(i - 1) + seq![src@[i - 1]] =~= base + src@.take(i as int));
            assert(dst@ =~= base + src@.take(i - 1) + seq![src@[i - 1]]);
        }
    }
    proof {
        assert(base + src@.take(n as int) =~= base + src@);
    }
}

/// Copy `src` over the first `src.len()` bytes of `out`.
pub(crate) fn copy_into(out: &mut [u8], src: &[u8])
    requires
        src@.len() <= old(out)@.len(),
    ensures
        final(out)@ == src@ + old(out)@.skip(src@.len() as int),
{
    let n = src.len();
    let mut i: usize = 0;
    while i < n
        invariant
            i <= n,
            n == src@.len() <= out@.len(),
            out@.len() == old(out)@.len(),
            forall|j: int| 0 <= j < i ==> out@[j] == src@[j],
            forall|j: int| i <= j < out@.len() ==> out@[j] == old(out)@[j],
        decreases n - i,
    {
        out[i] = src[i];
        i += 1;
    }
    proof {
        assert(out@ =~= src@ + old(out)@.skip(n as int));
    }
}

/// The duplex `up` call on an engine's parts.
pub(crate) fn up_core(st: &mut Xoodoo, phase: &mut Phase, mode: Mode, cu: u8)
    ensures
        duplex(final(st)@, mode, *final(phase)) == up_model(
            duplex(old(st)@, mode, *old(phase)),
            cu,
        ),
{
    *phase = Phase::Up;
    if mode == Mode::Keyed {
        st.add_byte(cu, 47);
    }
    st.permute();
}

/// The duplex `down` call on an engine's parts; an absent input is the
/// empty slice.
pub(crate) fn down_core(st: &mut Xoodoo, phase: &mut Phase, mode: Mode, bin: &[u8], cd: u8)
    requires
        bin@.len() <= absorb_rate_of(mode),
    ensures
        duplex(final(st)@, mode, *final(phase)) == down_model(
            duplex(old(st)@, mode, *old(phase)),
            bin@,
            cd,
        ),
{
    *phase = Phase::Down;
    st.add_bytes(bin);
    st.add_byte(0x01, bin.len());
    let mask = if mode == Mode::Hash {
        cd & 0x01
    } else {
        cd
    };
    st.add_byte(mask, 47);
}

/// The duplex `down` call with no input at all: pad at offset 0.
pub(crate) fn down_empty_core(st: &mut Xoodoo, phase: &mut Phase, mode: Mode, cd: u8)
    ensures
        duplex(final(st)@, mode, *final(phase)) == down_model(
            duplex(old(st)@, mode, *old(phase)),
            Seq::empty(),
            cd,
        ),
{
    *phase = Phase::Down;
    st.add_byte(0x01, 0);
    let mask = if mode == Mode::Hash {
        cd & 0x01
    } else {
        cd
    };
    st.add_byte(mask, 47);
    proof {
        let d = duplex(old(st)@, mode, *old(phase));
        assert(xor_into(d.st, Seq::empty()) =~= d.st);
    }
}

/// A whole `absorb_any` call on an engine's parts.
pub(crate) fn absorb_any_core(
    st: &mut Xoodoo,
    phase: &mut Phase,
    mode: Mode,
    bin: &[u8],
    rate: usize,
    cd: u8,
)
    requires
        1 <= rate <= absorb_rate_of(mode),
    ensures
        duplex(final(st)@, mode, *final(phase)) == absorb_any_model(
            duplex(old(st)@, mode, *old(phase)),
            bin@,
            rate as int,
            cd,
        ),
{
    let ghost d0 = duplex(st@, mode, *phase);
    let ghost target = absorb_any_model(d0, bin@, rate as int, cd);
    let n = bin.len();
    if !(*phase == Phase::Up) {
        up_core(st, phase, mode, 0x00);
    }
    let c0 = if n <= rate {
        n
    } else {
        rate
    };
    let chunk = vstd::slice::slice_subrange(bin, 0, c0);
    proof {
        if n <= rate {
            assert(chunk@ =~= bin@);
        } else {
            assert(chunk@ =~= bin@.take(rate as int));
        }
    }
    down_core(st, phase, mode, chunk, cd);
    let mut pos = c0;
    proof {
        if n <= rate {
            assert(bin@.skip(pos as int) =~= Seq::<u8>::empty());
        }
        assert(target == absorb_rest(duplex(st@, mode, *phase), bin@.skip(pos as int), rate as int));
    }
    while pos < n
        invariant
            1 <= rate <= absorb_rate_of(mode),
            pos <= n,
            n == bin@.len(),
            target == absorb_rest(
                duplex(st@, mode, *phase),
                bin@.skip(pos as int),
                rate as int,
            ),
        decreases n - pos,
    {
        let ghost cur = duplex(st@, mode, *phase);
        let ghost rest = bin@.skip(pos as int);
        let c = if n - pos <= rate {
            n - pos
        } else {
            rate
        };
        up_core(st, phase, mode, 0x00);
        let chunk = vstd::slice::slice_subrange(bin, pos, pos + c);
        proof {
            if rest.len() <= rate {
                assert(chunk@ =~= rest);
            } else {
                assert(chunk@ =~= rest.take(rate as int));
            }
        }
        down_core(st, phase, mode, chunk, 0x00);
        pos = pos + c;
        proof {
            assert(bin@.skip(pos as int) =~= rest.skip(c as int));
            if rest.len() <= rate {
                assert(bin@.skip(pos as int) =~= Seq::<u8>::empty());
            }
        }
    }
    proof {
        assert(bin@.skip(n as int) =~= Seq::<u8>::empty());
    }
}

/// An `absorb_more` call on an engine's parts: continuation chunks only.
pub(crate) fn absorb_more_core(
    st: &mut Xoodoo,
    phase: &mut Phase,
    mode: Mode,
    bin: &[u8],
    rate: usize,
)
    requires
        1 <= rate <= absorb_rate_of(mode),
    ensures
        duplex(final(st)@, mode, *final(phase)) == absorb_more_model(
            duplex(old(st)@, mode, *old(phase)),
            bin@,
            rate as int,
        ),
{
    let ghost d0 = duplex(st@, mode, *phase);
    let ghost target = absorb_more_model(d0, bin@, rate as int);
    let n = bin.len();
    let mut pos: usize = 0;
    proof {
        assert(bin@.skip(0) =~= bin@);
    }
    while pos < n
        invariant
            1 <= rate <= absorb_rate_of(mode),
            pos <= n,
            n == bin@.len(),
            target == absorb_rest(duplex(st@, mode, *phase), bin@.skip(pos as int), rate as int),
        decreases n - pos,
    {
        let ghost rest = bin@.skip(pos as int);
        let c = if n - pos <= rate {
            n - pos
        } else {
            rate
        };
        up_core(st, phase, mode, 0x00);
        let chunk = vstd::slice::slice_subrange(bin, pos, pos + c);
        proof {
            if rest.len() <= rate {
                assert(chunk@ =~= rest);
            } else {
                assert(chunk@ =~= rest.take(rate as int));
            }
        }
        down_core(st, phase, mode, chunk, 0x00);
        pos = pos + c;
        proof {
            assert(bin@.skip(pos as int) =~= rest.skip(c as int));
            if rest.len() <= rate {
                assert(bin@.skip(pos as int) =~= Seq::<u8>::empty());
            }
        }
    }
    proof {
        assert(bin@.skip(n as int) =~= Seq::<u8>::empty());
    }
}

/// A whole `squeeze_any` call on an engine's parts, filling `out`.
pub(crate) fn squeeze_any_core(st: &mut Xoodoo, phase: &mut Phase, mode: Mode, out: &mut [u8], cu: u8)
    ensures
        ({
            let d0 = duplex(old(st)@, mode, *old(phase));
            duplex(final(st)@, mode, *final(phase)) == squeeze_any_st(d0, old(out)@.len() as int, cu)
                && final(out)@ == squeeze_any_out(d0, old(out)@.len() as int, cu)
        }),
{
    let ghost d0 = duplex(st@, mode, *phase);
    let n = out.len();
    let rate = squeeze_rate_for(mode);
    up_core(st, phase, mode, cu);
    let c0 = if n <= rate {
        n
    } else {
        rate
    };
    let ghost before = out@;
    let mut k: usize = 0;
    while k < c0
        invariant
            k <= c0,
            c0 <= n,
            c0 <= 48,
            out@.len() == n,
            st@.len() == 48,
            forall|j: int| 0 <= j < k ==> out@[j] == st@[j],
            forall|j: int| k <= j < n ==> out@[j] == before[j],
        decreases c0 - k,
    {
        out[k] = st.byte_at(k);
        k += 1;
    }
    let mut pos = c0;
    proof {
        assert(out@.take(pos as int) =~= st@.take(pos as int));
        assert(squeeze_any_st(d0, n as int, cu) == squeeze_cont_st(
            duplex(st@, mode, *phase),
            n - pos,
        ));
        assert(squeeze_any_out(d0, n as int, cu) =~= out@.take(pos as int) + squeeze_cont_out(
            duplex(st@, mode, *phase),
            n - pos,
        ));
    }
    while pos < n
        invariant
            pos <= n,
            n == out@.len(),
            st@.len() == 48,
            rate as int == squeeze_rate_of(mode),
            squeeze_any_st(d0, n as int, cu) == squeeze_cont_st(
                duplex(st@, mode, *phase),
                n - pos,
            ),
            squeeze_any_out(d0, n as int, cu) == out@.take(pos as int) + squeeze_cont_out(
                duplex(st@, mode, *phase),
                n - pos,
            ),
        decreases n - pos,
    {
        let ghost cur = duplex(st@, mode, *phase);
        down_empty_core(st, phase, mode, 0x00);
        up_core(st, phase, mode, 0x00);
        let c = if n - pos <= rate {
            n - pos
        } else {
            rate
        };
        let ghost mid = out@;
        let mut k: usize = 0;
        while k < c
            invariant
                k <= c,
                pos + c <= n,
                c <= 48,
                out@.len() == n,
                st@.len() == 48,
                forall|j: int| 0 <= j < k ==> out@[pos + j] == st@[j],
                forall|j: int| 0 <= j < n && !(pos <= j < pos + k) ==> out@[j] == mid[j],
            decreases c - k,
        {
            out[pos + k] = st.byte_at(k);
            k += 1;
        }
        proof {
            let nxt = duplex(st@, mode, *phase);
            assert(nxt == up_model(down_model(cur, Seq::empty(), 0x00), 0x00));
            assert(out@.take((pos + c) as int) =~= out@.take(pos as int) + st@.take(c as int));
            assert(out@.take(pos as int) =~= mid.take(pos as int));
            assert(squeeze_cont_out(cur, n - pos) == st@.take(c as int) + squeeze_cont_out(
                nxt,
                n - pos - c,
            ));
            assert(squeeze_any_out(d0, n as int, cu) == out@.take((pos + c) as int)
                + squeeze_cont_out(nxt, n - pos - c));
        }
        pos = pos + c;
    }
    proof {
        assert(out@.take(n as int) =~= out@);
        assert(squeeze_any_out(d0, n as int, cu) =~= out@);
    }
}

/// Continue extendable output: every chunk, the first included, is produced
/// by an empty `down` then an `up`, with no fresh domain byte.
pub(crate) fn squeeze_more_core(st: &mut Xoodoo, phase: &mut Phase, mode: Mode, out: &mut [u8])
    ensures
        ({
            let d0 = duplex(old(st)@, mode, *old(phase));
            duplex(final(st)@, mode, *final(phase)) == squeeze_cont_st(d0, old(out)@.len() as int)
                && final(out)@ == squeeze_cont_out(d0, old(out)@.len() as int)
        }),
{
    let ghost d0 = duplex(st@, mode, *phase);
    let n = out.len();
    let rate = squeeze_rate_for(mode);
    let mut pos: usize = 0;
    proof {
        assert(squeeze_cont_out(d0, n as int) =~= out@.take(0) + squeeze_cont_out(d0, n as int));
    }
    while pos < n
        invariant
            pos <= n,
            n == out@.len(),
            st@.len() == 48,
            rate as int == squeeze_rate_of(mode),
            squeeze_cont_st(d0, n as int) == squeeze_cont_st(duplex(st@, mode, *phase), n - pos),
            squeeze_cont_out(d0, n as int) == out@.take(pos as int) + squeeze_cont_out(
                duplex(st@, mode, *phase),
                n - pos,
            ),
        decreases n - pos,
    {
        let ghost cur = duplex(st@, mode, *phase);
        down_empty_core(st, phase, mode, 0x00);
        up_core(st, phase, mode, 0x00);
        let c = if n - pos <= rate {
            n - pos
        } else {
            rate
        };
        let ghost mid = out@;
        let mut k: usize = 0;
        while k < c
            invariant
                k <= c,
                pos + c <= n,
                c <= 48,
                out@.len() == n,
                st@.len() == 48,
                forall|j: int| 0 <= j < k ==> out@[pos + j] == st@[j],
                forall|j: int| 0 <= j < n && !(pos <= j < pos + k) ==> out@[j] == mid[j],
            decreases c - k,
        {
            out[pos + k] = st.byte_at(k);
            k += 1;
        }
        proof {
            let nxt = duplex(st@, mode, *phase);
            assert(out@.take((pos + c) as int) =~= out@.take(pos as int) + st@.take(c as int));
            assert(out@.take(pos as int) =~= mid.take(pos as int));
            assert(squeeze_cont_out(cur, n - pos) == st@.take(c as int) + squeeze_cont_out(
                nxt,
                n - pos - c,
            ));
            assert(squeeze_cont_out(d0, n as int) == out@.take((pos + c) as int)
                + squeeze_cont_out(nxt, n - pos - c));
        }
        pos = pos + c;
    }
    proof {
        assert(out@.take(n as int) =~= out@);
        assert(squeeze_cont_out(d0, n as int) =~= out@);
    }
}

} // verus!
