//! The keyed engine: construction from key material, stream encryption and
//! decryption, authenticated encryption and ratcheting.

use vstd::prelude::*;

use crate::common::XoodyakCommon;
use crate::duplex::{
    absorb_any_core, absorb_any_model, absorb_more_core, copy_into, duplex, push_all,
    squeeze_any_core, squeeze_any_out, squeeze_any_st, squeeze_more_core, up_model, zero_state,
    zero_vec, DuplexModel, Mode, Phase, KEYED_ABSORB_RATE, KEYED_SQUEEZE_RATE, RATCHET_RATE,
};
use crate::duplex::down_model;
use crate::error::Error;
use crate::tag::{Tag, AUTH_TAG_BYTES};
use crate::xoodoo::Xoodoo;

verus! {

/// Bytewise XOR of two byte strings of equal length.
pub open spec fn xor_bytes(a: Seq<u8>, b: Seq<u8>) -> Seq<u8>
    recommends
        a.len() == b.len(),
{
    Seq::new(a.len(), |i: int| a[i] ^ b[i])
}

/// The bytes an `Option<&[u8]>` argument denotes: an absent input reads as
/// empty.
pub open spec fn opt_view(o: Option<&[u8]>) -> Seq<u8> {
    match o {
        Some(b) => b@,
        None => Seq::empty(),
    }
}

/// An `Option<&[u8]>` argument as an optional byte string, where presence
/// matters (an empty counter is still absorbed; an absent one is not).
pub open spec fn opt_seq(o: Option<&[u8]>) -> Option<Seq<u8>> {
    match o {
        Some(b) => Some(b@),
        None => None,
    }
}

/// State after encrypting or decrypting `m` (both drive the engine through
/// the same trajectory): per block of at most 24 bytes, an `up` carrying
/// `0x80` on the first block and `0x00` after, then a `down` absorbing the
/// plaintext block.
pub open spec fn encrypt_st(d: DuplexModel, m: Seq<u8>, cu: u8) -> DuplexModel
    decreases m.len(),
{
    if m.len() == 0 {
        d
    } else {
        let c = if m.len() <= 24 {
            m.len() as int
        } else {
            24
        };
        let d1 = up_model(d, cu);
        encrypt_st(down_model(d1, m.take(c), 0x00), m.skip(c), 0x00)
    }
}

/// The ciphertext of `m`: per block, the keystream is the state prefix
/// right after the `up` call, and the output block is keystream XOR
/// plaintext block.
pub open spec fn encrypt_ct(d: DuplexModel, m: Seq<u8>, cu: u8) -> Seq<u8>
    decreases m.len(),
{
    if m.len() == 0 {
        Seq::empty()
    } else {
        let c = if m.len() <= 24 {
            m.len() as int
        } else {
            24
        };
        let d1 = up_model(d, cu);
        xor_bytes(d1.st.take(c), m.take(c)) + encrypt_ct(down_model(d1, m.take(c), 0x00), m.skip(c), 0x00)
    }
}

/// State after decrypting ciphertext `cbin`: as `encrypt_st`, except that
/// each `down` absorbs the recovered plaintext block.
pub open spec fn decrypt_st(d: DuplexModel, cbin: Seq<u8>, cu: u8) -> DuplexModel
    decreases cbin.len(),
{
    if cbin.len() == 0 {
        d
    } else {
        let c = if cbin.len() <= 24 {
            cbin.len() as int
        } else {
            24
        };
        let d1 = up_model(d, cu);
        decrypt_st(
            down_model(d1, xor_bytes(d1.st.take(c), cbin.take(c)), 0x00),
            cbin.skip(c),
            0x00,
        )
    }
}

/// The plaintext recovered from ciphertext `cbin`.
pub open spec fn decrypt_pt(d: DuplexModel, cbin: Seq<u8>, cu: u8) -> Seq<u8>
    decreases cbin.len(),
{
    if cbin.len() == 0 {
        Seq::empty()
    } else {
        let c = if cbin.len() <= 24 {
            cbin.len() as int
        } else {
            24
        };
        let d1 = up_model(d, cu);
        xor_bytes(d1.st.take(c), cbin.take(c)) + decrypt_pt(
            down_model(d1, xor_bytes(d1.st.take(c), cbin.take(c)), 0x00),
            cbin.skip(c),
            0x00,
        )
    }
}

/// Ciphertext is exactly as long as plaintext.
pub proof fn lemma_encrypt_ct_len(d: DuplexModel, m: Seq<u8>, cu: u8)
    ensures
        encrypt_ct(d, m, cu).len() == m.len(),
    decreases m.len(),
{
    if m.len() > 0 {
        let c = if m.len() <= 24 {
            m.len() as int
        } else {
            24
        };
        let d1 = up_model(d, cu);
        lemma_encrypt_ct_len(down_model(d1, m.take(c), 0x00), m.skip(c), 0x00);
    }
}

/// Recovered plaintext is exactly as long as ciphertext.
pub proof fn lemma_decrypt_pt_len(d: DuplexModel, cbin: Seq<u8>, cu: u8)
    ensures
        decrypt_pt(d, cbin, cu).len() == cbin.len(),
    decreases cbin.len(),
{
    if cbin.len() > 0 {
        let c = if cbin.len() <= 24 {
            cbin.len() as int
        } else {
            24
        };
        let d1 = up_model(d, cu);
        lemma_decrypt_pt_len(
            down_model(d1, xor_bytes(d1.st.take(c), cbin.take(c)), 0x00),
            cbin.skip(c),
            0x00,
        );
    }
}

/// The IV block a keyed engine absorbs at construction:
/// `key || key_id_length_byte || key_id || nonce`.
pub open spec fn keyed_iv(key: Seq<u8>, key_id: Seq<u8>, nonce: Seq<u8>) -> Seq<u8> {
    key + seq![key_id.len() as u8] + key_id + nonce
}

/// Key material absorbed into an engine: the IV block at the keyed absorb
/// rate with domain byte `0x02`, then, when a counter is supplied, the
/// counter one byte per duplex block (rate 1) with domain byte `0x00`.
pub open spec fn absorb_key_model(
    d: DuplexModel,
    key: Seq<u8>,
    key_id: Seq<u8>,
    nonce: Seq<u8>,
    counter: Option<Seq<u8>>,
) -> DuplexModel {
    let d1 = absorb_any_model(d, keyed_iv(key, key_id, nonce), 44, 0x02);
    match counter {
        Some(c) => absorb_any_model(d1, c, 1, 0x00),
        None => d1,
    }
}

/// The model of a freshly constructed keyed engine.
pub open spec fn keyed_init(
    key: Seq<u8>,
    key_id: Seq<u8>,
    nonce: Seq<u8>,
    counter: Option<Seq<u8>>,
) -> DuplexModel {
    absorb_key_model(duplex(zero_state(), Mode::Keyed, Phase::Up), key, key_id, nonce, counter)
}

/// Whether key, key id and nonce fit the keyed absorb rate.
pub open spec fn keyed_params_fit(key: Seq<u8>, key_id: Seq<u8>, nonce: Seq<u8>) -> bool {
    key.len() + 1 + key_id.len() + nonce.len() <= 44
}

/// A ratchet: squeeze 16 bytes with the ratchet domain byte `0x10`, then
/// re-absorb them at rate 16, irreversibly advancing the key material.
pub open spec fn ratchet_model(d: DuplexModel) -> DuplexModel {
    absorb_any_model(squeeze_any_st(d, 16, 0x10), squeeze_any_out(d, 16, 0x10), 16, 0x00)
}

/// State after a detached AEAD encryption of `m`: encrypt, then squeeze a
/// 16-byte tag under the squeeze domain byte `0x40`.
pub open spec fn aead_enc_st(d: DuplexModel, m: Seq<u8>) -> DuplexModel {
    squeeze_any_st(encrypt_st(d, m, 0x80), 16, 0x40)
}

/// The tag a detached AEAD encryption of `m` returns.
pub open spec fn aead_enc_tag(d: DuplexModel, m: Seq<u8>) -> Seq<u8> {
    squeeze_any_out(encrypt_st(d, m, 0x80), 16, 0x40)
}

/// State after a detached AEAD decryption of ciphertext `c`: decrypt, then
/// squeeze the comparison tag.
pub open spec fn aead_dec_st(d: DuplexModel, c: Seq<u8>) -> DuplexModel {
    squeeze_any_st(decrypt_st(d, c, 0x80), 16, 0x40)
}

/// The tag a detached AEAD decryption of ciphertext `c` computes; the call
/// succeeds exactly when it equals the received tag.
pub open spec fn aead_dec_tag(d: DuplexModel, c: Seq<u8>) -> Seq<u8> {
    squeeze_any_out(decrypt_st(d, c, 0x80), 16, 0x40)
}

/// The all-zero byte string of length `n`.
pub open spec fn zero_bytes(n: int) -> Seq<u8> {
    Seq::new(n as nat, |i: int| 0u8)
}

/// A keyed duplex engine: mode `Keyed`, rates (44, 24), built over key
/// material and an optional key id, nonce and counter.
#[derive(Clone, Debug)]
pub struct XoodyakKeyed {
    state: Xoodoo,
    phase: Phase,
}

impl XoodyakKeyed {
    /// A fresh keyed engine. Fails with a parameter-length error exactly
    /// when `key.len() + 1 + key_id.len() + nonce.len()` exceeds the keyed
    /// absorb rate of 44 bytes.
    pub fn new(
        key: &[u8],
        nonce: Option<&[u8]>,
        key_id: Option<&[u8]>,
        counter: Option<&[u8]>,
    ) -> (r: Result<Self, Error>)
        ensures
            r is Ok <==> keyed_params_fit(key@, opt_view(key_id), opt_view(nonce)),
            r is Err ==> r->Err_0 == Error::InvalidParameterLength,
            r is Ok ==> r->Ok_0.dv() == keyed_init(
                key@,
                opt_view(key_id),
                opt_view(nonce),
                opt_seq(counter),
            ),
    {
        let mut engine = XoodyakKeyed { state: Xoodoo::new(), phase: Phase::Up };
        match engine.absorb_key_and_nonce(key, key_id, nonce, counter) {
            Ok(()) => Ok(engine),
            Err(e) => Err(e),
        }
    }

    /// Absorb key material into the engine: build the IV block
    /// `key || key_id_length_byte || key_id || nonce`, absorb it at the
    /// keyed rate with domain byte `0x02`, then absorb any counter one byte
    /// per block. Fails with a parameter-length error exactly when the IV
    /// block would overflow the rate; the engine is untouched then.
    pub fn absorb_key_and_nonce(
        &mut self,
        key: &[u8],
        key_id: Option<&[u8]>,
        nonce: Option<&[u8]>,
        counter: Option<&[u8]>,
    ) -> (r: Result<(), Error>)
        ensures
            r is Ok <==> keyed_params_fit(key@, opt_view(key_id), opt_view(nonce)),
            r is Err ==> r->Err_0 == Error::InvalidParameterLength && final(self).dv() == old(self).dv(),
            r is Ok ==> final(self).dv() == absorb_key_model(
                old(self).dv(),
                key@,
                opt_view(key_id),
                opt_view(nonce),
                opt_seq(counter),
            ),
    {
        let key_id_len = match key_id {
            Some(k) => k.len(),
            None => 0,
        };
        let nonce_len = match nonce {
            Some(n) => n.len(),
            None => 0,
        };
        if key.len() > 44 || key_id_len > 44 || nonce_len > 44 || key.len() + 1 + key_id_len
            + nonce_len > 44 {
            return Err(Error::InvalidParameterLength);
        }
        let mut iv: Vec<u8> = Vec::new();
        push_all(&mut iv, key);
        iv.push(key_id_len as u8);
        match key_id {
            Some(k) => push_all(&mut iv, k),
            None => (),
        }
        match nonce {
            Some(n) => push_all(&mut iv, n),
            None => (),
        }
        proof {
            assert(iv@ =~= keyed_iv(key@, opt_view(key_id), opt_view(nonce)));
        }
        absorb_any_core(
            &mut self.state,
            &mut self.phase,
            Mode::Keyed,
            iv.as_slice(),
            KEYED_ABSORB_RATE,
            0x02,
        );
        match counter {
            Some(c) => absorb_any_core(&mut self.state, &mut self.phase, Mode::Keyed, c, 1, 0x00),
            None => (),
        }
        Ok(())
    }

    /// Encrypt the first `n` bytes of `io` in place.
    fn encrypt_core(&mut self, io: &mut [u8], n: usize)
        requires
            n <= old(io)@.len(),
        ensures
            final(self).dv() == encrypt_st(old(self).dv(), old(io)@.take(n as int), 0x80),
            final(io)@ == encrypt_ct(old(self).dv(), old(io)@.take(n as int), 0x80) + old(io)@.skip(n as int),
    {
        let ghost d0 = self.dv();
        let ghost m = old(io)@.take(n as int);
        let mut pos: usize = 0;
        let mut cu: u8 = 0x80;
        proof {
            assert(m.skip(0) =~= m);
            assert(io@.take(0) + encrypt_ct(d0, m, 0x80) =~= encrypt_ct(d0, m, 0x80));
        }
        while pos < n
            invariant
                pos <= n,
                n <= io@.len(),
                io@.len() == old(io)@.len(),
                m == old(io)@.take(n as int),
                encrypt_st(d0, m, 0x80) == encrypt_st(self.dv(), m.skip(pos as int), cu),
                encrypt_ct(d0, m, 0x80) == io@.take(pos as int) + encrypt_ct(
                    self.dv(),
                    m.skip(pos as int),
                    cu,
                ),
                forall|j: int| pos <= j < io@.len() ==> io@[j] == old(io)@[j],
            decreases n - pos,
        {
            let ghost cur = self.dv();
            let ghost cu0 = cu;
            let ghost rest = m.skip(pos as int);
            let c = if n - pos <= KEYED_SQUEEZE_RATE {
                n - pos
            } else {
                KEYED_SQUEEZE_RATE
            };
            up_core_keyed(&mut self.state, &mut self.phase, cu);
            let ghost d1 = up_model(cur, cu0);
            let mut pt: Vec<u8> = Vec::new();
            let mut k: usize = 0;
            while k < c
                invariant
                    k <= c,
                    pos + c <= n <= io@.len(),
                    pt@.len() == k,
                    forall|j: int| 0 <= j < k ==> pt@[j] == io@[pos + j],
                decreases c - k,
            {
                pt.push(io[pos + k]);
                k += 1;
            }
            proof {
                assert(pt@ =~= rest.take(c as int));
            }
            let ghost mid = io@;
            let mut k: usize = 0;
            while k < c
                invariant
                    k <= c,
                    c <= 24,
                    pos + c <= n <= io@.len(),
                    pt@.len() == c,
                    io@.len() == mid.len(),
                    self.state@.len() == 48,
                    forall|j: int| 0 <= j < k ==> io@[pos + j] == self.state@[j] ^ pt@[j],
                    forall|j: int|
                        0 <= j < io@.len() && !(pos <= j < pos + k) ==> io@[j] == mid[j],
                decreases c - k,
            {
                io[pos + k] = self.state.byte_at(k) ^ pt[k];
                k += 1;
            }
            down_core_keyed(&mut self.state, &mut self.phase, pt.as_slice(), 0x00);
            cu = 0x00;
            pos = pos + c;
            proof {
                let nxt = self.dv();
                assert(nxt == down_model(d1, rest.take(c as int), 0x00));
                assert(encrypt_st(cur, rest, cu0) == encrypt_st(nxt, rest.skip(c as int), 0x00));
                assert(io@.take(pos as int) =~= mid.take((pos - c) as int) + xor_bytes(
                    d1.st.take(c as int),
                    rest.take(c as int),
                ));
                assert(mid.take((pos - c) as int) =~= io@.take((pos - c) as int));
                assert(encrypt_ct(cur, rest, cu0) == xor_bytes(
                    d1.st.take(c as int),
                    rest.take(c as int),
                ) + encrypt_ct(nxt, rest.skip(c as int), 0x00));
                assert(m.skip(pos as int) =~= rest.skip(c as int));
            }
        }
        proof {
            assert(m.skip(n as int) =~= Seq::<u8>::empty());
            assert(io@.take(n as int) + io@.skip(n as int) =~= io@);
            assert(io@.skip(n as int) =~= old(io)@.skip(n as int));
        }
    }

    /// Decrypt the first `n` bytes of `io` in place.
    fn decrypt_core(&mut self, io: &mut [u8], n: usize)
        requires
            n <= old(io)@.len(),
        ensures
            final(self).dv() == decrypt_st(old(self).dv(), old(io)@.take(n as int), 0x80),
            final(io)@ == decrypt_pt(old(self).dv(), old(io)@.take(n as int), 0x80) + old(io)@.skip(n as int),
    {
        let ghost d0 = self.dv();
        let ghost cb = old(io)@.take(n as int);
        let mut pos: usize = 0;
        let mut cu: u8 = 0x80;
        proof {
            assert(cb.skip(0) =~= cb);
            assert(io@.take(0) + decrypt_pt(d0, cb, 0x80) =~= decrypt_pt(d0, cb, 0x80));
        }
        while pos < n
            invariant
                pos <= n,
                n <= io@.len(),
                io@.len() == old(io)@.len(),
                cb == old(io)@.take(n as int),
                decrypt_st(d0, cb, 0x80) == decrypt_st(self.dv(), cb.skip(pos as int), cu),
                decrypt_pt(d0, cb, 0x80) == io@.take(pos as int) + decrypt_pt(
                    self.dv(),
                    cb.skip(pos as int),
                    cu,
                ),
                forall|j: int| pos <= j < io@.len() ==> io@[j] == old(io)@[j],
            decreases n - pos,
        {
            let ghost cur = self.dv();
            let ghost cu0 = cu;
            let ghost rest = cb.skip(pos as int);
            let c = if n - pos <= KEYED_SQUEEZE_RATE {
                n - pos
            } else {
                KEYED_SQUEEZE_RATE
            };
            up_core_keyed(&mut self.state, &mut self.phase, cu);
            let ghost d1 = up_model(cur, cu0);
            let mut rec: Vec<u8> = Vec::new();
            let mut k: usize = 0;
            while k < c
                invariant
                    k <= c,
                    c <= 24,
                    pos + c <= n <= io@.len(),
                    rec@.len() == k,
                    self.state@.len() == 48,
                    forall|j: int| 0 <= j < k ==> rec@[j] == self.state@[j] ^ io@[pos + j],
                decreases c - k,
            {
                rec.push(self.state.byte_at(k) ^ io[pos + k]);
                k += 1;
            }
            proof {
                assert(rec@ =~= xor_bytes(d1.st.take(c as int), rest.take(c as int)));
            }
            let ghost mid = io@;
            let mut k: usize = 0;
            while k < c
                invariant
                    k <= c,
                    pos + c <= n <= io@.len(),
                    rec@.len() == c,
                    io@.len() == mid.len(),
                    forall|j: int| 0 <= j < k ==> io@[pos + j] == rec@[j],
                    forall|j: int|
                        0 <= j < io@.len() && !(pos <= j < pos + k) ==> io@[j] == mid[j],
                decreases c - k,
            {
                io[pos + k] = rec[k];
                k += 1;
            }
            down_core_keyed(&mut self.state, &mut self.phase, rec.as_slice(), 0x00);
            cu = 0x00;
            pos = pos + c;
            proof {
                let nxt = self.dv();
                assert(nxt == down_model(d1, rec@, 0x00));
                assert(decrypt_st(cur, rest, cu0) == decrypt_st(nxt, rest.skip(c as int), 0x00));
                assert(io@.take(pos as int) =~= mid.take((pos - c) as int) + xor_bytes(
                    d1.st.take(c as int),
                    rest.take(c as int),
                ));
                assert(mid.take((pos - c) as int) =~= io@.take((pos - c) as int));
                assert(decrypt_pt(cur, rest, cu0) == xor_bytes(
                    d1.st.take(c as int),
                    rest.take(c as int),
                ) + decrypt_pt(nxt, rest.skip(c as int), 0x00));
                assert(cb.skip(pos as int) =~= rest.skip(c as int));
            }
        }
        proof {
            assert(cb.skip(n as int) =~= Seq::<u8>::empty());
            assert(io@.take(n as int) + io@.skip(n as int) =~= io@);
            assert(io@.skip(n as int) =~= old(io)@.skip(n as int));
        }
    }

    /// Encrypt `bin` into `out`. Fails with a buffer-length error exactly
    /// when `out` is shorter than `bin`; the engine and `out` are untouched
    /// then. On success the first `bin.len()` bytes of `out` hold the
    /// ciphertext and the rest of `out` is untouched.
    pub fn encrypt(&mut self, out: &mut [u8], bin: &[u8]) -> (r: Result<(), Error>)
        ensures
            r is Ok <==> old(out)@.len() >= bin@.len(),
            r is Err ==> r->Err_0 == Error::InvalidBufferLength && final(self).dv() == old(self).dv() && final(out)@ == old(out)@,
            r is Ok ==> final(self).dv() == encrypt_st(old(self).dv(), bin@, 0x80) && final(out)@
                == encrypt_ct(old(self).dv(), bin@, 0x80) + old(out)@.skip(bin@.len() as int),
    {
        if out.len() < bin.len() {
            return Err(Error::InvalidBufferLength);
        }
        copy_into(out, bin);
        let n = bin.len();
        proof {
            assert(out@.take(n as int) =~= bin@);
            assert(out@.skip(n as int) =~= old(out)@.skip(n as int));
        }
        self.encrypt_core(out, n);
        Ok(())
    }

    /// Decrypt `bin` into `out`. Fails with a buffer-length error exactly
    /// when `out` is shorter than `bin`; the engine and `out` are untouched
    /// then. On success the first `bin.len()` bytes of `out` hold the
    /// plaintext and the rest of `out` is untouched.
    pub fn decrypt(&mut self, out: &mut [u8], bin: &[u8]) -> (r: Result<(), Error>)
        ensures
            r is Ok <==> old(out)@.len() >= bin@.len(),
            r is Err ==> r->Err_0 == Error::InvalidBufferLength && final(self).dv() == old(self).dv() && final(out)@ == old(out)@,
            r is Ok ==> final(self).dv() == decrypt_st(old(self).dv(), bin@, 0x80) && final(out)@
                == decrypt_pt(old(self).dv(), bin@, 0x80) + old(out)@.skip(bin@.len() as int),
    {
        if out.len() < bin.len() {
            return Err(Error::InvalidBufferLength);
        }
        copy_into(out, bin);
        let n = bin.len();
        proof {
            assert(out@.take(n as int) =~= bin@);
            assert(out@.skip(n as int) =~= old(out)@.skip(n as int));
        }
        self.decrypt_core(out, n);
        Ok(())
    }

    /// Encrypt `in_out` in place: the whole buffer is the message and ends
    /// up holding the ciphertext.
    pub fn encrypt_in_place(&mut self, in_out: &mut [u8])
        ensures
            final(self).dv() == encrypt_st(old(self).dv(), old(in_out)@, 0x80),
            final(in_out)@ == encrypt_ct(old(self).dv(), old(in_out)@, 0x80),
    {
        let n = in_out.len();
        self.encrypt_core(in_out, n);
        proof {
            assert(old(in_out)@.take(n as int) =~= old(in_out)@);
            assert(old(in_out)@.skip(n as int) =~= Seq::<u8>::empty());
            lemma_encrypt_ct_len(old(self).dv(), old(in_out)@, 0x80);
            assert(encrypt_ct(old(self).dv(), old(in_out)@, 0x80) + Seq::<u8>::empty()
                =~= encrypt_ct(old(self).dv(), old(in_out)@, 0x80));
        }
    }

    /// Decrypt `in_out` in place: the whole buffer is the ciphertext and
    /// ends up holding the plaintext.
    pub fn decrypt_in_place(&mut self, in_out: &mut [u8])
        ensures
            final(self).dv() == decrypt_st(old(self).dv(), old(in_out)@, 0x80),
            final(in_out)@ == decrypt_pt(old(self).dv(), old(in_out)@, 0x80),
    {
        let n = in_out.len();
        self.decrypt_core(in_out, n);
        proof {
            assert(old(in_out)@.take(n as int) =~= old(in_out)@);
            assert(old(in_out)@.skip(n as int) =~= Seq::<u8>::empty());
            lemma_decrypt_pt_len(old(self).dv(), old(in_out)@, 0x80);
            assert(decrypt_pt(old(self).dv(), old(in_out)@, 0x80) + Seq::<u8>::empty()
                =~= decrypt_pt(old(self).dv(), old(in_out)@, 0x80));
        }
    }

    /// Ratchet the engine: squeeze 16 bytes under the ratchet domain byte
    /// and re-absorb them, so state captured before the call cannot
    /// reconstruct outputs produced after it.
    pub fn ratchet(&mut self)
        ensures
            final(self).dv() == ratchet_model(old(self).dv()),
    {
        let mut rolled = zero_vec(RATCHET_RATE);
        squeeze_any_core(
            &mut self.state,
            &mut self.phase,
            Mode::Keyed,
            rolled.as_mut_slice(),
            0x10,
        );
        absorb_any_core(
            &mut self.state,
            &mut self.phase,
            Mode::Keyed,
            rolled.as_slice(),
            RATCHET_RATE,
            0x00,
        );
    }

    /// Squeeze a 16-byte authentication tag (domain byte `0x40`).
    fn squeeze_tag(&mut self) -> (r: Tag)
        ensures
            final(self).dv() == squeeze_any_st(old(self).dv(), 16, 0x40),
            r@ == squeeze_any_out(old(self).dv(), 16, 0x40),
    {
        let mut tv = zero_vec(AUTH_TAG_BYTES);
        proof {
            crate::duplex::lemma_squeeze_any_out_len(self.dv(), 16, 0x40);
        }
        squeeze_any_core(&mut self.state, &mut self.phase, Mode::Keyed, tv.as_mut_slice(), 0x40);
        Tag::from_vec(&tv)
    }

    /// Zero the first `n` bytes of `out`.
    fn zero_out(out: &mut [u8], n: usize)
        requires
            n <= old(out)@.len(),
        ensures
            final(out)@ == zero_bytes(n as int) + old(out)@.skip(n as int),
    {
        let mut i: usize = 0;
        while i < n
            invariant
                i <= n,
                n <= out@.len(),
                out@.len() == old(out)@.len(),
                forall|j: int| 0 <= j < i ==> out@[j] == 0u8,
                forall|j: int| i <= j < out@.len() ==> out@[j] == old(out)@[j],
            decreases n - i,
        {
            out[i] = 0;
            i += 1;
        }
        proof {
            assert(out@ =~= zero_bytes(n as int) + old(out)@.skip(n as int));
        }
    }

    /// Detached AEAD encryption: encrypt `bin` into `out` and return the
    /// tag. Fails with a buffer-length error exactly when `out` is shorter
    /// than the message; the engine and `out` are untouched then. An absent
    /// message reads as empty.
    pub fn aead_encrypt_detached(&mut self, out: &mut [u8], bin: Option<&[u8]>) -> (r: Result<
        Tag,
        Error,
    >)
        ensures
            r is Ok <==> old(out)@.len() >= opt_view(bin).len(),
            r is Err ==> r->Err_0 == Error::InvalidBufferLength && final(self).dv() == old(self).dv() && final(out)@ == old(out)@,
            r is Ok ==> final(self).dv() == aead_enc_st(old(self).dv(), opt_view(bin)) && final(out)@ == encrypt_ct(old(self).dv(), opt_view(bin), 0x80) + old(out)@.skip(
                opt_view(bin).len() as int,
            ) && r->Ok_0@ == aead_enc_tag(old(self).dv(), opt_view(bin)),
    {
        let mlen = match bin {
            Some(b) => b.len(),
            None => 0,
        };
        if out.len() < mlen {
            return Err(Error::InvalidBufferLength);
        }
        match bin {
            Some(b) => {
                match self.encrypt(out, b) {
                    Ok(()) => (),
                    Err(e) => {
                        return Err(e);
                    },
                }
            },
            None => {
                proof {
                    assert(encrypt_ct(old(self).dv(), opt_view(bin), 0x80) + old(out)@.skip(0)
                        =~= old(out)@);
                }
            },
        }
        Ok(self.squeeze_tag())
    }

    /// Combined AEAD encryption: ciphertext then tag, written over the
    /// first `bin.len() + 16` bytes of `out`. Fails with a buffer-length
    /// error exactly when `out` is too short for both; the engine and `out`
    /// are untouched then.
    pub fn aead_encrypt(&mut self, out: &mut [u8], bin: Option<&[u8]>) -> (r: Result<(), Error>)
        ensures
            r is Ok <==> old(out)@.len() >= opt_view(bin).len() + 16,
            r is Err ==> r->Err_0 == Error::InvalidBufferLength && final(self).dv() == old(self).dv() && final(out)@ == old(out)@,
            r is Ok ==> final(self).dv() == aead_enc_st(old(self).dv(), opt_view(bin)) && final(out)@ == encrypt_ct(old(self).dv(), opt_view(bin), 0x80) + aead_enc_tag(
                old(self).dv(),
                opt_view(bin),
            ) + old(out)@.skip(opt_view(bin).len() + 16 as int),
    {
        let mlen = match bin {
            Some(b) => b.len(),
            None => 0,
        };
        if out.len() < AUTH_TAG_BYTES || out.len() - AUTH_TAG_BYTES < mlen {
            return Err(Error::InvalidBufferLength);
        }
        let tag = match self.aead_encrypt_detached(out, bin) {
            Ok(t) => t,
            Err(e) => {
                return Err(e);
            },
        };
        let tb = tag.to_bytes();
        proof {
            lemma_encrypt_ct_len(old(self).dv(), opt_view(bin), 0x80);
        }
        let ghost mid = out@;
        let mut i: usize = 0;
        while i < AUTH_TAG_BYTES
            invariant
                i <= 16,
                mlen + 16 <= out@.len() <= usize::MAX,
                out@.len() == mid.len(),
                tb@.len() == 16,
                forall|j: int| 0 <= j < i ==> out@[mlen + j] == tb@[j],
                forall|j: int| 0 <= j < out@.len() && !(mlen <= j < mlen + i) ==> out@[j] == mid[j],
            decreases 16 - i,
        {
            out[mlen + i] = tb[i];
            i += 1;
        }
        proof {
            crate::duplex::lemma_squeeze_any_out_len(
                encrypt_st(old(self).dv(), opt_view(bin), 0x80),
                16,
                0x40,
            );
            lemma_encrypt_ct_len(old(self).dv(), opt_view(bin), 0x80);
            let ct = encrypt_ct(old(self).dv(), opt_view(bin), 0x80);
            let tg = aead_enc_tag(old(self).dv(), opt_view(bin));
            let rest = old(out)@.skip(opt_view(bin).len() + 16 as int);
            assert(mlen == opt_view(bin).len());
            assert forall|j: int| 0 <= j < out@.len() implies out@[j] == (ct + tg + rest)[j] by {
                if j < mlen {
                    assert(out@[j] == mid[j]);
                    assert(mid[j] == ct[j]);
                } else if j < mlen + 16 {
                    assert(out@[j] == tb@[j - mlen]);
                } else {
                    assert(out@[j] == mid[j]);
                    assert(mid[j] == old(out)@[j]);
                    assert(rest[j - mlen - 16] == old(out)@[j]);
                }
            }
            assert(out@ =~= ct + tg + rest);
        }
        Ok(())
    }

    /// Detached AEAD decryption: decrypt `bin` into `out`, squeeze the
    /// comparison tag and check it against `auth_tag` in constant time.
    /// Fails with a buffer-length error exactly when `out` is shorter than
    /// the ciphertext (engine and `out` untouched), and with a tag-mismatch
    /// error exactly when the computed tag differs; then all of `out` is
    /// zeroed, so unauthenticated plaintext is never observable.
    pub fn aead_decrypt_detached(
        &mut self,
        out: &mut [u8],
        auth_tag: &Tag,
        bin: Option<&[u8]>,
    ) -> (r: Result<(), Error>)
        ensures
            old(out)@.len() < opt_view(bin).len() ==> r is Err && r->Err_0
                == Error::InvalidBufferLength && final(self).dv() == old(self).dv() && final(out)@
                == old(out)@,
            old(out)@.len() >= opt_view(bin).len() ==> final(self).dv() == aead_dec_st(
                old(self).dv(),
                opt_view(bin),
            ) && (r is Ok <==> aead_dec_tag(old(self).dv(), opt_view(bin)) == auth_tag@) && (r is Ok
                ==> final(out)@ == decrypt_pt(old(self).dv(), opt_view(bin), 0x80) + old(out)@.skip(opt_view(bin).len() as int)) && (r is Err ==> r->Err_0 == Error::TagMismatch
                && final(out)@ == zero_bytes(old(out)@.len() as int)),
    {
        let clen = match bin {
            Some(b) => b.len(),
            None => 0,
        };
        if out.len() < clen {
            return Err(Error::InvalidBufferLength);
        }
        match bin {
            Some(b) => {
                match self.decrypt(out, b) {
                    Ok(()) => (),
                    Err(e) => {
                        return Err(e);
                    },
                }
            },
            None => {
                proof {
                    assert(decrypt_pt(old(self).dv(), opt_view(bin), 0x80) + old(out)@.skip(0)
                        =~= old(out)@);
                }
            },
        }
        proof {
            lemma_decrypt_pt_len(old(self).dv(), opt_view(bin), 0x80);
        }
        let computed = self.squeeze_tag();
        if computed == *auth_tag {
            return Ok(());
        }
        let n = out.len();
        Self::zero_out(out, n);
        proof {
            assert(out@ =~= zero_bytes(old(out)@.len() as int));
        }
        Err(Error::TagMismatch)
    }

    /// Combined AEAD decryption: the last 16 bytes of `bin` are the tag,
    /// the rest is the ciphertext; delegates to the detached form. Fails
    /// with a buffer-length error when `bin` is shorter than a tag or `out`
    /// shorter than the ciphertext.
    pub fn aead_decrypt(&mut self, out: &mut [u8], bin: &[u8]) -> (r: Result<(), Error>)
        ensures
            bin@.len() < 16 ==> r is Err && r->Err_0 == Error::InvalidBufferLength && final(self).dv() == old(self).dv() && final(out)@ == old(out)@,
            bin@.len() >= 16 && old(out)@.len() < bin@.len() - 16 ==> r is Err && r->Err_0
                == Error::InvalidBufferLength && final(self).dv() == old(self).dv() && final(out)@
                == old(out)@,
            bin@.len() >= 16 && old(out)@.len() >= bin@.len() - 16 ==> ({
                let ct = bin@.take(bin@.len() - 16);
                let tag = bin@.skip(bin@.len() - 16);
                final(self).dv() == aead_dec_st(old(self).dv(), ct) && (r is Ok <==> aead_dec_tag(
                    old(self).dv(),
                    ct,
                ) == tag) && (r is Ok ==> final(out)@ == decrypt_pt(old(self).dv(), ct, 0x80)
                    + old(out)@.skip(ct.len() as int)) && (r is Err ==> r->Err_0
                    == Error::TagMismatch && final(out)@ == zero_bytes(old(out)@.len() as int))
            }),
    {
        if bin.len() < AUTH_TAG_BYTES {
            return Err(Error::InvalidBufferLength);
        }
        let ct_len = bin.len() - AUTH_TAG_BYTES;
        let mut tb = [0u8; 16];
        let mut i: usize = 0;
        while i < 16
            invariant
                i <= 16,
                ct_len + 16 == bin@.len() <= usize::MAX,
                tb@.len() == 16,
                forall|j: int| 0 <= j < i ==> tb@[j] == bin@[ct_len + j],
            decreases 16 - i,
        {
            tb[i] = bin[ct_len + i];
            i += 1;
        }
        let auth_tag = Tag::new(tb);
        let ct = vstd::slice::slice_subrange(bin, 0, ct_len);
        proof {
            assert(tb@ =~= bin@.skip(ct_len as int));
            assert(ct@ =~= bin@.take(ct_len as int));
        }
        self.aead_decrypt_detached(out, &auth_tag, Some(ct))
    }

    /// Detached in-place AEAD encryption: the whole buffer is the message
    /// and ends up holding the ciphertext; the tag is returned.
    pub fn aead_encrypt_in_place_detached(&mut self, in_out: &mut [u8]) -> (r: Tag)
        ensures
            final(self).dv() == aead_enc_st(old(self).dv(), old(in_out)@),
            final(in_out)@ == encrypt_ct(old(self).dv(), old(in_out)@, 0x80),
            r@ == aead_enc_tag(old(self).dv(), old(in_out)@),
    {
        self.encrypt_in_place(in_out);
        self.squeeze_tag()
    }

    /// Combined in-place AEAD encryption: the first `len - 16` bytes are
    /// the message; they end up holding the ciphertext and the last 16
    /// bytes the tag. Fails with a buffer-length error exactly when the
    /// buffer is shorter than a tag; the engine and buffer are untouched
    /// then.
    pub fn aead_encrypt_in_place(&mut self, in_out: &mut [u8]) -> (r: Result<(), Error>)
        ensures
            r is Ok <==> old(in_out)@.len() >= 16,
            r is Err ==> r->Err_0 == Error::InvalidBufferLength && final(self).dv() == old(self).dv() && final(in_out)@ == old(in_out)@,
            r is Ok ==> ({
                let m = old(in_out)@.take(old(in_out)@.len() - 16);
                final(self).dv() == aead_enc_st(old(self).dv(), m) && final(in_out)@ == encrypt_ct(
                    old(self).dv(),
                    m,
                    0x80,
                ) + aead_enc_tag(old(self).dv(), m)
            }),
    {
        if in_out.len() < AUTH_TAG_BYTES {
            return Err(Error::InvalidBufferLength);
        }
        let ct_len = in_out.len() - AUTH_TAG_BYTES;
        self.encrypt_core(in_out, ct_len);
        proof {
            lemma_encrypt_ct_len(old(self).dv(), old(in_out)@.take(ct_len as int), 0x80);
        }
        let tag = self.squeeze_tag();
        let tb = tag.to_bytes();
        let ghost mid = in_out@;
        let mut i: usize = 0;
        while i < AUTH_TAG_BYTES
            invariant
                i <= 16,
                ct_len + 16 == in_out@.len() <= usize::MAX,
                in_out@.len() == mid.len(),
                tb@.len() == 16,
                forall|j: int| 0 <= j < i ==> in_out@[ct_len + j] == tb@[j],
                forall|j: int|
                    0 <= j < in_out@.len() && !(ct_len <= j < ct_len + i) ==> in_out@[j] == mid[j],
            decreases 16 - i,
        {
            in_out[ct_len + i] = tb[i];
            i += 1;
        }
        proof {
            let m = old(in_out)@.take(ct_len as int);
            crate::duplex::lemma_squeeze_any_out_len(encrypt_st(old(self).dv(), m, 0x80), 16, 0x40);
            lemma_encrypt_ct_len(old(self).dv(), m, 0x80);
            let ct = encrypt_ct(old(self).dv(), m, 0x80);
            let tg = aead_enc_tag(old(self).dv(), m);
            assert forall|j: int| 0 <= j < in_out@.len() implies in_out@[j] == (ct + tg)[j] by {
                if j < ct_len {
                    assert(in_out@[j] == mid[j]);
                    assert(mid[j] == ct[j]);
                } else {
                    assert(in_out@[j] == tb@[j - ct_len]);
                }
            }
            assert(in_out@ =~= ct + tg);
        }
        Ok(())
    }

    /// Detached in-place AEAD decryption: the whole buffer is the
    /// ciphertext. On success it ends up holding the plaintext; on a tag
    /// mismatch it is zeroed entirely and the error returned.
    pub fn aead_decrypt_in_place_detached(&mut self, in_out: &mut [u8], auth_tag: &Tag) -> (r:
        Result<(), Error>)
        ensures
            final(self).dv() == aead_dec_st(old(self).dv(), old(in_out)@),
            r is Ok <==> aead_dec_tag(old(self).dv(), old(in_out)@) == auth_tag@,
            r is Ok ==> final(in_out)@ == decrypt_pt(old(self).dv(), old(in_out)@, 0x80),
            r is Err ==> r->Err_0 == Error::TagMismatch && final(in_out)@ == zero_bytes(
                old(in_out)@.len() as int,
            ),
    {
        self.decrypt_in_place(in_out);
        let computed = self.squeeze_tag();
        if computed == *auth_tag {
            return Ok(());
        }
        proof {
            lemma_decrypt_pt_len(old(self).dv(), old(in_out)@, 0x80);
        }
        let n = in_out.len();
        Self::zero_out(in_out, n);
        proof {
            assert(in_out@ =~= zero_bytes(old(in_out)@.len() as int));
        }
        Err(Error::TagMismatch)
    }

    /// Combined in-place AEAD decryption: the last 16 bytes are the tag,
    /// the rest the ciphertext. On success the first `len - 16` bytes hold
    /// the plaintext (the tag bytes stay in place); on a tag mismatch those
    /// bytes are zeroed. Fails with a buffer-length error exactly when the
    /// buffer is shorter than a tag.
    pub fn aead_decrypt_in_place(&mut self, in_out: &mut [u8]) -> (r: Result<(), Error>)
        ensures
            old(in_out)@.len() < 16 ==> r is Err && r->Err_0 == Error::InvalidBufferLength && final(self).dv() == old(self).dv() && final(in_out)@ == old(in_out)@,
            old(in_out)@.len() >= 16 ==> ({
                let ct = old(in_out)@.take(old(in_out)@.len() - 16);
                let tag = old(in_out)@.skip(old(in_out)@.len() - 16);
                final(self).dv() == aead_dec_st(old(self).dv(), ct) && (r is Ok <==> aead_dec_tag(
                    old(self).dv(),
                    ct,
                ) == tag) && (r is Ok ==> final(in_out)@ == decrypt_pt(old(self).dv(), ct, 0x80)
                    + tag) && (r is Err ==> r->Err_0 == Error::TagMismatch && final(in_out)@
                    == zero_bytes(ct.len() as int) + tag)
            }),
    {
        if in_out.len() < AUTH_TAG_BYTES {
            return Err(Error::InvalidBufferLength);
        }
        let ct_len = in_out.len() - AUTH_TAG_BYTES;
        let mut tb = [0u8; 16];
        let mut i: usize = 0;
        while i < 16
            invariant
                i <= 16,
                ct_len + 16 == in_out@.len() <= usize::MAX,
                in_out@.len() == old(in_out)@.len(),
                in_out@ == old(in_out)@,
                tb@.len() == 16,
                forall|j: int| 0 <= j < i ==> tb@[j] == in_out@[ct_len + j],
            decreases 16 - i,
        {
            tb[i] = in_out[ct_len + i];
            i += 1;
        }
        let auth_tag = Tag::new(tb);
        proof {
            assert(tb@ =~= old(in_out)@.skip(ct_len as int));
        }
        self.decrypt_core(in_out, ct_len);
        let computed = self.squeeze_tag();
        proof {
            lemma_decrypt_pt_len(old(self).dv(), old(in_out)@.take(ct_len as int), 0x80);
        }
        if computed == auth_tag {
            return Ok(());
        }
        Self::zero_out(in_out, ct_len);
        proof {
            let ct = old(in_out)@.take(ct_len as int);
            let tag = old(in_out)@.skip(ct_len as int);
            assert(zero_bytes(ct_len as int) + (decrypt_pt(old(self).dv(), ct, 0x80) + tag).skip(
                ct_len as int,
            ) =~= zero_bytes(ct.len() as int) + tag);
        }
        Err(Error::TagMismatch)
    }

    /// Encrypt `bin` into a fresh vector of the same length.
    pub fn encrypt_to_vec(&mut self, bin: &[u8]) -> (r: Result<Vec<u8>, Error>)
        ensures
            r is Ok,
            final(self).dv() == encrypt_st(old(self).dv(), bin@, 0x80),
            r->Ok_0@ == encrypt_ct(old(self).dv(), bin@, 0x80),
    {
        let mut out = zero_vec(bin.len());
        match self.encrypt(out.as_mut_slice(), bin) {
            Ok(()) => (),
            Err(e) => {
                return Err(e);
            },
        }
        proof {
            assert(out@ =~= encrypt_ct(old(self).dv(), bin@, 0x80));
        }
        Ok(out)
    }

    /// Decrypt `bin` into a fresh vector of the same length.
    pub fn decrypt_to_vec(&mut self, bin: &[u8]) -> (r: Result<Vec<u8>, Error>)
        ensures
            r is Ok,
            final(self).dv() == decrypt_st(old(self).dv(), bin@, 0x80),
            r->Ok_0@ == decrypt_pt(old(self).dv(), bin@, 0x80),
    {
        let mut out = zero_vec(bin.len());
        match self.decrypt(out.as_mut_slice(), bin) {
            Ok(()) => (),
            Err(e) => {
                return Err(e);
            },
        }
        proof {
            assert(out@ =~= decrypt_pt(old(self).dv(), bin@, 0x80));
        }
        Ok(out)
    }

    /// Detached AEAD encryption into a fresh vector: ciphertext and tag.
    pub fn aead_encrypt_to_vec_detached(&mut self, bin: Option<&[u8]>) -> (r: Result<
        (Vec<u8>, Tag),
        Error,
    >)
        ensures
            r is Ok,
            final(self).dv() == aead_enc_st(old(self).dv(), opt_view(bin)),
            r->Ok_0.0@ == encrypt_ct(old(self).dv(), opt_view(bin), 0x80),
            r->Ok_0.1@ == aead_enc_tag(old(self).dv(), opt_view(bin)),
    {
        let mlen = match bin {
            Some(b) => b.len(),
            None => 0,
        };
        let mut out = zero_vec(mlen);
        let tag = match self.aead_encrypt_detached(out.as_mut_slice(), bin) {
            Ok(t) => t,
            Err(e) => {
                return Err(e);
            },
        };
        proof {
            assert(out@ =~= encrypt_ct(old(self).dv(), opt_view(bin), 0x80));
        }
        Ok((out, tag))
    }

    /// Combined AEAD encryption into a fresh vector: ciphertext then tag.
    pub fn aead_encrypt_to_vec(&mut self, bin: Option<&[u8]>) -> (r: Result<Vec<u8>, Error>)
        requires
            opt_view(bin).len() + 16 <= usize::MAX,
        ensures
            r is Ok,
            final(self).dv() == aead_enc_st(old(self).dv(), opt_view(bin)),
            r->Ok_0@ == encrypt_ct(old(self).dv(), opt_view(bin), 0x80) + aead_enc_tag(
                old(self).dv(),
                opt_view(bin),
            ),
    {
        let mlen = match bin {
            Some(b) => b.len(),
            None => 0,
        };
        let mut out = zero_vec(mlen + AUTH_TAG_BYTES);
        match self.aead_encrypt(out.as_mut_slice(), bin) {
            Ok(()) => (),
            Err(e) => {
                return Err(e);
            },
        }
        proof {
            assert(out@ =~= encrypt_ct(old(self).dv(), opt_view(bin), 0x80) + aead_enc_tag(
                old(self).dv(),
                opt_view(bin),
            ));
        }
        Ok(out)
    }

    /// Combined in-place AEAD encryption of an owned vector: the message
    /// grows by 16 bytes and ends up holding ciphertext then tag.
    pub fn aead_encrypt_in_place_to_vec(&mut self, in_out: Vec<u8>) -> (r: Vec<u8>)
        requires
            in_out@.len() + 16 <= usize::MAX,
        ensures
            final(self).dv() == aead_enc_st(old(self).dv(), in_out@),
            r@ == encrypt_ct(old(self).dv(), in_out@, 0x80) + aead_enc_tag(
                old(self).dv(),
                in_out@,
            ),
    {
        let mut buf = in_out;
        let ct_len = buf.len();
        let mut i: usize = 0;
        while i < AUTH_TAG_BYTES
            invariant
                i <= 16,
                ct_len + 16 <= usize::MAX,
                buf@.len() == ct_len + i,
                buf@.take(ct_len as int) == in_out@,
            decreases 16 - i,
        {
            buf.push(0u8);
            i += 1;
            proof {
                assert(buf@.take(ct_len as int) =~= in_out@);
            }
        }
        match self.aead_encrypt_in_place(buf.as_mut_slice()) {
            Ok(()) => (),
            Err(_) => (),
        }
        buf
    }

    /// Detached AEAD decryption into a fresh vector.
    pub fn aead_decrypt_to_vec_detached(&mut self, auth_tag: Tag, bin: Option<&[u8]>) -> (r:
        Result<Vec<u8>, Error>)
        ensures
            final(self).dv() == aead_dec_st(old(self).dv(), opt_view(bin)),
            r is Ok <==> aead_dec_tag(old(self).dv(), opt_view(bin)) == auth_tag@,
            r is Ok ==> r->Ok_0@ == decrypt_pt(old(self).dv(), opt_view(bin), 0x80),
            r is Err ==> r->Err_0 == Error::TagMismatch,
    {
        let clen = match bin {
            Some(b) => b.len(),
            None => 0,
        };
        let mut out = zero_vec(clen);
        match self.aead_decrypt_detached(out.as_mut_slice(), &auth_tag, bin) {
            Ok(()) => (),
            Err(e) => {
                return Err(e);
            },
        }
        proof {
            assert(out@ =~= decrypt_pt(old(self).dv(), opt_view(bin), 0x80));
        }
        Ok(out)
    }

    /// Combined AEAD decryption into a fresh vector: the last 16 bytes of
    /// `bin` are the tag, the rest the ciphertext.
    pub fn aead_decrypt_to_vec(&mut self, bin: &[u8]) -> (r: Result<Vec<u8>, Error>)
        ensures
            bin@.len() < 16 ==> r is Err && r->Err_0 == Error::InvalidBufferLength && final(self).dv() == old(self).dv(),
            bin@.len() >= 16 ==> ({
                let ct = bin@.take(bin@.len() - 16);
                let tag = bin@.skip(bin@.len() - 16);
                final(self).dv() == aead_dec_st(old(self).dv(), ct) && (r is Ok <==> aead_dec_tag(
                    old(self).dv(),
                    ct,
                ) == tag) && (r is Ok ==> r->Ok_0@ == decrypt_pt(old(self).dv(), ct, 0x80)) && (
                r is Err ==> r->Err_0 == Error::TagMismatch)
            }),
    {
        if bin.len() < AUTH_TAG_BYTES {
            return Err(Error::InvalidBufferLength);
        }
        let ct_len = bin.len() - AUTH_TAG_BYTES;
        let mut out = zero_vec(ct_len);
        match self.aead_decrypt(out.as_mut_slice(), bin) {
            Ok(()) => (),
            Err(e) => {
                return Err(e);
            },
        }
        proof {
            assert(out@ =~= decrypt_pt(old(self).dv(), bin@.take(bin@.len() - 16), 0x80));
        }
        Ok(out)
    }

    /// Combined in-place AEAD decryption of an owned vector: on success the
    /// tag is stripped and the plaintext returned.
    pub fn aead_decrypt_in_place_to_vec(&mut self, in_out: Vec<u8>) -> (r: Result<Vec<u8>, Error>)
        ensures
            in_out@.len() < 16 ==> r is Err && r->Err_0 == Error::InvalidBufferLength && final(self).dv() == old(self).dv(),
            in_out@.len() >= 16 ==> ({
                let ct = in_out@.take(in_out@.len() - 16);
                let tag = in_out@.skip(in_out@.len() - 16);
                final(self).dv() == aead_dec_st(old(self).dv(), ct) && (r is Ok <==> aead_dec_tag(
                    old(self).dv(),
                    ct,
                ) == tag) && (r is Ok ==> r->Ok_0@ == decrypt_pt(old(self).dv(), ct, 0x80)) && (
                r is Err ==> r->Err_0 == Error::TagMismatch)
            }),
    {
        let mut buf = in_out;
        if buf.len() < AUTH_TAG_BYTES {
            return Err(Error::InvalidBufferLength);
        }
        let ct_len = buf.len() - AUTH_TAG_BYTES;
        match self.aead_decrypt_in_place(buf.as_mut_slice()) {
            Ok(()) => (),
            Err(e) => {
                return Err(e);
            },
        }
        buf.truncate(ct_len);
        proof {
            let ct = in_out@.take(ct_len as int);
            lemma_decrypt_pt_len(old(self).dv(), ct, 0x80);
            assert((decrypt_pt(old(self).dv(), ct, 0x80) + in_out@.skip(ct_len as int)).subrange(
                0,
                ct_len as int,
            ) =~= decrypt_pt(old(self).dv(), ct, 0x80));
        }
        Ok(buf)
    }
}

/// `up_core` with the mode fixed to `Keyed`.
fn up_core_keyed(st: &mut Xoodoo, phase: &mut Phase, cu: u8)
    ensures
        duplex(final(st)@, Mode::Keyed, *final(phase)) == up_model(
            duplex(old(st)@, Mode::Keyed, *old(phase)),
            cu,
        ),
{
    crate::duplex::up_core(st, phase, Mode::Keyed, cu);
}

/// `down_core` with the mode fixed to `Keyed`.
fn down_core_keyed(st: &mut Xoodoo, phase: &mut Phase, bin: &[u8], cd: u8)
    requires
        bin@.len() <= 44,
    ensures
        duplex(final(st)@, Mode::Keyed, *final(phase)) == down_model(
            duplex(old(st)@, Mode::Keyed, *old(phase)),
            bin@,
            cd,
        ),
{
    crate::duplex::down_core(st, phase, Mode::Keyed, bin, cd);
}

impl XoodyakCommon for XoodyakKeyed {
    closed spec fn dv(&self) -> DuplexModel {
        duplex(self.state@, Mode::Keyed, self.phase)
    }

    proof fn dv_invariant(&self) {
        broadcast use crate::xoodoo::lemma_xoodoo_len;

    }

    fn absorb(&mut self, bin: &[u8]) {
        absorb_any_core(&mut self.state, &mut self.phase, Mode::Keyed, bin, KEYED_ABSORB_RATE, 0x03);
    }

    fn absorb_more(&mut self, bin: &[u8], rate: usize) {
        absorb_more_core(&mut self.state, &mut self.phase, Mode::Keyed, bin, rate);
    }

    fn squeeze(&mut self, out: &mut [u8]) {
        squeeze_any_core(&mut self.state, &mut self.phase, Mode::Keyed, out, 0x40);
    }

    fn squeeze_key(&mut self, out: &mut [u8]) {
        squeeze_any_core(&mut self.state, &mut self.phase, Mode::Keyed, out, 0x20);
    }

    fn squeeze_more(&mut self, out: &mut [u8]) {
        squeeze_more_core(&mut self.state, &mut self.phase, Mode::Keyed, out);
    }

    fn squeeze_to_vec(&mut self, len: usize) -> (r: Vec<u8>) {
        let mut out = zero_vec(len);
        squeeze_any_core(&mut self.state, &mut self.phase, Mode::Keyed, out.as_mut_slice(), 0x40);
        out
    }
}

} // verus!
