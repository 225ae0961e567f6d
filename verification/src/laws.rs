//! Library-level laws, proved once over the duplex model: every engine
//! method's contract is an equation over the same model, so these theorems
//! carry over to any call sequence.

use vstd::prelude::*;

use crate::duplex::{absorb_model, down_model, up_if_down, up_model, DuplexModel, Phase};
use crate::xoodoo::xor_into;
use crate::keyed::{
    aead_dec_st, aead_dec_tag, aead_enc_st, aead_enc_tag, decrypt_pt, decrypt_st, encrypt_ct,
    encrypt_st, keyed_init, lemma_encrypt_ct_len, xor_bytes,
};

verus! {

broadcast use crate::xoodoo::lemma_permute_len;

proof fn lemma_u8_xor_cancel(a: u8, b: u8)
    by (bit_vector)
    ensures
        a ^ (a ^ b) == b,
{
}

proof fn lemma_u8_xor_one_changes(x: u8)
    by (bit_vector)
    ensures
        x ^ 0x01 != x,
{
}

/// XOR-ing the same keystream twice gives the message back.
proof fn lemma_xor_bytes_cancel(ks: Seq<u8>, m: Seq<u8>)
    requires
        ks.len() == m.len(),
    ensures
        xor_bytes(ks, xor_bytes(ks, m)) == m,
{
    assert forall|i: int| 0 <= i < m.len() implies xor_bytes(ks, xor_bytes(ks, m))[i] == m[i] by {
        lemma_u8_xor_cancel(ks[i], m[i]);
    }
    assert(xor_bytes(ks, xor_bytes(ks, m)) =~= m);
}

/// Law (stream round trip): decrypting the ciphertext of `m` from the same
/// starting model recovers `m` exactly, and drives the engine through the
/// same state trajectory as encryption did.
pub proof fn lemma_decrypt_of_encrypt(d: DuplexModel, m: Seq<u8>, cu: u8)
    ensures
        decrypt_st(d, encrypt_ct(d, m, cu), cu) == encrypt_st(d, m, cu),
        decrypt_pt(d, encrypt_ct(d, m, cu), cu) == m,
    decreases m.len(),
{
    let ct = encrypt_ct(d, m, cu);
    lemma_encrypt_ct_len(d, m, cu);
    if m.len() == 0 {
        assert(decrypt_pt(d, ct, cu) =~= m);
    } else {
        let c = if m.len() <= 24 {
            m.len() as int
        } else {
            24
        };
        let d1 = up_model(d, cu);
        let ks = d1.st.take(c);
        let mc = m.take(c);
        let cc = xor_bytes(ks, mc);
        let d2 = down_model(d1, mc, 0x00);
        let ct_rest = encrypt_ct(d2, m.skip(c), 0x00);
        assert(ct.take(c) =~= cc);
        assert(ct.skip(c) =~= ct_rest);
        lemma_xor_bytes_cancel(ks, mc);
        assert(xor_bytes(d1.st.take(c), ct.take(c)) == mc);
        lemma_decrypt_of_encrypt(d2, m.skip(c), 0x00);
        assert(decrypt_pt(d, ct, cu) == mc + decrypt_pt(d2, ct_rest, 0x00));
        assert(mc + m.skip(c) =~= m);
    }
}

/// Law (AEAD round trip): for every keyed model `d`, message `m`, and the
/// sealed buffer `ciphertext || tag` that a combined AEAD encryption
/// produces, a combined AEAD decryption from the same model accepts the
/// tag, recovers `m`, and ends in the same state as the encryption did.
pub proof fn lemma_aead_round_trip(d: DuplexModel, m: Seq<u8>)
    ensures
        ({
            let sealed = encrypt_ct(d, m, 0x80) + aead_enc_tag(d, m);
            &&& sealed.len() == m.len() + 16
            &&& aead_dec_tag(d, sealed.take(sealed.len() - 16)) == sealed.skip(sealed.len() - 16)
            &&& decrypt_pt(d, sealed.take(sealed.len() - 16), 0x80) == m
            &&& aead_dec_st(d, sealed.take(sealed.len() - 16)) == aead_enc_st(d, m)
        }),
{
    let ct = encrypt_ct(d, m, 0x80);
    let tg = aead_enc_tag(d, m);
    let sealed = ct + tg;
    lemma_encrypt_ct_len(d, m, 0x80);
    crate::duplex::lemma_squeeze_any_out_len(encrypt_st(d, m, 0x80), 16, 0x40);
    assert(sealed.take(sealed.len() - 16) =~= ct);
    assert(sealed.skip(sealed.len() - 16) =~= tg);
    lemma_decrypt_of_encrypt(d, m, 0x80);
}

/// Law (AEAD round trip from construction): for every key, nonce,
/// associated data and message, with both sides constructing a keyed
/// engine over the key and nonce and then absorbing the associated data,
/// the sealed buffer that the combined AEAD encryption produces is
/// accepted by the combined AEAD decryption and yields the message back.
pub proof fn lemma_aead_round_trip_from_construction(
    key: Seq<u8>,
    nonce: Seq<u8>,
    ad: Seq<u8>,
    m: Seq<u8>,
)
    ensures
        ({
            let d = absorb_model(keyed_init(key, Seq::empty(), nonce, None), ad);
            let sealed = encrypt_ct(d, m, 0x80) + aead_enc_tag(d, m);
            &&& sealed.len() == m.len() + 16
            &&& aead_dec_tag(d, sealed.take(sealed.len() - 16)) == sealed.skip(sealed.len() - 16)
            &&& decrypt_pt(d, sealed.take(sealed.len() - 16), 0x80) == m
        }),
{
    let d = absorb_model(keyed_init(key, Seq::empty(), nonce, None), ad);
    lemma_aead_round_trip(d, m);
}

/// Law (empty absorption advances the state): a public `absorb` of the
/// empty byte string still performs one framed `down` call, so the state
/// bytes change and the phase ends at `Down`.
pub proof fn lemma_absorb_empty_advances(d: DuplexModel)
    requires
        d.wf(),
    ensures
        absorb_model(d, Seq::empty()) == down_model(up_if_down(d), Seq::empty(), 0x03),
        absorb_model(d, Seq::empty()).st != up_if_down(d).st,
        absorb_model(d, Seq::empty()).phase == Phase::Down,
{
    let d0 = up_if_down(d);
    assert(d0.st.len() == 48);
    let res = down_model(d0, Seq::empty(), 0x03);
    assert(xor_into(d0.st, Seq::empty()) =~= d0.st);
    assert(res.st[0] == d0.st[0] ^ 0x01);
    lemma_u8_xor_one_changes(d0.st[0]);
}

} // verus!
