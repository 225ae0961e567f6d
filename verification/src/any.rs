//! A tagged sum over the two engine modes, for call sites that hold either.

use vstd::prelude::*;

use crate::common::XoodyakCommon;
use crate::duplex::DuplexModel;
use crate::error::Error;
use crate::hash::XoodyakHash;
use crate::keyed::{
    absorb_key_model, aead_dec_st, aead_dec_tag, aead_enc_st, aead_enc_tag, decrypt_pt, decrypt_st,
    encrypt_ct, encrypt_st, keyed_params_fit, opt_seq, opt_view, ratchet_model, zero_bytes,
    XoodyakKeyed,
};
use crate::tag::Tag;

verus! {

/// Either an unkeyed or a keyed engine, decided at run time. Keyed-only
/// operations on the unkeyed variant fail with a key-required error and
/// leave everything untouched.
#[derive(Clone, Debug)]
pub enum XoodyakAny {
    /// An unkeyed engine.
    Hash(XoodyakHash),
    /// A keyed engine.
    Keyed(XoodyakKeyed),
}

impl XoodyakAny {
    /// Absorb key material; requires the keyed variant.
    pub fn absorb_key_and_nonce(
        &mut self,
        key: &[u8],
        key_id: Option<&[u8]>,
        nonce: Option<&[u8]>,
        counter: Option<&[u8]>,
    ) -> (r: Result<(), Error>)
        ensures
            (*final(self)) is Keyed <==> (*old(self)) is Keyed,
            (*old(self)) is Hash ==> r is Err && r->Err_0 == Error::KeyRequired && final(self).dv()
                == old(self).dv(),
            (*old(self)) is Keyed ==> {
                &&& r is Ok <==> keyed_params_fit(key@, opt_view(key_id), opt_view(nonce))
                &&& r is Err ==> r->Err_0 == Error::InvalidParameterLength && final(self).dv()
                    == old(self).dv()
                &&& r is Ok ==> final(self).dv() == absorb_key_model(
                    old(self).dv(),
                    key@,
                    opt_view(key_id),
                    opt_view(nonce),
                    opt_seq(counter),
                )
            },
    {
        match self {
            XoodyakAny::Hash(_) => Err(Error::KeyRequired),
            XoodyakAny::Keyed(x) => x.absorb_key_and_nonce(key, key_id, nonce, counter),
        }
    }

    /// Ratchet the engine; requires the keyed variant.
    pub fn ratchet(&mut self) -> (r: Result<(), Error>)
        ensures
            (*final(self)) is Keyed <==> (*old(self)) is Keyed,
            (*old(self)) is Hash ==> r is Err && r->Err_0 == Error::KeyRequired && final(self).dv()
                == old(self).dv(),
            (*old(self)) is Keyed ==> r is Ok && final(self).dv() == ratchet_model(old(self).dv()),
    {
        match self {
            XoodyakAny::Hash(_) => Err(Error::KeyRequired),
            XoodyakAny::Keyed(x) => {
                x.ratchet();
                Ok(())
            },
        }
    }

    /// Encrypt `bin` into `out`; requires the keyed variant.
    pub fn encrypt(&mut self, out: &mut [u8], bin: &[u8]) -> (r: Result<(), Error>)
        ensures
            (*final(self)) is Keyed <==> (*old(self)) is Keyed,
            (*old(self)) is Hash ==> r is Err && r->Err_0 == Error::KeyRequired && final(self).dv()
                == old(self).dv() && final(out)@ == old(out)@,
            (*old(self)) is Keyed ==> {
                &&& r is Ok <==> old(out)@.len() >= bin@.len()
                &&& r is Err ==> r->Err_0 == Error::InvalidBufferLength && final(self).dv() == old(self).dv() && final(out)@ == old(out)@
                &&& r is Ok ==> final(self).dv() == encrypt_st(old(self).dv(), bin@, 0x80) && final(out)@ == encrypt_ct(old(self).dv(), bin@, 0x80) + old(out)@.skip(bin@.len() as int)
            },
    {
        match self {
            XoodyakAny::Hash(_) => Err(Error::KeyRequired),
            XoodyakAny::Keyed(x) => x.encrypt(out, bin),
        }
    }

    /// Decrypt `bin` into `out`; requires the keyed variant.
    pub fn decrypt(&mut self, out: &mut [u8], bin: &[u8]) -> (r: Result<(), Error>)
        ensures
            (*final(self)) is Keyed <==> (*old(self)) is Keyed,
            (*old(self)) is Hash ==> r is Err && r->Err_0 == Error::KeyRequired && final(self).dv()
                == old(self).dv() && final(out)@ == old(out)@,
            (*old(self)) is Keyed ==> {
                &&& r is Ok <==> old(out)@.len() >= bin@.len()
                &&& r is Err ==> r->Err_0 == Error::InvalidBufferLength && final(self).dv() == old(self).dv() && final(out)@ == old(out)@
                &&& r is Ok ==> final(self).dv() == decrypt_st(old(self).dv(), bin@, 0x80) && final(out)@ == decrypt_pt(old(self).dv(), bin@, 0x80) + old(out)@.skip(bin@.len() as int)
            },
    {
        match self {
            XoodyakAny::Hash(_) => Err(Error::KeyRequired),
            XoodyakAny::Keyed(x) => x.decrypt(out, bin),
        }
    }

    /// Encrypt in place; requires the keyed variant.
    pub fn encrypt_in_place(&mut self, in_out: &mut [u8]) -> (r: Result<(), Error>)
        ensures
            (*final(self)) is Keyed <==> (*old(self)) is Keyed,
            (*old(self)) is Hash ==> r is Err && r->Err_0 == Error::KeyRequired && final(self).dv()
                == old(self).dv() && final(in_out)@ == old(in_out)@,
            (*old(self)) is Keyed ==> r is Ok && final(self).dv() == encrypt_st(
                old(self).dv(),
                old(in_out)@,
                0x80,
            ) && final(in_out)@ == encrypt_ct(old(self).dv(), old(in_out)@, 0x80),
    {
        match self {
            XoodyakAny::Hash(_) => Err(Error::KeyRequired),
            XoodyakAny::Keyed(x) => {
                x.encrypt_in_place(in_out);
                Ok(())
            },
        }
    }

    /// Decrypt in place; requires the keyed variant.
    pub fn decrypt_in_place(&mut self, in_out: &mut [u8]) -> (r: Result<(), Error>)
        ensures
            (*final(self)) is Keyed <==> (*old(self)) is Keyed,
            (*old(self)) is Hash ==> r is Err && r->Err_0 == Error::KeyRequired && final(self).dv()
                == old(self).dv() && final(in_out)@ == old(in_out)@,
            (*old(self)) is Keyed ==> r is Ok && final(self).dv() == decrypt_st(
                old(self).dv(),
                old(in_out)@,
                0x80,
            ) && final(in_out)@ == decrypt_pt(old(self).dv(), old(in_out)@, 0x80),
    {
        match self {
            XoodyakAny::Hash(_) => Err(Error::KeyRequired),
            XoodyakAny::Keyed(x) => {
                x.decrypt_in_place(in_out);
                Ok(())
            },
        }
    }

    /// Detached AEAD encryption; requires the keyed variant.
    pub fn aead_encrypt_detached(&mut self, out: &mut [u8], bin: Option<&[u8]>) -> (r: Result<
        Tag,
        Error,
    >)
        ensures
            (*final(self)) is Keyed <==> (*old(self)) is Keyed,
            (*old(self)) is Hash ==> r is Err && r->Err_0 == Error::KeyRequired && final(self).dv()
                == old(self).dv() && final(out)@ == old(out)@,
            (*old(self)) is Keyed ==> {
                &&& r is Ok <==> old(out)@.len() >= opt_view(bin).len()
                &&& r is Err ==> r->Err_0 == Error::InvalidBufferLength && final(self).dv() == old(self).dv() && final(out)@ == old(out)@
                &&& r is Ok ==> final(self).dv() == aead_enc_st(old(self).dv(), opt_view(bin))
                    && final(out)@ == encrypt_ct(old(self).dv(), opt_view(bin), 0x80) + old(out)@.skip(opt_view(bin).len() as int) && r->Ok_0@ == aead_enc_tag(
                    old(self).dv(),
                    opt_view(bin),
                )
            },
    {
        match self {
            XoodyakAny::Hash(_) => Err(Error::KeyRequired),
            XoodyakAny::Keyed(x) => x.aead_encrypt_detached(out, bin),
        }
    }

    /// Combined AEAD encryption; requires the keyed variant.
    pub fn aead_encrypt(&mut self, out: &mut [u8], bin: Option<&[u8]>) -> (r: Result<(), Error>)
        ensures
            (*final(self)) is Keyed <==> (*old(self)) is Keyed,
            (*old(self)) is Hash ==> r is Err && r->Err_0 == Error::KeyRequired && final(self).dv()
                == old(self).dv() && final(out)@ == old(out)@,
            (*old(self)) is Keyed ==> {
                &&& r is Ok <==> old(out)@.len() >= opt_view(bin).len() + 16
                &&& r is Err ==> r->Err_0 == Error::InvalidBufferLength && final(self).dv() == old(self).dv() && final(out)@ == old(out)@
                &&& r is Ok ==> final(self).dv() == aead_enc_st(old(self).dv(), opt_view(bin))
                    && final(out)@ == encrypt_ct(old(self).dv(), opt_view(bin), 0x80)
                    + aead_enc_tag(old(self).dv(), opt_view(bin)) + old(out)@.skip(
                    opt_view(bin).len() + 16 as int,
                )
            },
    {
        match self {
            XoodyakAny::Hash(_) => Err(Error::KeyRequired),
            XoodyakAny::Keyed(x) => x.aead_encrypt(out, bin),
        }
    }

    /// Detached AEAD decryption; requires the keyed variant.
    pub fn aead_decrypt_detached(
        &mut self,
        out: &mut [u8],
        auth_tag: &Tag,
        bin: Option<&[u8]>,
    ) -> (r: Result<(), Error>)
        ensures
            (*final(self)) is Keyed <==> (*old(self)) is Keyed,
            (*old(self)) is Hash ==> r is Err && r->Err_0 == Error::KeyRequired && final(self).dv()
                == old(self).dv() && final(out)@ == old(out)@,
            (*old(self)) is Keyed && old(out)@.len() < opt_view(bin).len() ==> r is Err && r->Err_0
                == Error::InvalidBufferLength && final(self).dv() == old(self).dv() && final(out)@
                == old(out)@,
            (*old(self)) is Keyed && old(out)@.len() >= opt_view(bin).len() ==> final(self).dv()
                == aead_dec_st(old(self).dv(), opt_view(bin)) && (r is Ok <==> aead_dec_tag(
                old(self).dv(),
                opt_view(bin),
            ) == auth_tag@) && (r is Ok ==> final(out)@ == decrypt_pt(
                old(self).dv(),
                opt_view(bin),
                0x80,
            ) + old(out)@.skip(opt_view(bin).len() as int)) && (r is Err ==> r->Err_0
                == Error::TagMismatch && final(out)@ == zero_bytes(old(out)@.len() as int)),
    {
        match self {
            XoodyakAny::Hash(_) => Err(Error::KeyRequired),
            XoodyakAny::Keyed(x) => x.aead_decrypt_detached(out, auth_tag, bin),
        }
    }

    /// Combined AEAD decryption; requires the keyed variant.
    pub fn aead_decrypt(&mut self, out: &mut [u8], bin: &[u8]) -> (r: Result<(), Error>)
        ensures
            (*final(self)) is Keyed <==> (*old(self)) is Keyed,
            (*old(self)) is Hash ==> r is Err && r->Err_0 == Error::KeyRequired && final(self).dv()
                == old(self).dv() && final(out)@ == old(out)@,
            (*old(self)) is Keyed && bin@.len() < 16 ==> r is Err && r->Err_0
                == Error::InvalidBufferLength && final(self).dv() == old(self).dv() && final(out)@
                == old(out)@,
            (*old(self)) is Keyed && bin@.len() >= 16 && old(out)@.len() < bin@.len() - 16 ==> r is Err
                && r->Err_0 == Error::InvalidBufferLength && final(self).dv() == old(self).dv()
                && final(out)@ == old(out)@,
            (*old(self)) is Keyed && bin@.len() >= 16 && old(out)@.len() >= bin@.len() - 16 ==> ({
                let ct = bin@.take(bin@.len() - 16);
                let tag = bin@.skip(bin@.len() - 16);
                final(self).dv() == aead_dec_st(old(self).dv(), ct) && (r is Ok <==> aead_dec_tag(
                    old(self).dv(),
                    ct,
                ) == tag) && (r is Ok ==> final(out)@ == decrypt_pt(old(self).dv(), ct, 0x80)
                    + old(out)@.skip(ct.len() as int)) && (r is Err ==> r->Err_0
                    == Error::TagMismatch && final(out)@ == zero_bytes(old(out)@.len() as int))
            }),
    {
        match self {
            XoodyakAny::Hash(_) => Err(Error::KeyRequired),
            XoodyakAny::Keyed(x) => x.aead_decrypt(out, bin),
        }
    }

    /// Detached in-place AEAD encryption; requires the keyed variant.
    pub fn aead_encrypt_in_place_detached(&mut self, in_out: &mut [u8]) -> (r: Result<Tag, Error>)
        ensures
            (*final(self)) is Keyed <==> (*old(self)) is Keyed,
            (*old(self)) is Hash ==> r is Err && r->Err_0 == Error::KeyRequired && final(self).dv()
                == old(self).dv() && final(in_out)@ == old(in_out)@,
            (*old(self)) is Keyed ==> r is Ok && final(self).dv() == aead_enc_st(
                old(self).dv(),
                old(in_out)@,
            ) && final(in_out)@ == encrypt_ct(old(self).dv(), old(in_out)@, 0x80) && r->Ok_0@
                == aead_enc_tag(old(self).dv(), old(in_out)@),
    {
        match self {
            XoodyakAny::Hash(_) => Err(Error::KeyRequired),
            XoodyakAny::Keyed(x) => Ok(x.aead_encrypt_in_place_detached(in_out)),
        }
    }

    /// Combined in-place AEAD encryption; requires the keyed variant.
    pub fn aead_encrypt_in_place(&mut self, in_out: &mut [u8]) -> (r: Result<(), Error>)
        ensures
            (*final(self)) is Keyed <==> (*old(self)) is Keyed,
            (*old(self)) is Hash ==> r is Err && r->Err_0 == Error::KeyRequired && final(self).dv()
                == old(self).dv() && final(in_out)@ == old(in_out)@,
            (*old(self)) is Keyed ==> {
                &&& r is Ok <==> old(in_out)@.len() >= 16
                &&& r is Err ==> r->Err_0 == Error::InvalidBufferLength && final(self).dv() == old(self).dv() && final(in_out)@ == old(in_out)@
                &&& r is Ok ==> ({
                    let m = old(in_out)@.take(old(in_out)@.len() - 16);
                    final(self).dv() == aead_enc_st(old(self).dv(), m) && final(in_out)@
                        == encrypt_ct(old(self).dv(), m, 0x80) + aead_enc_tag(old(self).dv(), m)
                })
            },
    {
        match self {
            XoodyakAny::Hash(_) => Err(Error::KeyRequired),
            XoodyakAny::Keyed(x) => x.aead_encrypt_in_place(in_out),
        }
    }

    /// Detached in-place AEAD decryption; requires the keyed variant.
    pub fn aead_decrypt_in_place_detached(&mut self, in_out: &mut [u8], auth_tag: &Tag) -> (r:
        Result<(), Error>)
        ensures
            (*final(self)) is Keyed <==> (*old(self)) is Keyed,
            (*old(self)) is Hash ==> r is Err && r->Err_0 == Error::KeyRequired && final(self).dv()
                == old(self).dv() && final(in_out)@ == old(in_out)@,
            (*old(self)) is Keyed ==> final(self).dv() == aead_dec_st(old(self).dv(), old(in_out)@)
                && (r is Ok <==> aead_dec_tag(old(self).dv(), old(in_out)@) == auth_tag@) && (
            r is Ok ==> final(in_out)@ == decrypt_pt(old(self).dv(), old(in_out)@, 0x80)) && (
            r is Err ==> r->Err_0 == Error::TagMismatch && final(in_out)@ == zero_bytes(
                old(in_out)@.len() as int,
            )),
    {
        match self {
            XoodyakAny::Hash(_) => Err(Error::KeyRequired),
            XoodyakAny::Keyed(x) => x.aead_decrypt_in_place_detached(in_out, auth_tag),
        }
    }

    /// Combined in-place AEAD decryption; requires the keyed variant.
    pub fn aead_decrypt_in_place(&mut self, in_out: &mut [u8]) -> (r: Result<(), Error>)
        ensures
            (*final(self)) is Keyed <==> (*old(self)) is Keyed,
            (*old(self)) is Hash ==> r is Err && r->Err_0 == Error::KeyRequired && final(self).dv()
                == old(self).dv() && final(in_out)@ == old(in_out)@,
            (*old(self)) is Keyed && old(in_out)@.len() < 16 ==> r is Err && r->Err_0
                == Error::InvalidBufferLength && final(self).dv() == old(self).dv() && final(in_out)@ == old(in_out)@,
            (*old(self)) is Keyed && old(in_out)@.len() >= 16 ==> ({
                let ct = old(in_out)@.take(old(in_out)@.len() - 16);
                let tag = old(in_out)@.skip(old(in_out)@.len() - 16);
                final(self).dv() == aead_dec_st(old(self).dv(), ct) && (r is Ok <==> aead_dec_tag(
                    old(self).dv(),
                    ct,
                ) == tag) && (r is Ok ==> final(in_out)@ == decrypt_pt(old(self).dv(), ct, 0x80)
                    + tag) && (r is Err ==> r->Err_0 == Error::TagMismatch && final(in_out)@
                    == zero_bytes(ct.len() as int) + tag)
            }),
    {
        match self {
            XoodyakAny::Hash(_) => Err(Error::KeyRequired),
            XoodyakAny::Keyed(x) => x.aead_decrypt_in_place(in_out),
        }
    }

    /// Encrypt into a fresh vector; requires the keyed variant.
    pub fn encrypt_to_vec(&mut self, bin: &[u8]) -> (r: Result<Vec<u8>, Error>)
        ensures
            (*final(self)) is Keyed <==> (*old(self)) is Keyed,
            (*old(self)) is Hash ==> r is Err && r->Err_0 == Error::KeyRequired && final(self).dv()
                == old(self).dv(),
            (*old(self)) is Keyed ==> r is Ok && final(self).dv() == encrypt_st(
                old(self).dv(),
                bin@,
                0x80,
            ) && r->Ok_0@ == encrypt_ct(old(self).dv(), bin@, 0x80),
    {
        match self {
            XoodyakAny::Hash(_) => Err(Error::KeyRequired),
            XoodyakAny::Keyed(x) => x.encrypt_to_vec(bin),
        }
    }

    /// Decrypt into a fresh vector; requires the keyed variant.
    pub fn decrypt_to_vec(&mut self, bin: &[u8]) -> (r: Result<Vec<u8>, Error>)
        ensures
            (*final(self)) is Keyed <==> (*old(self)) is Keyed,
            (*old(self)) is Hash ==> r is Err && r->Err_0 == Error::KeyRequired && final(self).dv()
                == old(self).dv(),
            (*old(self)) is Keyed ==> r is Ok && final(self).dv() == decrypt_st(
                old(self).dv(),
                bin@,
                0x80,
            ) && r->Ok_0@ == decrypt_pt(old(self).dv(), bin@, 0x80),
    {
        match self {
            XoodyakAny::Hash(_) => Err(Error::KeyRequired),
            XoodyakAny::Keyed(x) => x.decrypt_to_vec(bin),
        }
    }

    /// Detached AEAD encryption into a fresh vector; requires the keyed
    /// variant.
    pub fn aead_encrypt_to_vec_detached(&mut self, bin: Option<&[u8]>) -> (r: Result<
        (Vec<u8>, Tag),
        Error,
    >)
        ensures
            (*final(self)) is Keyed <==> (*old(self)) is Keyed,
            (*old(self)) is Hash ==> r is Err && r->Err_0 == Error::KeyRequired && final(self).dv()
                == old(self).dv(),
            (*old(self)) is Keyed ==> r is Ok && final(self).dv() == aead_enc_st(
                old(self).dv(),
                opt_view(bin),
            ) && r->Ok_0.0@ == encrypt_ct(old(self).dv(), opt_view(bin), 0x80) && r->Ok_0.1@
                == aead_enc_tag(old(self).dv(), opt_view(bin)),
    {
        match self {
            XoodyakAny::Hash(_) => Err(Error::KeyRequired),
            XoodyakAny::Keyed(x) => x.aead_encrypt_to_vec_detached(bin),
        }
    }

    /// Combined AEAD encryption into a fresh vector; requires the keyed
    /// variant.
    pub fn aead_encrypt_to_vec(&mut self, bin: Option<&[u8]>) -> (r: Result<Vec<u8>, Error>)
        requires
            opt_view(bin).len() + 16 <= usize::MAX,
        ensures
            (*final(self)) is Keyed <==> (*old(self)) is Keyed,
            (*old(self)) is Hash ==> r is Err && r->Err_0 == Error::KeyRequired && final(self).dv()
                == old(self).dv(),
            (*old(self)) is Keyed ==> r is Ok && final(self).dv() == aead_enc_st(
                old(self).dv(),
                opt_view(bin),
            ) && r->Ok_0@ == encrypt_ct(old(self).dv(), opt_view(bin), 0x80) + aead_enc_tag(
                old(self).dv(),
                opt_view(bin),
            ),
    {
        match self {
            XoodyakAny::Hash(_) => Err(Error::KeyRequired),
            XoodyakAny::Keyed(x) => x.aead_encrypt_to_vec(bin),
        }
    }

    /// Combined in-place AEAD encryption of an owned vector; requires the
    /// keyed variant.
    pub fn aead_encrypt_in_place_to_vec(&mut self, in_out: Vec<u8>) -> (r: Result<Vec<u8>, Error>)
        requires
            in_out@.len() + 16 <= usize::MAX,
        ensures
            (*final(self)) is Keyed <==> (*old(self)) is Keyed,
            (*old(self)) is Hash ==> r is Err && r->Err_0 == Error::KeyRequired && final(self).dv()
                == old(self).dv(),
            (*old(self)) is Keyed ==> r is Ok && final(self).dv() == aead_enc_st(
                old(self).dv(),
                in_out@,
            ) && r->Ok_0@ == encrypt_ct(old(self).dv(), in_out@, 0x80) + aead_enc_tag(
                old(self).dv(),
                in_out@,
            ),
    {
        match self {
            XoodyakAny::Hash(_) => Err(Error::KeyRequired),
            XoodyakAny::Keyed(x) => Ok(x.aead_encrypt_in_place_to_vec(in_out)),
        }
    }

    /// Detached AEAD decryption into a fresh vector; requires the keyed
    /// variant.
    pub fn aead_decrypt_to_vec_detached(&mut self, auth_tag: Tag, bin: Option<&[u8]>) -> (r: Result<
        Vec<u8>,
        Error,
    >)
        ensures
            (*final(self)) is Keyed <==> (*old(self)) is Keyed,
            (*old(self)) is Hash ==> r is Err && r->Err_0 == Error::KeyRequired && final(self).dv()
                == old(self).dv(),
            (*old(self)) is Keyed ==> final(self).dv() == aead_dec_st(old(self).dv(), opt_view(bin))
                && (r is Ok <==> aead_dec_tag(old(self).dv(), opt_view(bin)) == auth_tag@) && (
            r is Ok ==> r->Ok_0@ == decrypt_pt(old(self).dv(), opt_view(bin), 0x80)) && (r is Err
                ==> r->Err_0 == Error::TagMismatch),
    {
        match self {
            XoodyakAny::Hash(_) => Err(Error::KeyRequired),
            XoodyakAny::Keyed(x) => x.aead_decrypt_to_vec_detached(auth_tag, bin),
        }
    }

    /// Combined AEAD decryption into a fresh vector; requires the keyed
    /// variant.
    pub fn aead_decrypt_to_vec(&mut self, bin: &[u8]) -> (r: Result<Vec<u8>, Error>)
        ensures
            (*final(self)) is Keyed <==> (*old(self)) is Keyed,
            (*old(self)) is Hash ==> r is Err && r->Err_0 == Error::KeyRequired && final(self).dv()
                == old(self).dv(),
            (*old(self)) is Keyed && bin@.len() < 16 ==> r is Err && r->Err_0
                == Error::InvalidBufferLength && final(self).dv() == old(self).dv(),
            (*old(self)) is Keyed && bin@.len() >= 16 ==> ({
                let ct = bin@.take(bin@.len() - 16);
                let tag = bin@.skip(bin@.len() - 16);
                final(self).dv() == aead_dec_st(old(self).dv(), ct) && (r is Ok <==> aead_dec_tag(
                    old(self).dv(),
                    ct,
                ) == tag) && (r is Ok ==> r->Ok_0@ == decrypt_pt(old(self).dv(), ct, 0x80)) && (
                r is Err ==> r->Err_0 == Error::TagMismatch)
            }),
    {
        match self {
            XoodyakAny::Hash(_) => Err(Error::KeyRequired),
            XoodyakAny::Keyed(x) => x.aead_decrypt_to_vec(bin),
        }
    }

    /// Combined in-place AEAD decryption of an owned vector; requires the
    /// keyed variant.
    pub fn aead_decrypt_in_place_to_vec(&mut self, in_out: Vec<u8>) -> (r: Result<Vec<u8>, Error>)
        ensures
            (*final(self)) is Keyed <==> (*old(self)) is Keyed,
            (*old(self)) is Hash ==> r is Err && r->Err_0 == Error::KeyRequired && final(self).dv()
                == old(self).dv(),
            (*old(self)) is Keyed && in_out@.len() < 16 ==> r is Err && r->Err_0
                == Error::InvalidBufferLength && final(self).dv() == old(self).dv(),
            (*old(self)) is Keyed && in_out@.len() >= 16 ==> ({
                let ct = in_out@.take(in_out@.len() - 16);
                let tag = in_out@.skip(in_out@.len() - 16);
                final(self).dv() == aead_dec_st(old(self).dv(), ct) && (r is Ok <==> aead_dec_tag(
                    old(self).dv(),
                    ct,
                ) == tag) && (r is Ok ==> r->Ok_0@ == decrypt_pt(old(self).dv(), ct, 0x80)) && (
                r is Err ==> r->Err_0 == Error::TagMismatch)
            }),
    {
        match self {
            XoodyakAny::Hash(_) => Err(Error::KeyRequired),
            XoodyakAny::Keyed(x) => x.aead_decrypt_in_place_to_vec(in_out),
        }
    }
}

impl XoodyakCommon for XoodyakAny {
    open spec fn dv(&self) -> DuplexModel {
        match self {
            XoodyakAny::Hash(x) => x.dv(),
            XoodyakAny::Keyed(x) => x.dv(),
        }
    }

    proof fn dv_invariant(&self) {
        match self {
            XoodyakAny::Hash(x) => x.dv_invariant(),
            XoodyakAny::Keyed(x) => x.dv_invariant(),
        }
    }

    fn absorb(&mut self, bin: &[u8]) {
        match self {
            XoodyakAny::Hash(x) => x.absorb(bin),
            XoodyakAny::Keyed(x) => x.absorb(bin),
        }
    }

    fn absorb_more(&mut self, bin: &[u8], rate: usize) {
        match self {
            XoodyakAny::Hash(x) => x.absorb_more(bin, rate),
            XoodyakAny::Keyed(x) => x.absorb_more(bin, rate),
        }
    }

    fn squeeze(&mut self, out: &mut [u8]) {
        match self {
            XoodyakAny::Hash(x) => x.squeeze(out),
            XoodyakAny::Keyed(x) => x.squeeze(out),
        }
    }

    fn squeeze_key(&mut self, out: &mut [u8]) {
        match self {
            XoodyakAny::Hash(x) => x.squeeze_key(out),
            XoodyakAny::Keyed(x) => x.squeeze_key(out),
        }
    }

    fn squeeze_more(&mut self, out: &mut [u8]) {
        match self {
            XoodyakAny::Hash(x) => x.squeeze_more(out),
            XoodyakAny::Keyed(x) => x.squeeze_more(out),
        }
    }

    fn squeeze_to_vec(&mut self, len: usize) -> (r: Vec<u8>) {
        match self {
            XoodyakAny::Hash(x) => x.squeeze_to_vec(len),
            XoodyakAny::Keyed(x) => x.squeeze_to_vec(len),
        }
    }
}

} // verus!
