//! The absorb/squeeze interface shared by every engine.

use vstd::prelude::*;

use crate::duplex::{
    absorb_model, absorb_more_model, absorb_rate_of, squeeze_cont_out, squeeze_cont_st,
    squeeze_key_out_model, squeeze_key_st_model, squeeze_out_model, squeeze_st_model, DuplexModel,
};

verus! {

/// Operations common to the unkeyed and keyed engines. Every method's
/// effect is pinned to a spec function of [`DuplexModel`], the engine's
/// mathematical image, which [`Self::dv`] presents.
pub trait XoodyakCommon: Sized {
    /// The duplex model this engine currently presents.
    spec fn dv(&self) -> DuplexModel;

    /// An engine's model is always well formed: its state holds exactly
    /// 48 bytes.
    proof fn dv_invariant(&self)
        ensures
            self.dv().wf(),
    ;

    /// Absorb a byte string. Even an empty one advances the state by one
    /// framed `down` call.
    fn absorb(&mut self, bin: &[u8])
        ensures
            final(self).dv() == absorb_model(old(self).dv(), bin@),
    ;

    /// Absorb continuation data in chunks of `rate` bytes, with no fresh
    /// domain byte.
    fn absorb_more(&mut self, bin: &[u8], rate: usize)
        requires
            1 <= rate <= absorb_rate_of(old(self).dv().mode),
        ensures
            final(self).dv() == absorb_more_model(old(self).dv(), bin@, rate as int),
    ;

    /// Fill `out` with squeezed output (domain byte `0x40`).
    fn squeeze(&mut self, out: &mut [u8])
        ensures
            final(self).dv() == squeeze_st_model(old(self).dv(), old(out)@.len() as int),
            final(out)@ == squeeze_out_model(old(self).dv(), old(out)@.len() as int),
    ;

    /// Fill `out` with key-derivation output (domain byte `0x20`).
    fn squeeze_key(&mut self, out: &mut [u8])
        ensures
            final(self).dv() == squeeze_key_st_model(old(self).dv(), old(out)@.len() as int),
            final(out)@ == squeeze_key_out_model(old(self).dv(), old(out)@.len() as int),
    ;

    /// Continue extendable output after a prior squeeze, with no fresh
    /// domain byte.
    fn squeeze_more(&mut self, out: &mut [u8])
        ensures
            final(self).dv() == squeeze_cont_st(old(self).dv(), old(out)@.len() as int),
            final(out)@ == squeeze_cont_out(old(self).dv(), old(out)@.len() as int),
    ;

    /// Squeeze `len` bytes into a fresh vector (domain byte `0x40`).
    fn squeeze_to_vec(&mut self, len: usize) -> (r: Vec<u8>)
        ensures
            final(self).dv() == squeeze_st_model(old(self).dv(), len as int),
            r@ == squeeze_out_model(old(self).dv(), len as int),
    ;
}

} // verus!
