//! The unkeyed engine: hashing and extendable output.

use vstd::prelude::*;

use crate::common::XoodyakCommon;
use crate::duplex::{
    absorb_any_core, absorb_more_core, duplex, squeeze_any_core, squeeze_more_core, zero_state,
    DuplexModel, Mode, Phase, HASH_ABSORB_RATE,
};
use crate::xoodoo::Xoodoo;

verus! {

/// An unkeyed duplex engine: mode `Hash`, rates (16, 16), phase starting
/// `Up` on the all-zero state.
#[derive(Clone, Debug)]
pub struct XoodyakHash {
    state: Xoodoo,
    phase: Phase,
}

impl XoodyakHash {
    /// A fresh unkeyed engine.
    pub fn new() -> (r: Self)
        ensures
            r.dv() == duplex(zero_state(), Mode::Hash, Phase::Up),
    {
        XoodyakHash { state: Xoodoo::new(), phase: Phase::Up }
    }
}

impl Default for XoodyakHash {
    /// The same engine `new` builds.
    fn default() -> (r: Self)
        ensures
            r.dv() == duplex(zero_state(), Mode::Hash, Phase::Up),
    {
        XoodyakHash::new()
    }
}

impl XoodyakCommon for XoodyakHash {
    closed spec fn dv(&self) -> DuplexModel {
        duplex(self.state@, Mode::Hash, self.phase)
    }

    proof fn dv_invariant(&self) {
        broadcast use crate::xoodoo::lemma_xoodoo_len;

    }

    fn absorb(&mut self, bin: &[u8]) {
        absorb_any_core(&mut self.state, &mut self.phase, Mode::Hash, bin, HASH_ABSORB_RATE, 0x03);
    }

    fn absorb_more(&mut self, bin: &[u8], rate: usize) {
        absorb_more_core(&mut self.state, &mut self.phase, Mode::Hash, bin, rate);
    }

    fn squeeze(&mut self, out: &mut [u8]) {
        squeeze_any_core(&mut self.state, &mut self.phase, Mode::Hash, out, 0x40);
    }

    fn squeeze_key(&mut self, out: &mut [u8]) {
        squeeze_any_core(&mut self.state, &mut self.phase, Mode::Hash, out, 0x20);
    }

    fn squeeze_more(&mut self, out: &mut [u8]) {
        squeeze_more_core(&mut self.state, &mut self.phase, Mode::Hash, out);
    }

    fn squeeze_to_vec(&mut self, len: usize) -> (r: Vec<u8>) {
        let mut out = crate::duplex::zero_vec(len);
        squeeze_any_core(&mut self.state, &mut self.phase, Mode::Hash, out.as_mut_slice(), 0x40);
        out
    }
}

} // verus!
