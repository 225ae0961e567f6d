//! The authentication tag: 16 owned bytes, compared in constant time and
//! wiped on release.

use vstd::prelude::*;
use zeroize::Zeroize;

verus! {

/// Length of an authentication tag in bytes, in every mode.
pub const AUTH_TAG_BYTES: usize = 16;

/// A 16-byte authentication code. Equality is constant time: every byte
/// pair is XOR-ed and OR-accumulated with no data-dependent branch, and the
/// tags are equal exactly when the accumulator ends at zero.
#[derive(Clone, Debug)]
pub struct Tag {
    bytes: [u8; AUTH_TAG_BYTES],
}

impl View for Tag {
    type V = Seq<u8>;

    closed spec fn view(&self) -> Seq<u8> {
        self.bytes@
    }
}

/// A tag always holds exactly 16 bytes.
pub broadcast proof fn lemma_tag_len(t: Tag)
    ensures
        (#[trigger] t@.len()) == 16,
{
}

/// Relies on `zeroize::Zeroize` for `[u8; 16]`: overwrites every byte of
/// the array with zero, in place, through writes the compiler will not
/// elide.
#[verifier::external_body]
fn wipe_tag(buf: &mut [u8; 16])
    ensures
        final(buf)@ == Seq::new(16, |i: int| 0u8),
    opens_invariants none
    no_unwind
{
    buf.zeroize();
}

proof fn lemma_or_xor_zero(c: u8, a: u8, b: u8)
    by (bit_vector)
    ensures
        (c | (a ^ b)) == 0 <==> c == 0 && a == b,
{
}

impl Tag {
    /// A tag made of the 16 given bytes.
    pub fn new(bytes: [u8; AUTH_TAG_BYTES]) -> (r: Tag)
        ensures
            r@ == bytes@,
    {
        Tag { bytes }
    }

    /// A copy of the tag's bytes.
    pub fn to_bytes(&self) -> (r: [u8; AUTH_TAG_BYTES])
        ensures
            r@ == self@,
    {
        self.bytes
    }

    /// A tag built from a 16-byte vector.
    pub fn from_vec(v: &Vec<u8>) -> (r: Tag)
        requires
            v@.len() == 16,
        ensures
            r@ == v@,
    {
        let mut bytes = [0u8; 16];
        let mut i: usize = 0;
        while i < 16
            invariant
                i <= 16,
                v@.len() == 16,
                bytes@.len() == 16,
                forall|j: int| 0 <= j < i ==> bytes@[j] == v@[j],
            decreases 16 - i,
        {
            bytes[i] = v[i];
            i += 1;
        }
        proof {
            assert(bytes@ =~= v@);
        }
        Tag { bytes }
    }

    /// Check the tag against 16 received bytes, in constant time.
    pub fn verify(&self, bin: [u8; AUTH_TAG_BYTES]) -> (r: Result<(), crate::error::Error>)
        ensures
            r is Ok <==> self@ == bin@,
            r is Err ==> r->Err_0 == crate::error::Error::TagMismatch,
    {
        if &Tag::new(bin) == self {
            Ok(())
        } else {
            Err(crate::error::Error::TagMismatch)
        }
    }
}

impl PartialEq for Tag {
    /// Constant-time comparison: XOR each byte pair, OR-accumulate, and
    /// test the accumulator once at the end.
    fn eq(&self, other: &Tag) -> (r: bool) {
        let mut acc: u8 = 0;
        let mut i: usize = 0;
        while i < 16
            invariant
                i <= 16,
                acc == 0 <==> (forall|j: int| 0 <= j < i ==> self.bytes@[j] == other.bytes@[j]),
            decreases 16 - i,
        {
            let ghost old_acc = acc;
            let ghost oi = i as int;
            let a = self.bytes[i];
            let b = other.bytes[i];
            proof {
                lemma_or_xor_zero(acc, a, b);
            }
            acc = acc | (a ^ b);
            i += 1;
            proof {
                if acc == 0 {
                    assert(old_acc == 0 && a == b);
                    assert(forall|j: int| 0 <= j < oi + 1 ==> self.bytes@[j] == other.bytes@[j]);
                } else if old_acc == 0 {
                    assert(self.bytes@[oi] != other.bytes@[oi]);
                }
            }
        }
        proof {
            if acc == 0 {
                assert(self.bytes@ =~= other.bytes@);
            }
            if self@ == other@ {
                assert(forall|j: int| 0 <= j < 16 ==> self.bytes@[j] == other.bytes@[j]);
            }
        }
        acc == 0
    }
}

impl vstd::std_specs::cmp::PartialEqSpecImpl for Tag {
    open spec fn obeys_eq_spec() -> bool {
        true
    }

    open spec fn eq_spec(&self, other: &Tag) -> bool {
        self@ == other@
    }
}

impl From<[u8; AUTH_TAG_BYTES]> for Tag {
    /// A tag adopting the 16 given bytes.
    fn from(bin: [u8; AUTH_TAG_BYTES]) -> (r: Tag) {
        Tag { bytes: bin }
    }
}

impl vstd::std_specs::convert::FromSpecImpl<[u8; AUTH_TAG_BYTES]> for Tag {
    open spec fn obeys_from_spec() -> bool {
        true
    }

    closed spec fn from_spec(bin: [u8; AUTH_TAG_BYTES]) -> Tag {
        Tag { bytes: bin }
    }
}

/// What `Tag::from` builds: a tag holding exactly the given bytes.
pub broadcast proof fn lemma_tag_from_bytes(bin: [u8; AUTH_TAG_BYTES])
    ensures
        (#[trigger] <Tag as vstd::std_specs::convert::FromSpec<[u8; AUTH_TAG_BYTES]>>::from_spec(
            bin,
        ))@ == bin@,
{
}

impl Default for Tag {
    /// The all-zero tag.
    fn default() -> (r: Tag)
        ensures
            r@ == Seq::new(16, |i: int| 0u8),
    {
        let bytes = [0u8; 16];
        proof {
            assert(bytes@ =~= Seq::new(16, |i: int| 0u8));
        }
        Tag { bytes }
    }
}

impl Drop for Tag {
    /// Wipe the tag bytes on release, on every exit path.
    fn drop(&mut self)
        opens_invariants none
        no_unwind
    {
        wipe_tag(&mut self.bytes);
    }
}

} // verus!
