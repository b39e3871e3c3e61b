//! Hash-index support: the keyed SipHash-2-4 digest behind a trusted
//! wrapper, the random draw that seeds each hash function, and the
//! `Hashable` trait that gives every insertable value a canonical byte
//! representation.

use core::hash::Hasher;
use vstd::prelude::*;
use vstd::string::StringSliceAdditionalSpecFns;

verus! {

/// What a keyed SipHash-2-4 computation returns: a pure function of the two
/// 64-bit keys and the byte stream fed to the hasher.
pub uninterp spec fn sip_digest(key0: u64, key1: u64, data: Seq<u8>) -> u64;

/// Relies on siphasher's `SipHasher24` (`new_with_keys`, then the stream
/// fed through `Hasher::write` and finished with `Hasher::finish`): the
/// digest depends on the two keys and the written bytes alone, so it is
/// named `sip_digest` of exactly those.
#[verifier::external_body]
pub(crate) fn sip_hash64(key0: u64, key1: u64, data: &[u8]) -> (r: u64)
    ensures
        r == sip_digest(key0, key1, data@),
{
    let mut hasher = siphasher::sip::SipHasher24::new_with_keys(key0, key1);
    hasher.write(data);
    hasher.finish()
}

/// Relies on `rand::random`: a fresh draw from the thread-local generator;
/// nothing is promised of the value.
#[verifier::external_body]
pub(crate) fn random_u64() -> u64 {
    rand::random::<u64>()
}

/// A value the filter can ingest: anything with a canonical byte
/// representation. `repr` is that representation as a mathematical
/// sequence; `write_repr` appends exactly those bytes.
pub trait Hashable {
    /// The canonical byte representation of the value.
    spec fn repr(&self) -> Seq<u8>;

    /// Appends the canonical byte representation to `out`.
    fn write_repr(&self, out: &mut Vec<u8>)
        ensures
            final(out)@ == old(out)@ + self.repr(),
    ;
}

impl Hashable for u64 {
    open spec fn repr(&self) -> Seq<u8> {
        vstd::bytes::spec_u64_to_le_bytes(*self)
    }

    fn write_repr(&self, out: &mut Vec<u8>) {
        let mut bytes = vstd::bytes::u64_to_le_bytes(*self);
        out.append(&mut bytes);
    }
}

impl Hashable for i32 {
    open spec fn repr(&self) -> Seq<u8> {
        vstd::bytes::spec_u32_to_le_bytes(*self as u32)
    }

    fn write_repr(&self, out: &mut Vec<u8>) {
        let word = #[verifier::truncate] (*self as u32);
        let mut bytes = vstd::bytes::u32_to_le_bytes(word);
        out.append(&mut bytes);
    }
}

impl Hashable for str {
    open spec fn repr(&self) -> Seq<u8> {
        self.spec_bytes()
    }

    fn write_repr(&self, out: &mut Vec<u8>) {
        let mut bytes = vstd::slice::slice_to_vec(self.as_bytes());
        out.append(&mut bytes);
    }
}

/// The canonical representations of the elements of `s`, in order, run
/// together.
pub open spec fn concat_reprs<T: Hashable>(s: Seq<T>) -> Seq<u8>
    decreases s.len(),
{
    if s.len() == 0 {
        Seq::empty()
    } else {
        concat_reprs(s.drop_last()) + s.last().repr()
    }
}

impl<T: Hashable> Hashable for Vec<T> {
    open spec fn repr(&self) -> Seq<u8> {
        vstd::bytes::spec_u64_to_le_bytes(self@.len() as u64) + concat_reprs(self@)
    }

    fn write_repr(&self, out: &mut Vec<u8>) {
        let mut len_bytes = vstd::bytes::u64_to_le_bytes(self.len() as u64);
        out.append(&mut len_bytes);
        let ghost prefix = out@;
        let mut i: usize = 0;
        while i < self.len()
            invariant
                i <= self@.len(),
                out@ == prefix + concat_reprs(self@.take(i as int)),
            decreases self@.len() - i,
        {
            let elem = &self[i];
            elem.write_repr(out);
            proof {
                assert(self@.take(i + 1).drop_last() =~= self@.take(i as int));
                assert(self@.take(i + 1).last() == self@[i as int]);
                assert((prefix + concat_reprs(self@.take(i as int))) + self@[i as int].repr()
                    =~= prefix + concat_reprs(self@.take(i + 1)));
            }
            i = i + 1;
        }
        proof {
            assert(self@.take(self@.len() as int) =~= self@);
        }
    }
}

} // verus!
