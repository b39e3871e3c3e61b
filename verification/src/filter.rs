//! The filter itself: sizing and construction, hash-index derivation, and
//! the set / test / test-and-set operations over the fixed-size bit array.

use crate::bits::{bits_get, bits_len, bits_new, bits_of, bits_set};
use crate::hashing::{random_u64, sip_digest, sip_hash64, Hashable};
use vstd::prelude::*;

verus! {

/// Why construction was refused.
#[derive(Debug, Clone, Copy, PartialEq, Eq, Structural)]
pub enum FilterError {
    /// The expected element count was zero: the sizing ratio is undefined.
    ZeroExpectedElements,
    /// The bit budget was zero: no bit index would be in range.
    ZeroBits,
    /// The requested or derived hash count was zero: membership tests would
    /// hold vacuously.
    ZeroHashes,
}

/// The hash count derived from a bit budget `m` and an expected element
/// count `n`: the ceiling of `(m / n) * log10(2)`, with `m / n` taken as an
/// integer ratio and `log10(2)` as the fixed-point constant
/// `30103 / 100000`. The base-10 logarithm (rather than the natural one of
/// the textbook formula) is kept deliberately for compatibility.
pub open spec fn spec_hash_count(m: int, n: int) -> int
    recommends
        n > 0,
{
    ((m / n) * 30103 + 99999) / 100000
}

/// The bit budget derived from a hash count `k` and an expected element
/// count `n`: the ceiling of `(k * n) / log10(2)`, the algebraic inverse of
/// `spec_hash_count`, with the same fixed-point `log10(2)`.
pub open spec fn spec_bit_count(k: int, n: int) -> int {
    (k * n * 100000 + 30102) / 30103
}

/// A bloom filter: a fixed-length bit array and an ordered sequence of
/// independently keyed hash functions. Bits only ever turn from false to
/// true; the length and the keys never change after construction.
pub struct BloomFilter {
    filter: bit_vec::BitVec,
    hashes: Vec<(u64, u64)>,
}

impl BloomFilter {
    /// The boolean flags of the bit array, in index order.
    pub closed spec fn bits(&self) -> Seq<bool> {
        bits_of(self.filter)
    }

    /// The key pairs of the hash functions, in application order.
    pub closed spec fn keys(&self) -> Seq<(u64, u64)> {
        self.hashes@
    }

    /// The length of the bit array.
    pub open spec fn num_bits(&self) -> nat {
        self.bits().len()
    }

    /// The number of hash functions.
    pub open spec fn num_hashes(&self) -> nat {
        self.keys().len()
    }

    /// A usable filter: at least one bit and at least one hash function.
    pub open spec fn wf(&self) -> bool {
        self.num_bits() > 0 && self.num_hashes() > 0
    }

    /// The bit index that hash function `j` assigns to the representation
    /// `data`: its digest, truncated to the machine word, reduced modulo
    /// the bit-array length.
    pub open spec fn spec_index_of(&self, j: int, data: Seq<u8>) -> int {
        (sip_digest(self.keys()[j].0, self.keys()[j].1, data) as usize) as int % (
        self.num_bits() as int)
    }

    /// Whether bit `i` is among the indices derived for `data`.
    pub open spec fn spec_hits(&self, i: int, data: Seq<u8>) -> bool {
        exists|j: int| 0 <= j < self.num_hashes() && self.spec_index_of(j, data) == i
    }

    /// Whether every index derived for `data` holds a set bit: what `test`
    /// returns.
    pub open spec fn spec_contains(&self, data: Seq<u8>) -> bool {
        forall|j: int|
            0 <= j < self.num_hashes() ==> self.bits()[#[trigger] self.spec_index_of(j, data)]
    }

    /// Allocates `m` bits, all false, and `k` hash functions, each keyed
    /// with two freshly drawn random 64-bit values.
    fn new(m: usize, k: usize) -> (r: BloomFilter)
        requires
            m >= 1,
            k >= 1,
        ensures
            r.wf(),
            r.num_bits() == m as nat,
            r.num_hashes() == k as nat,
            r.bits() == Seq::new(m as nat, |i: int| false),
            forall|data: Seq<u8>| !r.spec_contains(data),
    {
        let mut hashes: Vec<(u64, u64)> = Vec::new();
        let mut i: usize = 0;
        while i < k
            invariant
                i <= k,
                hashes@.len() == i as nat,
            decreases k - i,
        {
            let key0 = random_u64();
            let key1 = random_u64();
            hashes.push((key0, key1));
            i = i + 1;
        }
        let filter = bits_new(m, false);
        let r = BloomFilter { filter, hashes };
        proof {
            assert forall|data: Seq<u8>| !r.spec_contains(data) by {
                let idx = r.spec_index_of(0, data);
                assert(0 <= idx < m);
                assert(!r.bits()[idx]);
            }
        }
        r
    }

    /// Builds a filter from a bit budget `m` and an expected element count
    /// `n`, deriving the hash count as `spec_hash_count` says. A zero `n`,
    /// a zero `m`, and a derived hash count of zero are each rejected.
    pub fn new_with_bits(m: usize, n: usize) -> (r: Result<BloomFilter, FilterError>)
        ensures
            r is Ok <==> n > 0 && m > 0 && spec_hash_count(m as int, n as int) > 0,
            n == 0 ==> r == Err::<BloomFilter, FilterError>(FilterError::ZeroExpectedElements),
            n > 0 && m == 0 ==> r == Err::<BloomFilter, FilterError>(FilterError::ZeroBits),
            n > 0 && m > 0 && spec_hash_count(m as int, n as int) == 0 ==> r == Err::<
                BloomFilter,
                FilterError,
            >(FilterError::ZeroHashes),
            r is Ok ==> {
                let f = r->Ok_0;
                &&& f.wf()
                &&& f.num_bits() == m as nat
                &&& f.num_hashes() == spec_hash_count(m as int, n as int)
                &&& f.bits() == Seq::new(m as nat, |i: int| false)
                &&& forall|data: Seq<u8>| !f.spec_contains(data)
            },
    {
        if n == 0 {
            return Err(FilterError::ZeroExpectedElements);
        }
        if m == 0 {
            return Err(FilterError::ZeroBits);
        }
        let q: usize = m / n;
        let k128: u128 = (q as u128 * 30103 + 99999) / 100000;
        assert(k128 <= q as u128);
        let k: usize = k128 as usize;
        assert(k as int == spec_hash_count(m as int, n as int));
        if k == 0 {
            return Err(FilterError::ZeroHashes);
        }
        Ok(Self::new(m, k))
    }

    /// Builds a filter from a hash count `k` and an expected element count
    /// `n`, deriving the bit budget as `spec_bit_count` says. A zero `n`
    /// and a zero `k` are each rejected; the derived budget must fit the
    /// machine word.
    pub fn new_with_hashes(k: usize, n: usize) -> (r: Result<BloomFilter, FilterError>)
        requires
            spec_bit_count(k as int, n as int) <= usize::MAX as int,
        ensures
            r is Ok <==> n > 0 && k > 0,
            n == 0 ==> r == Err::<BloomFilter, FilterError>(FilterError::ZeroExpectedElements),
            n > 0 && k == 0 ==> r == Err::<BloomFilter, FilterError>(FilterError::ZeroHashes),
            r is Ok ==> {
                let f = r->Ok_0;
                &&& f.wf()
                &&& f.num_bits() == spec_bit_count(k as int, n as int)
                &&& f.num_hashes() == k as nat
                &&& f.bits() == Seq::new(spec_bit_count(k as int, n as int) as nat, |i: int| false)
                &&& forall|data: Seq<u8>| !f.spec_contains(data)
            },
    {
        if n == 0 {
            return Err(FilterError::ZeroExpectedElements);
        }
        if k == 0 {
            return Err(FilterError::ZeroHashes);
        }
        let p: u128 = k as u128 * n as u128;
        proof {
            lemma_bit_count_bounds(k as int, n as int);
        }
        let m128: u128 = (p * 100000 + 30102) / 30103;
        assert(m128 as int == spec_bit_count(k as int, n as int));
        let m: usize = m128 as usize;
        Ok(Self::new(m, k))
    }

    /// Derives the ordered sequence of bit indices for `x`: one per hash
    /// function, each in `[0, num_bits)`.
    fn calculate_hashes<T: Hashable + ?Sized>(&self, x: &T) -> (r: Vec<usize>)
        requires
            self.wf(),
        ensures
            r@.len() == self.num_hashes(),
            forall|j: int| 0 <= j < r@.len() ==> r@[j] as int == self.spec_index_of(j, x.repr()),
            forall|j: int| 0 <= j < r@.len() ==> (r@[j] as nat) < self.num_bits(),
    {
        let mut buf: Vec<u8> = Vec::new();
        x.write_repr(&mut buf);
        let m = bits_len(&self.filter);
        let mut out: Vec<usize> = Vec::new();
        let mut j: usize = 0;
        while j < self.hashes.len()
            invariant
                self.wf(),
                buf@ == x.repr(),
                m as nat == self.num_bits(),
                j <= self.hashes.len(),
                self.hashes@.len() == self.num_hashes(),
                out@.len() == j as nat,
                forall|t: int| 0 <= t < j ==> out@[t] as int == self.spec_index_of(t, x.repr()),
                forall|t: int| 0 <= t < j ==> (out@[t] as nat) < self.num_bits(),
            decreases self.hashes.len() - j,
        {
            let (key0, key1) = self.hashes[j];
            let digest = sip_hash64(key0, key1, buf.as_slice());
            let word = #[verifier::truncate] (digest as usize);
            let idx = word % m;
            out.push(idx);
            j = j + 1;
        }
        out
    }

    /// Inserts `x`: every bit index derived for it is set to true, and no
    /// other bit changes. Afterwards the filter contains `x`, and it still
    /// contains everything it contained before.
    pub fn set<T: Hashable + ?Sized>(&mut self, x: &T)
        requires
            old(self).wf(),
        ensures
            final(self).wf(),
            final(self).keys() == old(self).keys(),
            final(self).num_bits() == old(self).num_bits(),
            forall|i: int|
                0 <= i < final(self).num_bits() ==> final(self).bits()[i] == (old(self).bits()[i]
                    || old(self).spec_hits(i, x.repr())),
            final(self).spec_contains(x.repr()),
            forall|data: Seq<u8>|
                old(self).spec_contains(data) ==> final(self).spec_contains(data),
    {
        let indices = self.calculate_hashes(x);
        let mut t: usize = 0;
        while t < indices.len()
            invariant
                self.wf(),
                self.keys() == old(self).keys(),
                self.num_bits() == old(self).num_bits(),
                t <= indices@.len(),
                indices@.len() == old(self).num_hashes(),
                forall|j: int|
                    0 <= j < indices@.len() ==> indices@[j] as int == old(self).spec_index_of(
                        j,
                        x.repr(),
                    ),
                forall|j: int| 0 <= j < indices@.len() ==> (indices@[j] as nat) < self.num_bits(),
                forall|i: int|
                    0 <= i < self.num_bits() ==> self.bits()[i] == (old(self).bits()[i] || exists|
                        j: int,
                    |
                        0 <= j < t && indices@[j] as int == i),
            decreases indices@.len() - t,
        {
            let idx = indices[t];
            let ghost pre = *self;
            bits_set(&mut self.filter, idx, true);
            proof {
                assert forall|i: int|
                    0 <= i < self.num_bits() implies self.bits()[i] == (old(self).bits()[i]
                    || exists|j: int| 0 <= j < t + 1 && indices@[j] as int == i) by {
                    if i == idx as int {
                        assert(0 <= t < t + 1 && indices@[t as int] as int == i);
                    } else {
                        assert(self.bits()[i] == pre.bits()[i]);
                        assert((exists|j: int| 0 <= j < t + 1 && indices@[j] as int == i)
                            == (exists|j: int| 0 <= j < t && indices@[j] as int == i));
                    }
                }
            }
            t = t + 1;
        }
        proof {
            let data = x.repr();
            let post = *self;
            let pre = *old(self);
            assert forall|i: int|
                0 <= i < post.num_bits() implies post.bits()[i] == (pre.bits()[i] || pre.spec_hits(
                i,
                data,
            )) by {
                if exists|j: int| 0 <= j < indices@.len() && indices@[j] as int == i {
                    let j = choose|j: int| 0 <= j < indices@.len() && indices@[j] as int == i;
                    assert(pre.spec_index_of(j, data) == i);
                    assert(pre.spec_hits(i, data));
                }
                if pre.spec_hits(i, data) {
                    let j = choose|j: int|
                        0 <= j < pre.num_hashes() && pre.spec_index_of(j, data) == i;
                    assert(indices@[j] as int == i);
                }
            }
            assert forall|j: int|
                0 <= j < post.num_hashes() implies post.bits()[post.spec_index_of(j, data)] by {
                let i = pre.spec_index_of(j, data);
                assert(post.spec_index_of(j, data) == i);
                assert(0 <= i < post.num_bits());
                assert(pre.spec_hits(i, data));
            }
            assert forall|d: Seq<u8>| pre.spec_contains(d) implies post.spec_contains(d) by {
                assert forall|j: int|
                    0 <= j < post.num_hashes() implies post.bits()[post.spec_index_of(j, d)] by {
                    let i = pre.spec_index_of(j, d);
                    assert(post.spec_index_of(j, d) == i);
                    assert(0 <= i < post.num_bits());
                    assert(pre.bits()[i]);
                }
            }
        }
    }

    /// Tests `x` for membership: true if and only if every bit index
    /// derived for it is set. Read-only; never a false negative for an
    /// element previously inserted into this filter.
    pub fn test<T: Hashable + ?Sized>(&self, x: &T) -> (r: bool)
        requires
            self.wf(),
        ensures
            r == self.spec_contains(x.repr()),
    {
        let indices = self.calculate_hashes(x);
        let mut all = true;
        let mut t: usize = 0;
        while t < indices.len()
            invariant
                self.wf(),
                t <= indices@.len(),
                indices@.len() == self.num_hashes(),
                forall|j: int|
                    0 <= j < indices@.len() ==> indices@[j] as int == self.spec_index_of(
                        j,
                        x.repr(),
                    ),
                forall|j: int| 0 <= j < indices@.len() ==> (indices@[j] as nat) < self.num_bits(),
                all == forall|j: int|
                    0 <= j < t ==> self.bits()[#[trigger] self.spec_index_of(j, x.repr())],
            decreases indices@.len() - t,
        {
            let bit = bits_get(&self.filter, indices[t]).unwrap_or(false);
            proof {
                assert(bit == self.bits()[self.spec_index_of(t as int, x.repr())]);
            }
            all = all && bit;
            t = t + 1;
        }
        all
    }

    /// Tests `x` and, if it was absent, inserts it: returns whether the
    /// filter already contained `x`, mutating nothing when it did and
    /// setting exactly the bit indices derived for `x` when it did not.
    pub fn test_and_set<T: Hashable + ?Sized>(&mut self, x: &T) -> (r: bool)
        requires
            old(self).wf(),
        ensures
            r == old(self).spec_contains(x.repr()),
            final(self).wf(),
            final(self).keys() == old(self).keys(),
            final(self).num_bits() == old(self).num_bits(),
            r ==> *final(self) == *old(self),
            forall|i: int|
                0 <= i < final(self).num_bits() ==> final(self).bits()[i] == (old(self).bits()[i]
                    || old(self).spec_hits(i, x.repr())),
            final(self).spec_contains(x.repr()),
            forall|data: Seq<u8>|
                old(self).spec_contains(data) ==> final(self).spec_contains(data),
    {
        if self.test(x) {
            proof {
                let data = x.repr();
                let pre = *old(self);
                assert forall|i: int|
                    0 <= i < pre.num_bits() implies pre.bits()[i] == (pre.bits()[i]
                    || pre.spec_hits(i, data)) by {
                    if pre.spec_hits(i, data) {
                        let j = choose|j: int|
                            0 <= j < pre.num_hashes() && pre.spec_index_of(j, data) == i;
                        assert(pre.bits()[pre.spec_index_of(j, data)]);
                    }
                }
            }
            return true;
        }
        self.set(x);
        false
    }

    /// The length of the bit array, as `set` and `test` see it.
    pub fn bit_count(&self) -> (r: usize)
        ensures
            r as nat == self.num_bits(),
    {
        bits_len(&self.filter)
    }

    /// The number of hash functions applied per element.
    pub fn hash_count(&self) -> (r: usize)
        ensures
            r as nat == self.num_hashes(),
    {
        self.hashes.len()
    }
}

/// Law: membership answers never decay while bits only gain. If `pre`
/// contained `data`, and `post` has the same hash keys, the same bit-array
/// length, and every set bit of `pre` still set, then `post` contains
/// `data`. With `set`'s contract this gives both the no-false-negative
/// guarantee (an inserted element stays positive through any later
/// insertions) and monotonicity (a positive answer never turns negative).
pub proof fn lemma_membership_monotone(pre: BloomFilter, post: BloomFilter, data: Seq<u8>)
    requires
        pre.wf(),
        post.keys() == pre.keys(),
        post.num_bits() == pre.num_bits(),
        forall|i: int| 0 <= i < pre.num_bits() && pre.bits()[i] ==> post.bits()[i],
        pre.spec_contains(data),
    ensures
        post.spec_contains(data),
{
    assert forall|j: int|
        0 <= j < post.num_hashes() implies post.bits()[post.spec_index_of(j, data)] by {
        let i = pre.spec_index_of(j, data);
        assert(post.spec_index_of(j, data) == i);
        assert(0 <= i < pre.num_bits());
        assert(pre.bits()[i]);
    }
}

/// Law: both construction paths are equivalent in the guarantee they give.
/// The constructors differ only in which sizing parameter they derive, so
/// the no-false-negative step is stated here of every well-formed filter,
/// whichever constructor produced it: a state that relates to `pre` as
/// `set`'s contract says for `data` contains `data`.
pub proof fn lemma_set_establishes_membership(pre: BloomFilter, post: BloomFilter, data: Seq<u8>)
    requires
        pre.wf(),
        post.keys() == pre.keys(),
        post.num_bits() == pre.num_bits(),
        forall|i: int|
            0 <= i < post.num_bits() ==> post.bits()[i] == (pre.bits()[i] || pre.spec_hits(
                i,
                data,
            )),
    ensures
        post.spec_contains(data),
{
    assert forall|j: int|
        0 <= j < post.num_hashes() implies post.bits()[post.spec_index_of(j, data)] by {
        let i = pre.spec_index_of(j, data);
        assert(post.spec_index_of(j, data) == i);
        assert(0 <= i < post.num_bits());
        assert(pre.spec_hits(i, data));
    }
}

/// Law: `test` is deterministic. Its contract fixes the result as
/// `spec_contains` of the filter state and the element's representation, so
/// any two results obtained from the same state for the same element agree.
pub proof fn lemma_test_deterministic(f: BloomFilter, data: Seq<u8>, r1: bool, r2: bool)
    requires
        r1 == f.spec_contains(data),
        r2 == f.spec_contains(data),
    ensures
        r1 == r2,
{
}

/// Law: inserting an element the filter already contains changes nothing.
/// If `pre` contained `data` and `post` relates to `pre` as `set`'s
/// contract says for `data`, then the bit arrays are equal: re-setting
/// already-true bits is a no-op, so a second `test_and_set` of the same
/// element reports true and leaves the filter as it was.
pub proof fn lemma_set_noop_when_contained(pre: BloomFilter, post: BloomFilter, data: Seq<u8>)
    requires
        pre.wf(),
        pre.spec_contains(data),
        post.num_bits() == pre.num_bits(),
        forall|i: int|
            0 <= i < post.num_bits() ==> post.bits()[i] == (pre.bits()[i] || pre.spec_hits(
                i,
                data,
            )),
    ensures
        post.bits() == pre.bits(),
{
    assert forall|i: int| 0 <= i < post.num_bits() implies post.bits()[i] == pre.bits()[i] by {
        if pre.spec_hits(i, data) {
            let j = choose|j: int| 0 <= j < pre.num_hashes() && pre.spec_index_of(j, data) == i;
            assert(pre.bits()[pre.spec_index_of(j, data)]);
        }
    }
    assert(post.bits() =~= pre.bits());
}

/// For positive `k` and `n` whose derived bit budget fits the machine word,
/// the intermediate product stays below `2 ^ 80` and the budget itself is
/// at least one.
proof fn lemma_bit_count_bounds(k: int, n: int)
    requires
        k >= 1,
        n >= 1,
        spec_bit_count(k, n) <= usize::MAX as int,
    ensures
        k * n * 100000 + 30102 < 0x100000000000000000000,
        1 <= spec_bit_count(k, n),
{
    let a = k * n * 100000 + 30102;
    assert(k * n >= 1) by (nonlinear_arith)
        requires
            k >= 1 && n >= 1,
    ;
    assert(a >= 130102) by (nonlinear_arith)
        requires
            k * n >= 1 && a == k * n * 100000 + 30102,
    ;
    vstd::arithmetic::div_mod::lemma_fundamental_div_mod(a, 30103);
    vstd::arithmetic::div_mod::lemma_mod_bound(a, 30103);
    assert(a == 30103 * (a / 30103) + a % 30103);
    assert(a <= 30103 * (usize::MAX as int) + 30102);
    assert(spec_bit_count(k, n) >= 1);
}

} // verus!
