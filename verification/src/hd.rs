//! Hyper-dimensional 0/1 vectors stored as 64-bit lanes: deterministic
//! seeding, binding by XOR, permutation by rotation and Hamming distance.

use vstd::prelude::*;
use vstd::utf8::*;
use vstd::wrapping::u64_specs::{wrapping_add, wrapping_mul};

verus! {

/// A 0/1 vector of `dim` bits; bit `i` is bit `i % 64` of lane `i / 64`.
#[derive(Clone, Debug)]
pub struct BitVec {
    pub dim: usize,
    pub lanes: Vec<u64>,
}

/// The number of lanes that hold `dim` bits.
pub open spec fn lanes_for(dim: int) -> int {
    (dim + 63) / 64
}

/// Bit `j` (below 64) of `x`.
pub open spec fn lane_bit_of(x: u64, j: int) -> bool {
    (x >> (j as u64)) & 1 == 1
}

/// Bit `i` of a lane sequence.
pub open spec fn lanes_bit(lanes: Seq<u64>, i: int) -> bool {
    lane_bit_of(lanes[i / 64], i % 64)
}

impl BitVec {
    /// Bit `i` of the vector.
    pub open spec fn bit(&self, i: int) -> bool {
        lanes_bit(self.lanes@, i)
    }

    /// Every bit position that the lanes hold.
    pub open spec fn capacity(&self) -> int {
        64 * self.lanes@.len() as int
    }

    /// The lanes hold exactly the dimension, rounded up to whole lanes.
    pub open spec fn well_formed(&self) -> bool {
        self.lanes@.len() == lanes_for(self.dim as int)
    }
}

proof fn lemma_bit_or(x: u64, b: u64, j: u64)
    requires
        b < 64,
        j < 64,
    ensures
        ((x | (1u64 << b)) >> j) & 1 == (if j == b {
            1
        } else {
            (x >> j) & 1
        }),
{
    assert(((x | (1u64 << b)) >> j) & 1 == (if j == b {
        1
    } else {
        (x >> j) & 1
    })) by (bit_vector)
        requires
            b < 64,
            j < 64,
    ;
}

proof fn lemma_bit_zero(j: u64)
    requires
        j < 64,
    ensures
        (0u64 >> j) & 1 == 0,
{
    assert((0u64 >> j) & 1 == 0) by (bit_vector);
}

/// Two lanes with the same 64 bits are the same lane.
pub proof fn lemma_lane_ext(x: u64, y: u64)
    requires
        forall|j: int| 0 <= j < 64 ==> lane_bit_of(x, j) == lane_bit_of(y, j),
    ensures
        x == y,
{
    assert forall|j: u64| j < 64 implies ((x >> j) & 1) == ((y >> j) & 1) by {
        assert(lane_bit_of(x, j as int) == lane_bit_of(y, j as int));
        assert((x >> j) & 1 <= 1 && (y >> j) & 1 <= 1) by (bit_vector);
    }
    assert(x == y) by (bit_vector)
        requires
            (x >> 0u64) & 1 == (y >> 0u64) & 1,
            (x >> 1u64) & 1 == (y >> 1u64) & 1,
            (x >> 2u64) & 1 == (y >> 2u64) & 1,
            (x >> 3u64) & 1 == (y >> 3u64) & 1,
            (x >> 4u64) & 1 == (y >> 4u64) & 1,
            (x >> 5u64) & 1 == (y >> 5u64) & 1,
            (x >> 6u64) & 1 == (y >> 6u64) & 1,
            (x >> 7u64) & 1 == (y >> 7u64) & 1,
            (x >> 8u64) & 1 == (y >> 8u64) & 1,
            (x >> 9u64) & 1 == (y >> 9u64) & 1,
            (x >> 10u64) & 1 == (y >> 10u64) & 1,
            (x >> 11u64) & 1 == (y >> 11u64) & 1,
            (x >> 12u64) & 1 == (y >> 12u64) & 1,
            (x >> 13u64) & 1 == (y >> 13u64) & 1,
            (x >> 14u64) & 1 == (y >> 14u64) & 1,
            (x >> 15u64) & 1 == (y >> 15u64) & 1,
            (x >> 16u64) & 1 == (y >> 16u64) & 1,
            (x >> 17u64) & 1 == (y >> 17u64) & 1,
            (x >> 18u64) & 1 == (y >> 18u64) & 1,
            (x >> 19u64) & 1 == (y >> 19u64) & 1,
            (x >> 20u64) & 1 == (y >> 20u64) & 1,
            (x >> 21u64) & 1 == (y >> 21u64) & 1,
            (x >> 22u64) & 1 == (y >> 22u64) & 1,
            (x >> 23u64) & 1 == (y >> 23u64) & 1,
            (x >> 24u64) & 1 == (y >> 24u64) & 1,
            (x >> 25u64) & 1 == (y >> 25u64) & 1,
            (x >> 26u64) & 1 == (y >> 26u64) & 1,
            (x >> 27u64) & 1 == (y >> 27u64) & 1,
            (x >> 28u64) & 1 == (y >> 28u64) & 1,
            (x >> 29u64) & 1 == (y >> 29u64) & 1,
            (x >> 30u64) & 1 == (y >> 30u64) & 1,
            (x >> 31u64) & 1 == (y >> 31u64) & 1,
            (x >> 32u64) & 1 == (y >> 32u64) & 1,
            (x >> 33u64) & 1 == (y >> 33u64) & 1,
            (x >> 34u64) & 1 == (y >> 34u64) & 1,
            (x >> 35u64) & 1 == (y >> 35u64) & 1,
            (x >> 36u64) & 1 == (y >> 36u64) & 1,
            (x >> 37u64) & 1 == (y >> 37u64) & 1,
            (x >> 38u64) & 1 == (y >> 38u64) & 1,
            (x >> 39u64) & 1 == (y >> 39u64) & 1,
            (x >> 40u64) & 1 == (y >> 40u64) & 1,
            (x >> 41u64) & 1 == (y >> 41u64) & 1,
            (x >> 42u64) & 1 == (y >> 42u64) & 1,
            (x >> 43u64) & 1 == (y >> 43u64) & 1,
            (x >> 44u64) & 1 == (y >> 44u64) & 1,
            (x >> 45u64) & 1 == (y >> 45u64) & 1,
            (x >> 46u64) & 1 == (y >> 46u64) & 1,
            (x >> 47u64) & 1 == (y >> 47u64) & 1,
            (x >> 48u64) & 1 == (y >> 48u64) & 1,
            (x >> 49u64) & 1 == (y >> 49u64) & 1,
            (x >> 50u64) & 1 == (y >> 50u64) & 1,
            (x >> 51u64) & 1 == (y >> 51u64) & 1,
            (x >> 52u64) & 1 == (y >> 52u64) & 1,
            (x >> 53u64) & 1 == (y >> 53u64) & 1,
            (x >> 54u64) & 1 == (y >> 54u64) & 1,
            (x >> 55u64) & 1 == (y >> 55u64) & 1,
            (x >> 56u64) & 1 == (y >> 56u64) & 1,
            (x >> 57u64) & 1 == (y >> 57u64) & 1,
            (x >> 58u64) & 1 == (y >> 58u64) & 1,
            (x >> 59u64) & 1 == (y >> 59u64) & 1,
            (x >> 60u64) & 1 == (y >> 60u64) & 1,
            (x >> 61u64) & 1 == (y >> 61u64) & 1,
            (x >> 62u64) & 1 == (y >> 62u64) & 1,
            (x >> 63u64) & 1 == (y >> 63u64) & 1,
    ;
}

/// Setting bit `idx` of a lane sequence: only that bit changes.
proof fn lemma_set_lane_bit(lanes: Seq<u64>, idx: int, i: int)
    requires
        0 <= idx < 64 * lanes.len(),
        0 <= i < 64 * lanes.len(),
    ensures
        lanes_bit(
            lanes.update(idx / 64, lanes[idx / 64] | (1u64 << ((idx % 64) as u64))),
            i,
        ) == (i == idx || lanes_bit(lanes, i)),
{
    let b = (idx % 64) as u64;
    let j = (i % 64) as u64;
    lemma_bit_or(lanes[idx / 64], b, j);
    if i / 64 == idx / 64 {
        assert(i == idx <==> i % 64 == idx % 64);
    }
}

impl BitVec {
    /// An all-zero vector of dimension `dim`.
    pub fn new(dim: usize) -> (r: Self)
        requires
            dim + 63 <= usize::MAX,
        ensures
            r.dim == dim,
            r.well_formed(),
            forall|i: int| 0 <= i < r.capacity() ==> !r.bit(i),
            r.lanes@ == Seq::new(lanes_for(dim as int) as nat, |l: int| 0u64),
    {
        let n = (dim + 63) / 64;
        let mut lanes: Vec<u64> = Vec::new();
        let mut k: usize = 0;
        while k < n
            invariant
                k <= n,
                lanes@ == Seq::new(k as nat, |l: int| 0u64),
            decreases n - k,
        {
            lanes.push(0);
            k = k + 1;
            assert(lanes@ =~= Seq::new(k as nat, |l: int| 0u64));
        }
        let r = BitVec { dim, lanes };
        assert forall|i: int| 0 <= i < r.capacity() implies !r.bit(i) by {
            lemma_bit_zero((i % 64) as u64);
        }
        r
    }

    /// A copy of this vector.
    pub fn duplicate(&self) -> (r: Self)
        ensures
            r.dim == self.dim,
            r.lanes@ == self.lanes@,
    {
        let mut lanes: Vec<u64> = Vec::new();
        let mut k: usize = 0;
        while k < self.lanes.len()
            invariant
                k <= self.lanes@.len(),
                lanes@ == self.lanes@.subrange(0, k as int),
            decreases self.lanes@.len() - k,
        {
            lanes.push(self.lanes[k]);
            k = k + 1;
            assert(lanes@ =~= self.lanes@.subrange(0, k as int));
        }
        assert(self.lanes@.subrange(0, self.lanes@.len() as int) =~= self.lanes@);
        BitVec { dim: self.dim, lanes }
    }

    /// Bit `idx`.
    pub fn get_bit(&self, idx: usize) -> (r: bool)
        requires
            idx < self.capacity(),
        ensures
            r == self.bit(idx as int),
    {
        let lane = idx / 64;
        let bit = idx % 64;
        (self.lanes[lane] >> (bit as u64)) & 1 == 1
    }

    /// Sets bit `idx`, leaving every other bit as it was.
    pub fn set_bit(&mut self, idx: usize)
        requires
            idx < old(self).capacity(),
        ensures
            final(self).dim == old(self).dim,
            final(self).lanes@.len() == old(self).lanes@.len(),
            final(self).lanes@ == old(self).lanes@.update(
                idx as int / 64,
                old(self).lanes@[idx as int / 64] | (1u64 << ((idx % 64) as u64)),
            ),
            forall|i: int|
                0 <= i < final(self).capacity() ==> final(self).bit(i) == (i == idx || old(
                    self,
                ).bit(i)),
    {
        let lane = idx / 64;
        let bit = idx % 64;
        let value = self.lanes[lane] | (1u64 << (bit as u64));
        self.lanes.set(lane, value);
        proof {
            assert forall|i: int| 0 <= i < self.capacity() implies self.bit(i) == (i == idx || old(
                self,
            ).bit(i)) by {
                lemma_set_lane_bit(old(self).lanes@, idx as int, i);
            }
        }
    }

    /// Lane-wise XOR; lanes beyond the shorter vector are dropped.
    pub fn xor(&self, other: &BitVec) -> (r: BitVec)
        requires
            self.dim == other.dim,
        ensures
            r.dim == self.dim,
            r.lanes@.len() == if self.lanes@.len() <= other.lanes@.len() {
                self.lanes@.len()
            } else {
                other.lanes@.len()
            },
            forall|l: int| 0 <= l < r.lanes@.len() ==> r.lanes@[l] == self.lanes@[l] ^ other.lanes@[l],
    {
        let n = if self.lanes.len() <= other.lanes.len() {
            self.lanes.len()
        } else {
            other.lanes.len()
        };
        let mut lanes: Vec<u64> = Vec::new();
        let mut k: usize = 0;
        while k < n
            invariant
                k <= n,
                n <= self.lanes@.len(),
                n <= other.lanes@.len(),
                lanes@.len() == k,
                forall|l: int| 0 <= l < k ==> lanes@[l] == self.lanes@[l] ^ other.lanes@[l],
            decreases n - k,
        {
            lanes.push(self.lanes[k] ^ other.lanes[k]);
            k = k + 1;
        }
        BitVec { dim: self.dim, lanes }
    }

    /// Rotates the `dim` bits left by `k` places: bit `i` of the result is
    /// bit `(i - k) mod dim` of `self`.
    pub fn rotate_left(&self, k: usize) -> (r: BitVec)
        requires
            self.dim > 0,
            self.dim <= self.capacity(),
            self.dim + 63 <= usize::MAX,
        ensures
            r.dim == self.dim,
            k % self.dim == 0 ==> r.lanes@ == self.lanes@,
            k % self.dim != 0 ==> r.well_formed() && forall|i: int|
                0 <= i < r.capacity() ==> r.bit(i) == (i < self.dim && self.bit(
                    (i + self.dim - k % self.dim) % (self.dim as int),
                )),
    {
        let dim = self.dim;
        let shift = k % dim;
        if shift == 0 {
            return BitVec { dim, lanes: self.lanes.clone() };
        }
        let mut res = BitVec::new(dim);
        let mut i: usize = 0;
        while i < dim
            invariant
                i <= dim,
                0 < shift < dim,
                dim == self.dim,
                dim <= self.capacity(),
                res.dim == dim,
                res.well_formed(),
                dim + 63 <= usize::MAX,
                forall|j: int|
                    0 <= j < res.capacity() ==> res.bit(j) == (j < i && self.bit(
                        (j + dim - shift) % (dim as int),
                    )),
            decreases dim - i,
        {
            let src = if i >= shift {
                i - shift
            } else {
                i + (dim - shift)
            };
            assert(src == (i + dim - shift) % (dim as int)) by {
                if i >= shift {
                    assert((i + dim - shift) % (dim as int) == i - shift) by {
                        vstd::arithmetic::div_mod::lemma_mod_add_multiples_vanish(
                            (i - shift) as int,
                            dim as int,
                        );
                        vstd::arithmetic::div_mod::lemma_small_mod((i - shift) as nat, dim as nat);
                    }
                } else {
                    vstd::arithmetic::div_mod::lemma_small_mod((i + dim - shift) as nat, dim as nat);
                }
            }
            assert(lanes_for(dim as int) * 64 >= dim);
            if self.get_bit(src) {
                res.set_bit(i);
            }
            i = i + 1;
        }
        res
    }
}

// ---------------------------------------------------------------------
// Hamming distance
// ---------------------------------------------------------------------

/// The number of set bits among the `n` low bits of `x`.
pub open spec fn popcount_upto(x: u64, n: int) -> int
    decreases n,
{
    if n <= 0 {
        0
    } else {
        popcount_upto(x, n - 1) + if lane_bit_of(x, n - 1) {
            1int
        } else {
            0int
        }
    }
}

/// The number of set bits of `x`.
pub open spec fn popcount(x: u64) -> int {
    popcount_upto(x, 64)
}

/// The bits in which the first `n` lanes of `a` and `b` differ.
pub open spec fn lane_distance(a: Seq<u64>, b: Seq<u64>, n: int) -> int
    decreases n,
{
    if n <= 0 {
        0
    } else {
        lane_distance(a, b, n - 1) + popcount(a[n - 1] ^ b[n - 1])
    }
}

proof fn lemma_popcount_upto_bounds(x: u64, n: int)
    requires
        0 <= n <= 64,
    ensures
        0 <= popcount_upto(x, n) <= n,
    decreases n,
{
    if n > 0 {
        lemma_popcount_upto_bounds(x, n - 1);
    }
}

proof fn lemma_lane_distance_bounds(a: Seq<u64>, b: Seq<u64>, n: int)
    requires
        0 <= n,
    ensures
        0 <= lane_distance(a, b, n) <= 64 * n,
    decreases n,
{
    if n > 0 {
        lemma_lane_distance_bounds(a, b, n - 1);
        lemma_popcount_upto_bounds(a[n - 1] ^ b[n - 1], 64);
    }
}

fn count_ones(x: u64) -> (r: u32)
    ensures
        r == popcount(x),
{
    let mut count: u32 = 0;
    let mut j: u64 = 0;
    while j < 64
        invariant
            j <= 64,
            count == popcount_upto(x, j as int),
            count <= j,
        decreases 64 - j,
    {
        if (x >> j) & 1 == 1 {
            count = count + 1;
        }
        j = j + 1;
    }
    count
}

/// The number of bit positions, over the lanes both vectors hold, in
/// which they differ.
pub fn hamming_distance(a: &BitVec, b: &BitVec) -> (r: usize)
    requires
        a.dim == b.dim,
        64 * a.lanes@.len() <= usize::MAX,
    ensures
        r == lane_distance(
            a.lanes@,
            b.lanes@,
            if a.lanes@.len() <= b.lanes@.len() {
                a.lanes@.len() as int
            } else {
                b.lanes@.len() as int
            },
        ),
{
    let n = if a.lanes.len() <= b.lanes.len() {
        a.lanes.len()
    } else {
        b.lanes.len()
    };
    let mut total: usize = 0;
    let mut k: usize = 0;
    while k < n
        invariant
            k <= n,
            n <= a.lanes@.len(),
            n <= b.lanes@.len(),
            64 * a.lanes@.len() <= usize::MAX,
            total == lane_distance(a.lanes@, b.lanes@, k as int),
        decreases n - k,
    {
        proof {
            lemma_lane_distance_bounds(a.lanes@, b.lanes@, k + 1);
        }
        total = total + count_ones(a.lanes[k] ^ b.lanes[k]) as usize;
        k = k + 1;
    }
    total
}

proof fn lemma_popcount_zero_upto(n: int)
    requires
        0 <= n <= 64,
    ensures
        popcount_upto(0, n) == 0,
    decreases n,
{
    if n > 0 {
        lemma_popcount_zero_upto(n - 1);
        lemma_bit_zero((n - 1) as u64);
    }
}

proof fn lemma_distance_self(a: Seq<u64>, n: int)
    requires
        0 <= n <= a.len(),
    ensures
        lane_distance(a, a, n) == 0,
    decreases n,
{
    if n > 0 {
        lemma_distance_self(a, n - 1);
        assert(a[n - 1] ^ a[n - 1] == 0) by (bit_vector);
        lemma_popcount_zero_upto(64);
    }
}

proof fn lemma_distance_symmetric(a: Seq<u64>, b: Seq<u64>, n: int)
    requires
        0 <= n <= a.len(),
        n <= b.len(),
    ensures
        lane_distance(a, b, n) == lane_distance(b, a, n),
    decreases n,
{
    if n > 0 {
        lemma_distance_symmetric(a, b, n - 1);
        let x = a[n - 1];
        let y = b[n - 1];
        assert(x ^ y == y ^ x) by (bit_vector);
    }
}

/// A vector is at distance zero from itself.
pub proof fn lemma_hamming_self_zero(a: BitVec)
    ensures
        lane_distance(a.lanes@, a.lanes@, a.lanes@.len() as int) == 0,
{
    lemma_distance_self(a.lanes@, a.lanes@.len() as int);
}

/// Hamming distance does not depend on the order of its arguments.
pub proof fn lemma_hamming_symmetric(a: BitVec, b: BitVec)
    ensures
        lane_distance(
            a.lanes@,
            b.lanes@,
            if a.lanes@.len() <= b.lanes@.len() {
                a.lanes@.len() as int
            } else {
                b.lanes@.len() as int
            },
        ) == lane_distance(
            b.lanes@,
            a.lanes@,
            if b.lanes@.len() <= a.lanes@.len() {
                b.lanes@.len() as int
            } else {
                a.lanes@.len() as int
            },
        ),
{
    let n = if a.lanes@.len() <= b.lanes@.len() {
        a.lanes@.len() as int
    } else {
        b.lanes@.len() as int
    };
    lemma_distance_symmetric(a.lanes@, b.lanes@, n);
}


// ---------------------------------------------------------------------
// Deterministic seeding: FNV-1a of the label seeds Xoshiro256+ through
// SplitMix64; bit `i` is the low bit of the generator's `i`-th output.
// ---------------------------------------------------------------------

pub const FNV_OFFSET: u64 = 0xcbf29ce484222325;
pub const FNV_PRIME: u64 = 0x100000001b3;

/// The 64-bit FNV-1a hash of `bytes`.
pub open spec fn fnv1a_of(bytes: Seq<u8>) -> u64
    decreases bytes.len(),
{
    if bytes.len() == 0 {
        FNV_OFFSET
    } else {
        wrapping_mul(fnv1a_of(bytes.drop_last()) ^ (bytes.last() as u64), FNV_PRIME)
    }
}

fn fnv1a_hash64(text: &str) -> (r: u64)
    ensures
        r == fnv1a_of(encode_utf8(text@)),
{
    let bytes = text.as_bytes();
    let mut hash: u64 = FNV_OFFSET;
    let mut i: usize = 0;
    while i < bytes.len()
        invariant
            i <= bytes@.len(),
            hash == fnv1a_of(bytes@.subrange(0, i as int)),
        decreases bytes@.len() - i,
    {
        assert(bytes@.subrange(0, i + 1).drop_last() =~= bytes@.subrange(0, i as int));
        hash = (hash ^ (bytes[i] as u64)).wrapping_mul(FNV_PRIME);
        i = i + 1;
    }
    assert(bytes@.subrange(0, bytes@.len() as int) =~= bytes@);
    hash
}

/// The SplitMix64 state after one step from `x`.
pub open spec fn splitmix_state(x: u64) -> u64 {
    wrapping_add(x, 0x9E3779B97F4A7C15)
}

/// The SplitMix64 output of the step from `x`.
pub open spec fn splitmix_out(x: u64) -> u64 {
    let z0 = splitmix_state(x);
    let z1 = wrapping_mul(z0 ^ (z0 >> 30u64), 0xBF58476D1CE4E5B9);
    let z2 = wrapping_mul(z1 ^ (z1 >> 27u64), 0x94D049BB133111EB);
    z2 ^ (z2 >> 31u64)
}

fn splitmix64(state: &mut u64) -> (r: u64)
    ensures
        *final(state) == splitmix_state(*old(state)),
        r == splitmix_out(*old(state)),
{
    *state = state.wrapping_add(0x9E3779B97F4A7C15);
    let mut z = *state;
    z = (z ^ (z >> 30u64)).wrapping_mul(0xBF58476D1CE4E5B9);
    z = (z ^ (z >> 27u64)).wrapping_mul(0x94D049BB133111EB);
    z ^ (z >> 31u64)
}

/// `x` rotated left by 45 bits.
pub open spec fn rotl45(x: u64) -> u64 {
    (x << 45u64) | (x >> 19u64)
}

/// The Xoshiro256+ state that `seed` starts from.
pub open spec fn xoshiro_seed_state(seed: u64) -> Seq<u64> {
    let x1 = splitmix_state(seed);
    let x2 = splitmix_state(x1);
    let x3 = splitmix_state(x2);
    seq![splitmix_out(seed), splitmix_out(x1), splitmix_out(x2), splitmix_out(x3)]
}

/// The output of a Xoshiro256+ step from state `s`.
pub open spec fn xoshiro_output(s: Seq<u64>) -> u64 {
    wrapping_add(s[0], s[3])
}

/// The generator's output is the wrapping sum of the first and last
/// state words: it does not depend on the two middle words, it is the
/// first word where the last is zero, and it goes up by one (wrapping)
/// when the last word does.
pub proof fn lemma_xoshiro_output_is_first_plus_last(s: Seq<u64>, t: Seq<u64>)
    requires
        s.len() == 4,
        t.len() == 4,
    ensures
        s[0] == t[0] && s[3] == t[3] ==> xoshiro_output(s) == xoshiro_output(t),
        s[3] == 0 ==> xoshiro_output(s) == s[0],
        s[0] == t[0] && t[3] == wrapping_add(s[3], 1) ==> xoshiro_output(t) == wrapping_add(
            xoshiro_output(s),
            1,
        ),
{
}

/// The Xoshiro256+ state after one step from `s`.
pub open spec fn xoshiro_step(s: Seq<u64>) -> Seq<u64> {
    let t = s[1] << 17u64;
    let s2 = s[2] ^ s[0];
    let s3 = s[3] ^ s[1];
    let s1 = s[1] ^ s2;
    let s0 = s[0] ^ s3;
    seq![s0, s1, s2 ^ t, rotl45(s3)]
}

/// The state after `n` steps from `s`.
pub open spec fn xoshiro_nth(s: Seq<u64>, n: nat) -> Seq<u64>
    decreases n,
{
    if n == 0 {
        s
    } else {
        xoshiro_step(xoshiro_nth(s, (n - 1) as nat))
    }
}

/// Xoshiro256+ pseudo-random generator.
#[derive(Clone)]
pub struct Xoshiro256Plus {
    s: [u64; 4],
}

impl View for Xoshiro256Plus {
    type V = Seq<u64>;

    closed spec fn view(&self) -> Seq<u64> {
        self.s@
    }
}

impl Xoshiro256Plus {
    /// The generator whose state four SplitMix64 steps from `seed` fill.
    pub fn seed_from_u64(seed: u64) -> (r: Self)
        ensures
            r@ == xoshiro_seed_state(seed),
    {
        let mut x = seed;
        let a = splitmix64(&mut x);
        let b = splitmix64(&mut x);
        let c = splitmix64(&mut x);
        let d = splitmix64(&mut x);
        let r = Xoshiro256Plus { s: [a, b, c, d] };
        assert(r.s@ =~= xoshiro_seed_state(seed));
        r
    }

    /// The next output; the state takes one step.
    pub fn next_u64(&mut self) -> (r: u64)
        ensures
            r == xoshiro_output(old(self)@),
            final(self)@ == xoshiro_step(old(self)@),
    {
        let s0 = self.s[0];
        let s1 = self.s[1];
        let s2 = self.s[2];
        let s3 = self.s[3];
        let result = s0.wrapping_add(s3);
        let t = s1 << 17u64;
        let n2 = s2 ^ s0;
        let n3 = s3 ^ s1;
        let n1 = s1 ^ n2;
        let n0 = s0 ^ n3;
        let m3 = (n3 << 45u64) | (n3 >> 19u64);
        self.s = [n0, n1, n2 ^ t, m3];
        assert(self.s@ =~= xoshiro_step(old(self)@));
        result
    }
}

/// Bit `i` of the vector seeded from `label`.
pub open spec fn seed_bit(label: Seq<char>, i: nat) -> bool {
    xoshiro_output(xoshiro_nth(xoshiro_seed_state(fnv1a_of(encode_utf8(label))), i)) & 1 == 1
}

/// `v` is the vector of dimension `dim` seeded from `label`.
pub open spec fn seeded_from(v: BitVec, label: Seq<char>, dim: usize) -> bool {
    &&& v.dim == dim
    &&& v.well_formed()
    &&& forall|i: int| 0 <= i < v.capacity() ==> v.bit(i) == (i < dim && seed_bit(label, i as nat))
}

impl BitVec {
    /// The deterministic vector of dimension `dim` for `label`.
    pub fn seed(label: &str, dim: usize) -> (r: Self)
        requires
            dim + 63 <= usize::MAX,
        ensures
            seeded_from(r, label@, dim),
    {
        let mut rng = Xoshiro256Plus::seed_from_u64(fnv1a_hash64(label));
        let ghost start = rng@;
        let mut v = BitVec::new(dim);
        let mut i: usize = 0;
        while i < dim
            invariant
                i <= dim,
                v.dim == dim,
                v.well_formed(),
                dim + 63 <= usize::MAX,
                start == xoshiro_seed_state(fnv1a_of(encode_utf8(label@))),
                rng@ == xoshiro_nth(start, i as nat),
                forall|j: int|
                    0 <= j < v.capacity() ==> v.bit(j) == (j < i && seed_bit(label@, j as nat)),
            decreases dim - i,
        {
            assert(lanes_for(dim as int) * 64 >= dim);
            let out = rng.next_u64();
            if out & 1 == 1 {
                v.set_bit(i);
            }
            i = i + 1;
        }
        v
    }
}

/// Vectors with the same lanes length and the same bits have the same
/// lanes.
pub proof fn lemma_bits_determine_lanes(a: BitVec, b: BitVec)
    requires
        a.lanes@.len() == b.lanes@.len(),
        forall|i: int| 0 <= i < a.capacity() ==> a.bit(i) == b.bit(i),
    ensures
        a.lanes@ == b.lanes@,
{
    assert forall|l: int| 0 <= l < a.lanes@.len() implies a.lanes@[l] == b.lanes@[l] by {
        assert forall|j: int| 0 <= j < 64 implies lane_bit_of(a.lanes@[l], j) == lane_bit_of(
            b.lanes@[l],
            j,
        ) by {
            let i = 64 * l + j;
            assert(i / 64 == l && i % 64 == j) by (nonlinear_arith)
                requires
                    i == 64 * l + j,
                    0 <= j < 64,
                    0 <= l,
            ;
            assert(a.bit(i) == b.bit(i));
        }
        lemma_lane_ext(a.lanes@[l], b.lanes@[l]);
    }
    assert(a.lanes@ =~= b.lanes@);
}

/// Seeding is a function of the label and the dimension.
pub proof fn lemma_seed_deterministic(a: BitVec, b: BitVec, label: Seq<char>, dim: usize)
    requires
        seeded_from(a, label, dim),
        seeded_from(b, label, dim),
    ensures
        a.lanes@ == b.lanes@,
{
    lemma_bits_determine_lanes(a, b);
}


/// How many of the two vectors have bit `i` set.
pub open spec fn ones_at(a: BitVec, b: BitVec, i: int) -> int {
    (if a.bit(i) {
        1int
    } else {
        0int
    }) + (if b.bit(i) {
        1int
    } else {
        0int
    })
}

/// Bundles two vectors bit by bit: bit `i` is set where `keep` holds for
/// the number of inputs that have it set (the threshold test that the
/// caller decides).
pub fn threshold_bundle(a: &BitVec, b: &BitVec, keep: [bool; 3]) -> (r: BitVec)
    requires
        a.dim == b.dim,
        a.dim <= a.capacity(),
        a.dim <= b.capacity(),
        a.dim + 63 <= usize::MAX,
    ensures
        r.dim == a.dim,
        r.well_formed(),
        forall|i: int|
            0 <= i < r.capacity() ==> r.bit(i) == (i < a.dim && keep@[ones_at(*a, *b, i)]),
{
    let dim = a.dim;
    let mut res = BitVec::new(dim);
    let mut i: usize = 0;
    while i < dim
        invariant
            i <= dim,
            dim == a.dim,
            a.dim == b.dim,
            dim <= a.capacity(),
            dim <= b.capacity(),
            res.dim == dim,
            res.well_formed(),
            dim + 63 <= usize::MAX,
            forall|j: int|
                0 <= j < res.capacity() ==> res.bit(j) == (j < i && keep@[ones_at(*a, *b, j)]),
        decreases dim - i,
    {
        assert(lanes_for(dim as int) * 64 >= dim);
        let ones: usize = (if a.get_bit(i) {
            1usize
        } else {
            0usize
        }) + (if b.get_bit(i) {
            1usize
        } else {
            0usize
        });
        if keep[ones] {
            res.set_bit(i);
        }
        i = i + 1;
    }
    res
}

} // verus!
