//! A packed vector of flags, eight to a byte, lowest bit first.
use vstd::prelude::*;

verus! {

/// The single-bit mask for bit `k` (below 8) of a byte.
pub open spec fn mask_of(k: u8) -> u8 {
    (1u8 << k) as u8
}

/// Flag `i` of the packed bytes: false beyond their end.
pub open spec fn bit_of(bytes: Seq<u8>, i: int) -> bool {
    0 <= i && i / 8 < bytes.len() && bytes[i / 8] & mask_of((i % 8) as u8) != 0
}

proof fn lemma_mask_bits(b: u8, k: u8, j: u8)
    requires
        k < 8,
        j < 8,
    ensures
        (b | mask_of(k)) & mask_of(k) != 0,
        (b & !mask_of(k)) & mask_of(k) == 0,
        k != j ==> (((b | mask_of(k)) & mask_of(j) != 0) == (b & mask_of(j) != 0)),
        k != j ==> (((b & !mask_of(k)) & mask_of(j) != 0) == (b & mask_of(j) != 0)),
        0u8 & mask_of(j) == 0,
        0xffu8 & mask_of(j) != 0,
{
    assert((b | ((1u8 << k) as u8)) & ((1u8 << k) as u8) != 0) by (bit_vector)
        requires
            k < 8,
    ;
    assert((b & !((1u8 << k) as u8)) & ((1u8 << k) as u8) == 0) by (bit_vector)
        requires
            k < 8,
    ;
    assert(k != j ==> (((b | ((1u8 << k) as u8)) & ((1u8 << j) as u8) != 0) == (b & ((1u8 << j) as u8)
        != 0))) by (bit_vector)
        requires
            k < 8,
            j < 8,
    ;
    assert(k != j ==> (((b & !((1u8 << k) as u8)) & ((1u8 << j) as u8) != 0) == (b & ((1u8 << j) as u8)
        != 0))) by (bit_vector)
        requires
            k < 8,
            j < 8,
    ;
    assert(0u8 & ((1u8 << j) as u8) == 0) by (bit_vector);
    assert(0xffu8 & ((1u8 << j) as u8) != 0) by (bit_vector)
        requires
            j < 8,
    ;
}

/// The low `n` bits (1 to 7) of a byte set: bit `j` of the mask is set
/// exactly when `j < n`.
proof fn lemma_low_mask(n: u8, j: u8)
    requires
        1 <= n < 8,
        j < 8,
    ensures
        ((0xffu8 & ((((1u8 << n) as u8) - 1) as u8)) & mask_of(j) != 0) == (j < n),
{
    assert(((0xffu8 & ((((1u8 << n) as u8) - 1) as u8)) & ((1u8 << j) as u8) != 0) == (j < n))
        by (bit_vector)
        requires
            1 <= n < 8,
            j < 8,
    ;
}

/// The flags as plain values: the packed bytes and the number of flags in use.
pub struct BitsView {
    pub bytes: Seq<u8>,
    pub bits: nat,
}

/// `b` is `a` with the flag `val` appended: one more flag in use, a byte
/// added when the flags in use fill the bytes, and the flag at the old count
/// set to `val` where it lies in the bytes.
pub open spec fn pushed(a: BitsView, b: BitsView, val: bool) -> bool {
    &&& b.bits == a.bits + 1
    &&& b.bytes.len() == if a.bits >= a.bytes.len() * 8 {
        a.bytes.len() + 1
    } else {
        a.bytes.len()
    }
    &&& forall|i: int|
        bit_of(b.bytes, i) == if i == a.bits && a.bits < 8 * (a.bytes.len() + 1) {
            val
        } else {
            bit_of(a.bytes, i)
        }
}

/// `v` holds exactly the flags `vs`: as many flags in use, just enough bytes
/// for them, and no flag set beyond them.
pub open spec fn holds_flags(v: BitsView, vs: Seq<bool>) -> bool {
    &&& v.bits == vs.len()
    &&& v.bytes.len() == (v.bits + 7) / 8
    &&& forall|i: int| #[trigger] bit_of(v.bytes, i) == (0 <= i < vs.len() && vs[i])
}

/// A new, empty set of flags holds no flags.
pub proof fn lemma_new_holds_none(v: BitsView)
    requires
        v.bits == 0,
        v.bytes.len() == 0,
    ensures
        holds_flags(v, Seq::<bool>::empty()),
{
}

/// Pushing `val` onto flags that hold exactly `vs` gives flags that hold
/// exactly `vs` followed by `val`; so after pushes onto new empty flags,
/// flag `i` is the `i`-th value pushed, and false past the last.
pub proof fn lemma_push_holds(a: BitsView, b: BitsView, vs: Seq<bool>, val: bool)
    requires
        holds_flags(a, vs),
        pushed(a, b, val),
    ensures
        holds_flags(b, vs.push(val)),
{
    assert forall|i: int| #[trigger] bit_of(b.bytes, i) == (0 <= i < vs.push(val).len() && vs.push(val)[i]) by {
        if i == a.bits {
            assert(a.bits < 8 * (a.bytes.len() + 1));
        } else {
            assert(bit_of(a.bytes, i) == (0 <= i < vs.len() && vs[i]));
        }
    }
}

/// `states` are flags with the values `vs` pushed one after another: each
/// state is the one before it with the next value pushed.
pub open spec fn pushed_in_turn(states: Seq<BitsView>, vs: Seq<bool>) -> bool {
    &&& states.len() == vs.len() + 1
    &&& forall|i: int| 0 <= i < vs.len() ==> #[trigger] pushed(states[i], states[i + 1], vs[i])
}

/// New empty flags with `vs` pushed in turn hold exactly `vs`: flag `i` is
/// the `i`-th value pushed, and every flag past the last is clear.
pub proof fn lemma_pushes_hold(states: Seq<BitsView>, vs: Seq<bool>)
    requires
        states.len() > 0,
        states[0].bits == 0,
        states[0].bytes.len() == 0,
        pushed_in_turn(states, vs),
    ensures
        holds_flags(states.last(), vs),
    decreases vs.len(),
{
    if vs.len() == 0 {
        lemma_new_holds_none(states[0]);
        assert(vs =~= Seq::<bool>::empty());
    } else {
        let n = vs.len() - 1;
        let s0 = states.drop_last();
        let v0 = vs.drop_last();
        assert forall|i: int| 0 <= i < v0.len() implies #[trigger] pushed(s0[i], s0[i + 1], v0[i]) by {
            assert(pushed(states[i], states[i + 1], vs[i]));
        }
        lemma_pushes_hold(s0, v0);
        assert(pushed(states[n], states[n + 1], vs[n]));
        lemma_push_holds(states[n], states[n + 1], v0, vs[n]);
        assert(v0.push(vs[n]) =~= vs);
    }
}

/// A packed vector of flags.
#[derive(Default, Debug, Clone, PartialEq, PartialOrd)]
pub struct BitFlags {
    vec: Vec<u8>,
    bits: usize,
}

impl View for BitFlags {
    type V = BitsView;

    closed spec fn view(&self) -> BitsView {
        BitsView { bytes: self.vec@, bits: self.bits as nat }
    }
}

impl BitFlags {
    /// `bits` flags, all clear.
    pub fn new(bits: usize) -> (r: BitFlags)
        requires
            bits <= usize::MAX - 7,
        ensures
            r@.bits == bits,
            r@.bytes.len() == (bits + 7) / 8,
            forall|i: int| !bit_of(r@.bytes, i),
    {
        let n = (bits + 7) / 8;
        let mut vec: Vec<u8> = Vec::new();
        while vec.len() < n
            invariant
                vec@.len() <= n,
                forall|k: int| 0 <= k < vec@.len() ==> vec@[k] == 0,
            decreases n - vec@.len(),
        {
            vec.push(0);
        }
        let r = BitFlags { vec, bits };
        assert forall|i: int| !bit_of(r@.bytes, i) by {
            if 0 <= i && i / 8 < r@.bytes.len() {
                lemma_mask_bits(0, 0, (i % 8) as u8);
            }
        }
        r
    }

    /// `bits` flags, all set; the unused bits of the last byte stay clear.
    pub fn new_full(bits: usize) -> (r: BitFlags)
        requires
            bits <= usize::MAX - 7,
        ensures
            r@.bits == bits,
            r@.bytes.len() == (bits + 7) / 8,
            forall|i: int| 0 <= i < 8 * r@.bytes.len() ==> (bit_of(r@.bytes, i) <==> i < bits),
    {
        let n = (bits + 7) / 8;
        let mut vec: Vec<u8> = Vec::new();
        while vec.len() < n
            invariant
                vec@.len() <= n,
                forall|k: int| 0 <= k < vec@.len() ==> vec@[k] == 0xff,
            decreases n - vec@.len(),
        {
            vec.push(0xff);
        }
        let rem = (bits % 8) as u8;
        if rem != 0 {
            let last_byte = vec.len() - 1;
            assert(rem < 8 ==> (1u8 << rem) >= 1) by (bit_vector);
            let mask: u8 = (1u8 << rem) - 1;
            let b = vec[last_byte] & mask;
            vec.set(last_byte, b);
        }
        let r = BitFlags { vec, bits };
        assert forall|i: int| 0 <= i < 8 * r@.bytes.len() implies (bit_of(r@.bytes, i) <==> i < bits) by {
            let j = (i % 8) as u8;
            if rem != 0 && i / 8 == n - 1 {
                lemma_low_mask(rem, j);
            } else {
                lemma_mask_bits(0xff, 0, j);
            }
        }
        r
    }

    /// Flag `bit` of the packed bytes `vec`: false beyond their end.
    pub fn get_from_vec(vec: &[u8], bit: usize) -> (b: bool)
        ensures
            b == bit_of(vec@, bit as int),
    {
        let byte: u8 = if bit / 8 < vec.len() {
            vec[bit / 8]
        } else {
            0
        };
        assert(bit & 7 == bit % 8) by (bit_vector);
        let mask: u8 = 1u8 << ((bit & 7) as u8);
        proof {
            lemma_mask_bits(0, 0, (bit % 8) as u8);
        }
        byte & mask > 0
    }

    /// Flag `bit`: false beyond the bytes in use.
    pub fn get(&self, bit: usize) -> (b: bool)
        ensures
            b == bit_of(self@.bytes, bit as int),
    {
        Self::get_from_vec(self.vec.as_slice(), bit)
    }

    /// Sets flag `bit` to `val`; a flag beyond the bytes in use is left alone.
    pub fn set(&mut self, bit: usize, val: bool)
        ensures
            final(self)@.bits == old(self)@.bits,
            final(self)@.bytes.len() == old(self)@.bytes.len(),
            forall|i: int|
                bit_of(final(self)@.bytes, i) == if i == bit && bit / 8 < old(self)@.bytes.len() {
                    val
                } else {
                    bit_of(old(self)@.bytes, i)
                },
    {
        let idx = bit / 8;
        if idx >= self.vec.len() {
            return;
        }
        let k = (bit & 7) as u8;
        assert(bit & 7 == bit % 8) by (bit_vector);
        let mask: u8 = 1u8 << k;
        let old_byte = self.vec[idx];
        let byte = if val {
            old_byte | mask
        } else {
            old_byte & !mask
        };
        let ghost before = self.vec@;
        self.vec.set(idx, byte);
        assert forall|i: int|
            bit_of(self@.bytes, i) == if i == bit && bit / 8 < before.len() {
                val
            } else {
                bit_of(before, i)
            } by {
            if 0 <= i && i / 8 == idx {
                lemma_mask_bits(old_byte, k, (i % 8) as u8);
            }
        }
    }

    /// Appends one flag after the flags in use, adding a byte when they fill
    /// the bytes.
    pub fn push(&mut self, val: bool)
        requires
            old(self)@.bits < usize::MAX,
            old(self)@.bytes.len() * 8 <= usize::MAX,
        ensures
            pushed(old(self)@, final(self)@, val),
    {
        let ghost before = self.vec@;
        if self.bits >= self.vec.len() * 8 {
            self.vec.push(0);
            assert forall|i: int| bit_of(self.vec@, i) == bit_of(before, i) by {
                if 0 <= i && i / 8 == before.len() {
                    lemma_mask_bits(0, 0, (i % 8) as u8);
                } else if 0 <= i && i / 8 < before.len() {
                    assert(self.vec@[i / 8] == before[i / 8]);
                }
            }
        }
        let b = self.bits;
        self.set(b, val);
        self.bits = b + 1;
    }
}

} // verus!
