//! Arcs of a circular location space, quantized into chunks.

use vstd::prelude::*;
use std::marker::PhantomData;
use crate::ids::string_from_chars;

verus! {

/// Two to the power `g`.
pub open spec fn pow2(g: nat) -> nat
    decreases g,
{
    if g == 0 {
        1
    } else {
        2 * pow2((g - 1) as nat)
    }
}

/// An unsigned integer type whose bits are the locations of a space.
pub trait Spacey: Sized + Copy {
    /// How many bits (locations) the space has.
    spec fn space_bits() -> nat;

    /// Whether bit `b` (counted from the least significant) is set.
    spec fn bit(self, b: nat) -> bool;

    fn bits() -> (n: u32)
        ensures
            n == Self::space_bits(),
            n == 8 || n == 16 || n == 32 || n == 64 || n == 128,
    ;

    fn zero() -> (z: Self)
        ensures
            forall|b: nat| b < Self::space_bits() ==> !(#[trigger] z.bit(b)),
    ;

    /// The value with bit `b` set as well.
    fn with_bit(self, b: u32) -> (r: Self)
        requires
            b < Self::space_bits(),
        ensures
            forall|c: nat| c < Self::space_bits() ==> #[trigger] r.bit(c) == (c == b || self.bit(c)),
    ;

    fn get_bit(&self, b: u32) -> (r: bool)
        requires
            b < Self::space_bits(),
        ensures
            r == self.bit(b as nat),
    ;
}

impl Spacey for u8 {
    open spec fn space_bits() -> nat {
        8
    }

    open spec fn bit(self, b: nat) -> bool {
        (self >> (b as u8)) & 1 == 1
    }

    fn bits() -> (n: u32) {
        8
    }

    fn zero() -> (z: Self) {
        assert(forall|b: u8| b < 8 ==> #[trigger] ((0u8 >> b) & 1) == 0) by (bit_vector);
        0
    }

    fn with_bit(self, b: u32) -> (r: Self) {
        let bb = b as u8;
        let r = self | (1u8 << bb);
        assert(forall|c: u8| c < 8 ==> ((#[trigger] ((r >> c) & 1)) == 1) == (c == bb || (self >> c) & 1 == 1)) by (bit_vector)
            requires
                r == self | (1u8 << bb),
                bb < 8,
        ;
        r
    }

    fn get_bit(&self, b: u32) -> (r: bool) {
        (*self >> (b as u8)) & 1 == 1
    }
}

impl Spacey for u16 {
    open spec fn space_bits() -> nat {
        16
    }

    open spec fn bit(self, b: nat) -> bool {
        (self >> (b as u16)) & 1 == 1
    }

    fn bits() -> (n: u32) {
        16
    }

    fn zero() -> (z: Self) {
        assert(forall|b: u16| b < 16 ==> #[trigger] ((0u16 >> b) & 1) == 0) by (bit_vector);
        0
    }

    fn with_bit(self, b: u32) -> (r: Self) {
        let bb = b as u16;
        let r = self | (1u16 << bb);
        assert(forall|c: u16| c < 16 ==> ((#[trigger] ((r >> c) & 1)) == 1) == (c == bb || (self >> c) & 1 == 1)) by (bit_vector)
            requires
                r == self | (1u16 << bb),
                bb < 16,
        ;
        r
    }

    fn get_bit(&self, b: u32) -> (r: bool) {
        (*self >> (b as u16)) & 1 == 1
    }
}

impl Spacey for u32 {
    open spec fn space_bits() -> nat {
        32
    }

    open spec fn bit(self, b: nat) -> bool {
        (self >> (b as u32)) & 1 == 1
    }

    fn bits() -> (n: u32) {
        32
    }

    fn zero() -> (z: Self) {
        assert(forall|b: u32| b < 32 ==> #[trigger] ((0u32 >> b) & 1) == 0) by (bit_vector);
        0
    }

    fn with_bit(self, b: u32) -> (r: Self) {
        let r = self | (1u32 << b);
        assert(forall|c: u32| c < 32 ==> ((#[trigger] ((r >> c) & 1)) == 1) == (c == b || (self >> c) & 1 == 1)) by (bit_vector)
            requires
                r == self | (1u32 << b),
                b < 32,
        ;
        r
    }

    fn get_bit(&self, b: u32) -> (r: bool) {
        (*self >> b) & 1 == 1
    }
}

impl Spacey for u64 {
    open spec fn space_bits() -> nat {
        64
    }

    open spec fn bit(self, b: nat) -> bool {
        (self >> (b as u64)) & 1 == 1
    }

    fn bits() -> (n: u32) {
        64
    }

    fn zero() -> (z: Self) {
        assert(forall|b: u64| b < 64 ==> #[trigger] ((0u64 >> b) & 1) == 0) by (bit_vector);
        0
    }

    fn with_bit(self, b: u32) -> (r: Self) {
        let bb = b as u64;
        let r = self | (1u64 << bb);
        assert(forall|c: u64| c < 64 ==> ((#[trigger] ((r >> c) & 1)) == 1) == (c == bb || (self >> c) & 1 == 1)) by (bit_vector)
            requires
                r == self | (1u64 << bb),
                bb < 64,
        ;
        r
    }

    fn get_bit(&self, b: u32) -> (r: bool) {
        (*self >> (b as u64)) & 1 == 1
    }
}

impl Spacey for u128 {
    open spec fn space_bits() -> nat {
        128
    }

    open spec fn bit(self, b: nat) -> bool {
        (self >> (b as u128)) & 1 == 1
    }

    fn bits() -> (n: u32) {
        128
    }

    fn zero() -> (z: Self) {
        assert(forall|b: u128| b < 128 ==> #[trigger] ((0u128 >> b) & 1) == 0) by (bit_vector);
        0
    }

    fn with_bit(self, b: u32) -> (r: Self) {
        let bb = b as u128;
        let r = self | (1u128 << bb);
        assert(forall|c: u128| c < 128 ==> ((#[trigger] ((r >> c) & 1)) == 1) == (c == bb || (self >> c) & 1 == 1)) by (bit_vector)
            requires
                r == self | (1u128 << bb),
                bb < 128,
        ;
        r
    }

    fn get_bit(&self, b: u32) -> (r: bool) {
        (*self >> (b as u128)) & 1 == 1
    }
}

/// The finest grain a space allows: the log2 of its number of bits.
pub fn max_grain<Space: Spacey>() -> (g: u32)
    ensures
        pow2(g as nat) == Space::space_bits(),
{
    let bits = Space::bits();
    proof {
        reveal_with_fuel(pow2, 8);
    }
    if bits == 8 {
        3
    } else if bits == 16 {
        4
    } else if bits == 32 {
        5
    } else if bits == 64 {
        6
    } else {
        7
    }
}

/// An arc of the space: `len` chunks from chunk `start`, where the space is
/// cut into 2^grain chunks.
pub struct Arq<Space> {
    pub grain: u32,
    pub start: u8,
    pub len: u8,
    pub space: PhantomData<Space>,
}

impl<Space> Clone for Arq<Space> {
    fn clone(&self) -> (r: Self)
        ensures
            r.grain == self.grain,
            r.start == self.start,
            r.len == self.len,
    {
        Arq { grain: self.grain, start: self.start, len: self.len, space: PhantomData }
    }
}

impl<Space> Copy for Arq<Space> {

}

/// The arc fits its space: the grain is no finer than the space allows, the
/// start is one of the chunks, and it covers between one and all chunks.
pub open spec fn arq_wf<Space: Spacey>(grain: nat, start: nat, len: nat) -> bool {
    &&& pow2(grain) <= Space::space_bits()
    &&& start < pow2(grain)
    &&& 0 < len <= pow2(grain)
}

/// Location `b` (a bit, counted from the least significant) lies on the arc
/// of `pow` locations that, read from the most significant bit, starts at
/// location `off` and wraps around.
pub open spec fn on_arc(bits: nat, off: nat, pow: nat, b: nat) -> bool {
    ((bits - 1 - b - off) as int) % (bits as int) < pow
}

proof fn lemma_pow2_le(g: nat, h: nat)
    requires
        g <= h,
    ensures
        pow2(g) <= pow2(h),
        pow2(g) >= 1,
    decreases h,
{
    if h > 0 && g < h {
        lemma_pow2_le(g, (h - 1) as nat);
    }
    if g > 0 {
        lemma_pow2_le((g - 1) as nat, (g - 1) as nat);
    }
}

proof fn lemma_pow2_split(g: nat, h: nat)
    ensures
        pow2(h) * pow2(g) == pow2(g + h),
    decreases g,
{
    if g == 0 {
        assert(pow2(0) == 1);
        assert(pow2(h) * 1 == pow2(h));
    } else {
        lemma_pow2_split((g - 1) as nat, h);
        let a = pow2(h);
        let b = pow2((g - 1) as nat);
        let c = pow2((g - 1 + h) as nat);
        assert(pow2(g) == 2 * b);
        assert(pow2(g + h) == 2 * c);
        assert(a * (2 * b) == 2 * c) by (nonlinear_arith)
            requires
                a * b == c,
        ;
    }
}

impl<Space: Spacey> Arq<Space> {
    pub fn new(grain: u32, start: u8, len: u8) -> (a: Self)
        requires
            arq_wf::<Space>(grain as nat, start as nat, len as nat),
        ensures
            a.grain == grain,
            a.start == start,
            a.len == len,
    {
        Arq { grain, start, len, space: PhantomData }
    }

    /// The set of locations the arc covers, as bits of the space.
    pub fn to_space(&self) -> (r: Space)
        requires
            arq_wf::<Space>(self.grain as nat, self.start as nat, self.len as nat),
        ensures
            forall|b: nat|
                b < Space::space_bits() ==> #[trigger] r.bit(b) == on_arc(
                    Space::space_bits(),
                    (self.start * (Space::space_bits() / pow2(self.grain as nat))) as nat,
                    (self.len * (Space::space_bits() / pow2(self.grain as nat))) as nat,
                    b,
                ),
    {
        let bits = Space::bits();
        let ghost g = self.grain as nat;
        proof {
            lemma_pow2_le(0, g);
            reveal_with_fuel(pow2, 8);
            assert(g <= 7) by {
                if g > 7 {
                    lemma_pow2_le(8, g);
                }
            }
        }
        let divs: u32 = Self::divisions(self.grain);
        let mg = max_grain::<Space>();
        let chunk: u32 = bits / divs;
        proof {
            if g > mg {
                lemma_pow2_le(mg as nat + 1, g);
                assert(pow2(mg as nat + 1) == 2 * pow2(mg as nat));
            }
            lemma_pow2_split(g, (mg - g) as nat);
            lemma_pow2_le(0, (mg - g) as nat);
            vstd::arithmetic::div_mod::lemma_div_multiples_vanish(pow2((mg - g) as nat) as int, divs as int);
            assert(pow2((mg - g) as nat) * pow2(g) == bits);
            assert(chunk == pow2((mg - g) as nat));
            assert(chunk * divs == bits);
            assert(chunk * (self.len as u32) <= bits) by (nonlinear_arith)
                requires
                    chunk * divs == bits,
                    self.len <= divs,
            ;
            assert(chunk * (self.start as u32) < bits) by (nonlinear_arith)
                requires
                    chunk * divs == bits,
                    self.start < divs,
                    chunk >= 1,
            ;
        }
        let off: u32 = (self.start as u32) * chunk;
        let pow: u32 = (self.len as u32) * chunk;
        let mut r = Space::zero();
        let mut b: u32 = 0;
        while b < bits
            invariant
                bits == Space::space_bits(),
                bits <= 128,
                bits > 0,
                b <= bits,
                off < bits,
                pow <= bits,
                forall|c: nat| b <= c < bits ==> !(#[trigger] r.bit(c)),
                forall|c: nat| c < b ==> #[trigger] r.bit(c) == on_arc(bits as nat, off as nat, pow as nat, c),
            decreases bits - b,
        {
            let pos: u32 = (bits - 1 - b + (bits - off)) % bits;
            proof {
                assert(on_arc(bits as nat, off as nat, pow as nat, b as nat) == (pos < pow)) by {
                    assert(((bits - 1 - b - off) as int) % (bits as int) == ((bits - 1 - b + (bits - off)) as int) % (bits as int)) by {
                        vstd::arithmetic::div_mod::lemma_mod_add_multiples_vanish(
                            (bits - 1 - b - off) as int,
                            bits as int,
                        );
                    }
                }
            }
            if pos < pow {
                r = r.with_bit(b);
            }
            b = b + 1;
        }
        proof {
            assert(Space::space_bits() / pow2(g) == chunk);
        }
        r
    }

    /// The number of chunks of a grain.
    fn divisions(grain: u32) -> (d: u32)
        requires
            grain <= 7,
        ensures
            d == pow2(grain as nat),
    {
        let mut d: u32 = 1;
        let mut i: u32 = 0;
        while i < grain
            invariant
                i <= grain,
                grain <= 7,
                d == pow2(i as nat),
                d <= 128,
            decreases grain - i,
        {
            proof {
                reveal_with_fuel(pow2, 8);
                lemma_pow2_le(i as nat, 6);
                assert(pow2(6) == 64);
            }
            d = d * 2;
            i = i + 1;
        }
        d
    }

    /// The arc as text: one character per location, most significant bit
    /// first, `'1'` where the arc covers it.
    pub fn to_ascii(&self) -> (s: String)
        requires
            arq_wf::<Space>(self.grain as nat, self.start as nat, self.len as nat),
        ensures
            s@.len() == Space::space_bits(),
            forall|j: int|
                0 <= j < Space::space_bits() ==> #[trigger] s@[j] == if on_arc(
                    Space::space_bits(),
                    (self.start * (Space::space_bits() / pow2(self.grain as nat))) as nat,
                    (self.len * (Space::space_bits() / pow2(self.grain as nat))) as nat,
                    (Space::space_bits() - 1 - j) as nat,
                ) {
                    '1'
                } else {
                    '0'
                },
    {
        let v = self.to_space();
        let bits = Space::bits();
        let mut cs: Vec<char> = Vec::new();
        let mut j: u32 = 0;
        while j < bits
            invariant
                bits == Space::space_bits(),
                j <= bits,
                cs@.len() == j,
                forall|i: int| 0 <= i < j ==> #[trigger] cs@[i] == if v.bit((bits - 1 - i) as nat) {
                    '1'
                } else {
                    '0'
                },
            decreases bits - j,
        {
            let c = if v.get_bit(bits - 1 - j) {
                '1'
            } else {
                '0'
            };
            cs.push(c);
            j = j + 1;
        }
        string_from_chars(&cs)
    }
}

} // verus!
