use vstd::prelude::*;

verus! {

/// Two to the power 64.
pub open spec fn pow64() -> nat {
    0x1_0000_0000_0000_0000
}

/// A number of up to 192 bits: `hi * 2^64 + lo`.
#[derive(Debug, Clone, Copy, PartialEq, Eq)]
pub struct Wide {
    pub hi: u128,
    pub lo: u64,
}

impl Wide {
    /// The number that the two parts stand for.
    pub open spec fn value(self) -> nat {
        self.hi as nat * pow64() + self.lo as nat
    }

    /// The product of `a` and `b` in full.
    pub fn product(a: u128, b: u64) -> (r: Wide)
        ensures
            r.value() == a * b,
    {
        let a_hi: u128 = a >> 64;
        let a_lo: u128 = a & 0xffff_ffff_ffff_ffff;
        assert(a_hi == a / 0x1_0000_0000_0000_0000 && a_lo == a % 0x1_0000_0000_0000_0000)
            by (bit_vector)
            requires
                a_hi == a >> 64 && a_lo == a & 0xffff_ffff_ffff_ffff,
        ;
        let wide_b: u128 = b as u128;
        assert(a_lo * wide_b <= 0xffff_ffff_ffff_ffff * 0xffff_ffff_ffff_ffff) by (nonlinear_arith)
            requires
                a_lo <= 0xffff_ffff_ffff_ffff,
                wide_b <= 0xffff_ffff_ffff_ffff,
        ;
        assert(a_hi * wide_b <= 0xffff_ffff_ffff_ffff * 0xffff_ffff_ffff_ffff) by (nonlinear_arith)
            requires
                a_hi <= 0xffff_ffff_ffff_ffff,
                wide_b <= 0xffff_ffff_ffff_ffff,
        ;
        let low: u128 = a_lo * wide_b;
        let high: u128 = a_hi * wide_b;
        let carry: u128 = low >> 64;
        let rest: u128 = low & 0xffff_ffff_ffff_ffff;
        assert(carry == low / 0x1_0000_0000_0000_0000 && rest == low % 0x1_0000_0000_0000_0000)
            by (bit_vector)
            requires
                carry == low >> 64 && rest == low & 0xffff_ffff_ffff_ffff,
        ;
        let r = Wide { hi: high + carry, lo: rest as u64 };
        assert(r.value() == a * b) by (nonlinear_arith)
            requires
                r.value() == (high + carry) * 0x1_0000_0000_0000_0000 + rest,
                low == carry * 0x1_0000_0000_0000_0000 + rest,
                a == a_hi * 0x1_0000_0000_0000_0000 + a_lo,
                low == a_lo * b,
                high == a_hi * b,
        ;
        r
    }

    /// Whether this number is greater than `other`.
    pub fn exceeds(&self, other: &Wide) -> (r: bool)
        ensures
            r == (self.value() > other.value()),
    {
        if self.hi != other.hi {
            assert(self.hi > other.hi ==> self.value() > other.value()) by (nonlinear_arith)
                requires
                    self.value() == self.hi * 0x1_0000_0000_0000_0000 + self.lo,
                    other.value() == other.hi * 0x1_0000_0000_0000_0000 + other.lo,
                    other.lo < 0x1_0000_0000_0000_0000,
            ;
            assert(self.hi < other.hi ==> self.value() < other.value()) by (nonlinear_arith)
                requires
                    self.value() == self.hi * 0x1_0000_0000_0000_0000 + self.lo,
                    other.value() == other.hi * 0x1_0000_0000_0000_0000 + other.lo,
                    self.lo < 0x1_0000_0000_0000_0000,
            ;
            self.hi > other.hi
        } else {
            self.lo > other.lo
        }
    }
}

} // verus!
