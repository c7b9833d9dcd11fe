use vstd::prelude::*;
use crate::bigint::BigNat;
use crate::ConvError;

verus! {

/// What the conversions read of a token: the chain it lives on, its 160-bit
/// address held as two plain integers (high 32 bits and low 128 bits), and its
/// decimals. Two tokens are ordered by address; tokens on different chains, or
/// with the same address, are incomparable.
#[derive(Clone, Copy, Debug, PartialEq, Eq, Structural)]
pub struct Token {
    pub chain_id: u64,
    pub address_hi: u32,
    pub address_lo: u128,
    pub decimals: u8,
}

impl Token {
    /// The address as one number.
    pub open spec fn address(&self) -> int {
        self.address_hi * 0x1_0000_0000_0000_0000_0000_0000_0000_0000 + self.address_lo
    }

    pub open spec fn comparable(&self, other: &Token) -> bool {
        self.chain_id == other.chain_id && self.address() != other.address()
    }

    /// Whether `self` sorts before `other` (strictly smaller address); fails
    /// for incomparable tokens.
    pub fn sorts_before(&self, other: &Token) -> (r: Result<bool, ConvError>)
        ensures
            r matches Ok(b) ==> self.comparable(other) && (b <==> self.address()
                < other.address()),
            r is Err <==> !self.comparable(other),
            r matches Err(e) ==> e == ConvError::IncomparableTokens,
    {
        if self.chain_id != other.chain_id {
            return Err(ConvError::IncomparableTokens);
        }
        if self.address_hi == other.address_hi && self.address_lo == other.address_lo {
            return Err(ConvError::IncomparableTokens);
        }
        if self.address_hi < other.address_hi {
            Ok(true)
        } else if self.address_hi > other.address_hi {
            Ok(false)
        } else {
            Ok(self.address_lo < other.address_lo)
        }
    }
}

/// A pool fee tier; each tier fixes a tick spacing.
#[derive(Clone, Copy, Debug, PartialEq, Eq, Structural)]
pub enum FeeAmount {
    Lowest,
    Low,
    Medium,
    High,
}

impl FeeAmount {
    pub open spec fn spacing(&self) -> int {
        match self {
            FeeAmount::Lowest => 1,
            FeeAmount::Low => 10,
            FeeAmount::Medium => 60,
            FeeAmount::High => 200,
        }
    }

    pub fn tick_spacing(&self) -> (r: i32)
        ensures
            r == self.spacing(),
            1 <= r <= 200,
    {
        match self {
            FeeAmount::Lowest => 1,
            FeeAmount::Low => 10,
            FeeAmount::Medium => 60,
            FeeAmount::High => 200,
        }
    }
}

/// An exact non-negative rational, numerator over denominator.
#[derive(Debug, Clone)]
pub struct Fraction {
    pub numerator: BigNat,
    pub denominator: BigNat,
}

impl Fraction {
    pub open spec fn wf(&self) -> bool {
        &&& self.numerator.wf()
        &&& self.denominator.wf()
        &&& self.denominator.val() > 0
    }
}

/// The price of one raw unit of `base` in raw units of `quote`, as an exact
/// rational.
#[derive(Debug, Clone)]
pub struct Price {
    pub base: Token,
    pub quote: Token,
    pub fraction: Fraction,
}

impl Price {
    pub open spec fn wf(&self) -> bool {
        self.fraction.wf()
    }

    pub open spec fn num(&self) -> nat {
        self.fraction.numerator.val()
    }

    pub open spec fn den(&self) -> nat {
        self.fraction.denominator.val()
    }
}

/// Builds a price; note the argument order: denominator before
/// numerator.
pub fn price_new(base: Token, quote: Token, denominator: BigNat, numerator: BigNat) -> (r: Price)
    ensures
        r.base == base,
        r.quote == quote,
        r.num() == numerator.val(),
        r.den() == denominator.val(),
{
    Price { base, quote, fraction: Fraction { numerator, denominator } }
}

} // verus!
