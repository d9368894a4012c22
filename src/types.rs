//! Plain value types shared by the graph, the search and the encoder.
use vstd::prelude::*;

verus! {

/// Two to the power of 128: the weight of an address's leading four bytes.
pub open spec fn pow2_128() -> nat {
    u128::MAX as nat + 1
}

/// A 20-byte chain address: its leading four bytes in `high`, its trailing
/// sixteen bytes in `low`, both big-endian.
#[derive(Clone, Copy, Debug, PartialEq, Eq, Structural, Hash)]
pub struct Address {
    pub high: u32,
    pub low: u128,
}

impl Address {
    /// The address read as one 160-bit number.
    pub open spec fn value(self) -> nat {
        self.high as nat * pow2_128() + self.low as nat
    }

    /// The address whose number is `n`.
    pub fn from_u128(n: u128) -> (r: Address)
        ensures
            r.value() == n,
    {
        Address { high: 0, low: n }
    }
}

/// The funding mode of a trade: no loan, a loan from a pooled-liquidity
/// vault, or a loan taken through a swap.
#[derive(Clone, Copy, Debug, PartialEq, Eq, Structural)]
pub enum FlashLoan {
    Notused,
    Balancer,
    UniswapV2,
}

/// The selector byte of each funding mode.
pub open spec fn flash_loan_code(m: FlashLoan) -> u8 {
    match m {
        FlashLoan::Notused => 0,
        FlashLoan::Balancer => 1,
        FlashLoan::UniswapV2 => 2,
    }
}

/// The funding mode with selector byte `c`, if any.
pub open spec fn flash_loan_of_code(c: int) -> Option<FlashLoan> {
    if c == 0 {
        Some(FlashLoan::Notused)
    } else if c == 1 {
        Some(FlashLoan::Balancer)
    } else if c == 2 {
        Some(FlashLoan::UniswapV2)
    } else {
        None
    }
}

impl FlashLoan {
    /// The selector byte of this mode.
    pub fn code(&self) -> (r: u8)
        ensures
            r == flash_loan_code(*self),
    {
        match self {
            FlashLoan::Notused => 0,
            FlashLoan::Balancer => 1,
            FlashLoan::UniswapV2 => 2,
        }
    }

    /// The mode with selector byte `c`; `None` for any other byte.
    pub fn from_code(c: u8) -> (r: Option<FlashLoan>)
        ensures
            r == flash_loan_of_code(c as int),
    {
        if c == 0 {
            Some(FlashLoan::Notused)
        } else if c == 1 {
            Some(FlashLoan::Balancer)
        } else if c == 2 {
            Some(FlashLoan::UniswapV2)
        } else {
            None
        }
    }
}

/// One hop of a trade: the router that executes it, the tokens it swaps, and
/// the fee tier when the venue is a concentrated-liquidity pool.
#[derive(Clone, Copy, Debug, PartialEq, Eq, Structural)]
pub struct ArbHop {
    pub router_address: Address,
    pub token_in: Address,
    pub token_out: Address,
    pub fee: Option<u32>,
}

/// An item of a concentrated-liquidity route: a token or a fee tier.
#[derive(Clone, Copy, Debug, PartialEq, Eq, Structural)]
pub enum V3Data {
    Token(Address),
    Fee(u32),
}

} // verus!
