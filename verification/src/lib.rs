//! Conversions between the four interchangeable representations used by a
//! concentrated-liquidity automated market maker: an integer tick index, a
//! Q64.96 fixed-point square-root price, an exact rational or decimal price,
//! and a position value ratio over a tick range.

use vstd::prelude::*;

pub mod bigint;
pub mod dec;
pub mod oracle;
pub mod tokens;
pub mod conversions;
pub mod parse;
pub mod ratio;

verus! {

/// The error kinds of this library. Oracle failures are propagated unchanged
/// as `OracleFailure`.
#[derive(Clone, Copy, Debug, PartialEq, Eq, Structural)]
pub enum ConvError {
    InvalidFormat,
    InvalidRange,
    DomainViolation,
    IncomparableTokens,
    OracleFailure,
}

} // verus!
