use vstd::prelude::*;

verus! {

/// The kinds of failure that an operation reports. A failed operation leaves
/// every instance it touched unchanged, except where its contract says
/// otherwise (a distribution that stops part of the way through).
#[derive(Debug, Clone, Copy, PartialEq, Eq, Structural)]
pub enum Error {
    /// One-time setup was run a second time.
    AlreadyInitialized,
    /// A non-positive amount where a positive one is required, or a negative
    /// one where a non-negative one is required.
    InvalidAmount,
    /// The balance that an operation draws on is too small.
    InsufficientBalance,
    /// The allowance that a spender draws on is too small.
    InsufficientAllowance,
    /// The caller is not the identity that the operation acts for.
    NotAuthenticated,
    /// No proposal has the given id.
    NotFound,
    /// The proposal has already been executed.
    AlreadyExecuted,
    /// The proposal's tally is not positive.
    NotApproved,
    /// A distribution was asked for while the total supply is zero.
    DivisionByZero,
    /// A result does not fit in its integer type.
    Overflow,
}

/// The result that an operation returns when its checks yield `e`.
pub open spec fn outcome(e: Option<Error>) -> Result<(), Error> {
    match e {
        Some(err) => Err(err),
        None => Ok(()),
    }
}

} // verus!
