//! A fundraising-and-governance ledger: investors fund a pooled treasury,
//! receive voting-weight tokens in proportion to what they put in, vote on
//! spending proposals, and share external profits pro rata.
//!
//! Every instance is an owned in-memory value. Where one instance acts on
//! another (the investment ledger minting on its token ledger, or paying out
//! through the value-transfer ledger) the caller hands in the other instance.
//! Authentication is an explicit `caller` identity: an operation that names an
//! acting identity fails with `Error::NotAuthenticated` unless the caller is
//! that identity.

use vstd::prelude::*;

pub mod book;
pub mod dao;
pub mod distribution;
pub mod error;
pub mod factory;
pub mod payment;
pub mod token;

pub use dao::DAOContract;
pub use distribution::ProfitDistributionContract;
pub use error::Error;
pub use factory::DAOFactoryContract;
pub use payment::PaymentContract;
pub use token::ProfitTokenContract;

verus! {

/// An opaque, globally unique actor reference (an investor, a creator, or an
/// instance of one of the ledgers).
pub type Address = u64;

} // verus!
