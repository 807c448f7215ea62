//! The protocols this library reads pools of, and what every pool record offers.

use vstd::prelude::*;

use crate::primitives::Address;

verus! {

/// The family of the pool contract.
#[derive(Clone, Copy, Debug, PartialEq, Eq, Structural)]
pub enum Protocol {
    UniswapV2,
    UniswapV3,
    UniswapV4,
    AlgebraIntegral,
}

/// What every pool record offers.
pub trait PoolData: Sized + 'static {
    /// The pool's id as text.
    fn pool_id(&self) -> String;

    /// The protocol of the pool.
    fn protocol(&self) -> Protocol;

    /// The contract that created the pool, if known.
    fn creator_contract(&self) -> Option<&Address>;

    /// The pool's tokens, in the pool's order.
    fn tokens(&self) -> Vec<&Address>;

    /// The pool's fee.
    fn fee(&self) -> u64;
}

} // verus!
