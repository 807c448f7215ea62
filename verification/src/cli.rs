//! The checks on the command line's arguments: the pool id, the protocol and
//! the RPC endpoint.

use vstd::prelude::*;

use crate::primitives::{decoded_fixed_hex, parse_address, parse_b256, Address, B256};
use crate::types::Protocol;

verus! {

use vstd::string::StringExecFns;

/// An argument that the command line cannot use.
#[derive(Debug, PartialEq, Eq)]
pub enum ArgError {
    /// The pool id is not the hex text of an address.
    InvalidPoolAddress,
    /// The RPC endpoint, given here, is not a URL.
    InvalidRpcUrl(String),
    /// The pool id of a Uniswap V4 pool is not the hex text of 32 bytes.
    InvalidV4PoolId,
}

/// The text that explains the error, if there is one.
pub open spec fn arg_error_text(error: ArgError) -> Option<Seq<char>> {
    match error {
        ArgError::InvalidPoolAddress => None,
        ArgError::InvalidRpcUrl(url) => Some("Invalid RPC URL: "@ + url@),
        ArgError::InvalidV4PoolId => Some("Pool ID must be 32-byte hex (0x + 64 chars) for Uniswap V4"@),
    }
}

impl ArgError {
    /// The text that explains the error, if there is one.
    pub fn context(&self) -> (text: Option<String>)
        ensures
            text is Some <==> arg_error_text(*self) is Some,
            text matches Some(t) ==> t@ == arg_error_text(*self).unwrap(),
    {
        match self {
            ArgError::InvalidPoolAddress => None,
            ArgError::InvalidRpcUrl(url) => {
                let mut text = String::from_str("Invalid RPC URL: ");
                text.append(url.as_str());
                Some(text)
            },
            ArgError::InvalidV4PoolId => Some(
                String::from_str("Pool ID must be 32-byte hex (0x + 64 chars) for Uniswap V4"),
            ),
        }
    }
}

/// The pool address that the command line names. A Uniswap V4 pool is known
/// by a 32-byte id instead, so its address is the zero address and its id is
/// not read here.
pub fn pool_address_arg(protocol: Protocol, pool_id: &str) -> (address: Result<Address, ArgError>)
    ensures
        protocol == Protocol::UniswapV4 ==> (address matches Ok(a) && forall|i: int|
            0 <= i < 20 ==> #[trigger] a.bytes@[i] == 0),
        protocol != Protocol::UniswapV4 ==> (address is Ok <==> decoded_fixed_hex(pool_id@, 20) is Some),
        protocol != Protocol::UniswapV4 ==> (address matches Ok(a) ==> a.bytes@ == decoded_fixed_hex(
            pool_id@,
            20,
        ).unwrap()),
        address matches Err(e) ==> e == ArgError::InvalidPoolAddress,
{
    if protocol == Protocol::UniswapV4 {
        return Ok(Address::zero());
    }
    match parse_address(pool_id) {
        Some(a) => Ok(a),
        None => Err(ArgError::InvalidPoolAddress),
    }
}

/// The text is a URL, as the `url` crate parses it.
pub uninterp spec fn spec_url_parses(text: Seq<char>) -> bool;

/// Parses the text as a URL.
///
/// Trusted: `Url::parse` of the `url` crate (through alloy's re-export of
/// reqwest), whose result is a function of the text alone; whether it parses
/// is named, not described.
#[verifier::external_body]
fn url_parses(text: &str) -> (parses: bool)
    ensures
        parses == spec_url_parses(text@),
{
    alloy::transports::http::reqwest::Url::parse(text).is_ok()
}

/// Checks the RPC endpoint that the command line names.
pub fn rpc_url_arg(rpc_url: &str) -> (checked: Result<(), ArgError>)
    ensures
        checked is Ok <==> spec_url_parses(rpc_url@),
        checked matches Err(e) ==> (e matches ArgError::InvalidRpcUrl(u) && u@ == rpc_url@),
{
    if url_parses(rpc_url) {
        Ok(())
    } else {
        Err(ArgError::InvalidRpcUrl(String::from_str(rpc_url)))
    }
}

/// The id of a Uniswap V4 pool that the command line names: 32 bytes in hex.
pub fn v4_pool_id_arg(pool_id: &str) -> (id: Result<B256, ArgError>)
    ensures
        id is Ok <==> decoded_fixed_hex(pool_id@, 32) is Some,
        id matches Ok(w) ==> w.bytes@ == decoded_fixed_hex(pool_id@, 32).unwrap(),
        id matches Err(e) ==> e == ArgError::InvalidV4PoolId,
{
    match parse_b256(pool_id) {
        Some(w) => Ok(w),
        None => Err(ArgError::InvalidV4PoolId),
    }
}

} // verus!
