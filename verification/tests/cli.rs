use pool_data_rs::cli::{pool_address_arg, rpc_url_arg, v4_pool_id_arg, ArgError};
use pool_data_rs::types::Protocol;

#[test]
fn pool_address_of_each_protocol() {
    let text = "0x0d4a11d5EEaaC28EC3F61d100daF4d40471f1852";
    let a = pool_address_arg(Protocol::UniswapV2, text).unwrap();
    assert_eq!(a.bytes[0], 0x0d);
    assert_eq!(a.bytes[19], 0x52);
    assert!(pool_address_arg(Protocol::UniswapV3, text).is_ok());
    assert!(pool_address_arg(Protocol::AlgebraIntegral, text).is_ok());
    assert_eq!(pool_address_arg(Protocol::UniswapV4, "not hex").unwrap().bytes, [0; 20]);
    assert_eq!(pool_address_arg(Protocol::UniswapV3, "0x1234").err(), Some(ArgError::InvalidPoolAddress));
    assert_eq!(ArgError::InvalidPoolAddress.context(), None);
}

#[test]
fn rpc_url_checks() {
    assert_eq!(rpc_url_arg("https://eth.example.org/v1/key"), Ok(()));
    assert_eq!(rpc_url_arg("http://127.0.0.1:8545"), Ok(()));
    let err = rpc_url_arg("not a url").unwrap_err();
    assert_eq!(err, ArgError::InvalidRpcUrl("not a url".to_string()));
    assert_eq!(err.context(), Some("Invalid RPC URL: not a url".to_string()));
}

#[test]
fn v4_pool_id_checks() {
    let text = "0x21c67e77068de97969ba93d4aab21826d33ca12bb9f565d8496e8fda8a82ca27";
    assert_eq!(v4_pool_id_arg(text).unwrap().bytes[1], 0xc6);
    let err = v4_pool_id_arg("0x0d4a11d5EEaaC28EC3F61d100daF4d40471f1852").unwrap_err();
    assert_eq!(err, ArgError::InvalidV4PoolId);
    assert_eq!(
        err.context(),
        Some("Pool ID must be 32-byte hex (0x + 64 chars) for Uniswap V4".to_string())
    );
}
