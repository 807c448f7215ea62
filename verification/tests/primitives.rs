use pool_data_rs::cli::{pool_address_arg, v4_pool_id_arg};
use pool_data_rs::lens::{decode_ticks_error, revert_data_from_error, ContractFailure};
use pool_data_rs::parsers::uniswap_v2::UniswapV2PoolData;
use pool_data_rs::primitives::Address;
use pool_data_rs::types::{PoolData, Protocol};

fn decode_payload(hex: &str) -> Option<Vec<u8>> {
    let failure = ContractFailure { revert_data: None, error_payload_data: Some(format!("0x{hex}")) };
    revert_data_from_error(&failure)
}

fn parse_address(text: &str) -> Option<Address> {
    pool_address_arg(Protocol::UniswapV3, text).ok()
}

fn pool_id_of(address: Address) -> String {
    UniswapV2PoolData { pool_address: address, protocol: Protocol::UniswapV2, creator_contract: None, tokens: vec![], fee: 30 }
        .pool_id()
}

#[test]
fn hex_text_decodes() {
    assert_eq!(decode_payload("48656c6c6f"), Some(b"Hello".to_vec()));
    assert_eq!(decode_payload("DEADbeef"), Some(vec![0xde, 0xad, 0xbe, 0xef]));
    assert_eq!(decode_payload(""), Some(vec![]));
    assert_eq!(decode_payload("123"), None);
    assert_eq!(decode_payload("0x12"), None);
    assert_eq!(decode_payload("zz"), None);
}

#[test]
fn address_text_parses() {
    let expected = [
        0xd8, 0xda, 0x6b, 0xf2, 0x69, 0x64, 0xaf, 0x9d, 0x7e, 0xed, 0x9e, 0x03, 0xe5, 0x34, 0x15, 0xd3,
        0x7a, 0xa9, 0x60, 0x45,
    ];
    assert_eq!(parse_address("0xd8dA6BF26964aF9D7eEd9e03E53415D37aA96045").unwrap().bytes, expected);
    assert_eq!(parse_address("d8da6bf26964af9d7eed9e03e53415d37aa96045").unwrap().bytes, expected);
    assert_eq!(parse_address("0Xd8da6bf26964af9d7eed9e03e53415d37aa96045").unwrap().bytes, expected);
    assert!(parse_address("0xd8da6bf26964af9d7eed9e03e53415d37aa960").is_none());
    assert!(parse_address("0xd8da6bf26964af9d7eed9e03e53415d37aa9604g").is_none());
    assert!(parse_address("").is_none());
}

#[test]
fn b256_text_parses() {
    let text = "0x21c67e77068de97969ba93d4aab21826d33ca12bb9f565d8496e8fda8a82ca27";
    let word = v4_pool_id_arg(text).unwrap();
    assert_eq!(word.bytes[0], 0x21);
    assert_eq!(word.bytes[31], 0x27);
    assert!(v4_pool_id_arg("0x21c67e77").is_err());
}

#[test]
fn ticks_error_selector_is_the_hash_of_its_signature() {
    // keccak256("Ticks((int24,uint128,int128)[])") starts with dff58709.
    let mut data = vec![0xdf, 0xf5, 0x87, 0x09];
    data.extend([0u8; 31]);
    data.push(0x20);
    data.extend([0u8; 32]);
    assert_eq!(decode_ticks_error(&data), Some(vec![]));
    data[3] = 0x0a;
    assert_eq!(decode_ticks_error(&data), None);
}

#[test]
fn pool_id_is_the_checksummed_address() {
    assert_eq!(
        pool_id_of(parse_address("0xd8da6bf26964af9d7eed9e03e53415d37aa96045").unwrap()),
        "0xd8dA6BF26964aF9D7eEd9e03E53415D37aA96045"
    );
    assert_eq!(pool_id_of(Address::zero()), "0x0000000000000000000000000000000000000000");
}

#[test]
fn checksummed_text_parses_back() {
    for text in [
        "0x7fFE42C4a5DEeA5b0feC41C94C136Cf115597227",
        "0x0000000000000000000000000000000000000001",
        "0xffffffffffffffffffffffffffffffffffffffff",
    ] {
        let address = parse_address(text).unwrap();
        let id = pool_id_of(address);
        assert_eq!(id.to_lowercase(), text.to_lowercase());
        assert_eq!(parse_address(&id).unwrap().bytes, address.bytes);
    }
}
