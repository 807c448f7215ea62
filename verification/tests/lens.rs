use pool_data_rs::lens::{
    decode_ticks_error, revert_data_from_error, ticks_from_lens_call, ContractFailure, Tick,
};

fn word(v: i128) -> Vec<u8> {
    let mut w = if v < 0 { vec![0xffu8; 32] } else { vec![0u8; 32] };
    w[16..].copy_from_slice(&v.to_be_bytes());
    w
}

/// The revert data of `Ticks(ticks)`.
fn ticks_error(ticks: &[(i32, u128, i128)]) -> Vec<u8> {
    let mut data = vec![0xdf, 0xf5, 0x87, 0x09];
    data.extend(word(0x20));
    data.extend(word(ticks.len() as i128));
    for &(index, gross, net) in ticks {
        data.extend(word(index as i128));
        let mut g = vec![0u8; 16];
        g.extend(gross.to_be_bytes());
        data.extend(g);
        data.extend(word(net));
    }
    data
}

fn hex_text(bytes: &[u8]) -> String {
    bytes.iter().map(|b| format!("{:02x}", b)).collect()
}

#[test]
fn ticks_error_decodes() {
    let data = ticks_error(&[(-887220, 10, 10), (887220, 10, -10)]);
    assert_eq!(
        decode_ticks_error(&data),
        Some(vec![
            Tick { index: -887220, liquidity_gross: 10, liquidity_net: 10 },
            Tick { index: 887220, liquidity_gross: 10, liquidity_net: -10 },
        ])
    );
    assert_eq!(decode_ticks_error(&ticks_error(&[])), Some(vec![]));
}

#[test]
fn ticks_error_needs_its_selector() {
    let mut data = ticks_error(&[(1, 1, 1)]);
    data[0] = 0x00;
    assert_eq!(decode_ticks_error(&data), None);
    assert_eq!(decode_ticks_error(&[0xdf, 0xf5, 0x87]), None);
    assert_eq!(decode_ticks_error(&[0xdf, 0xf5, 0x87, 0x09]), None);
}

#[test]
fn revert_data_is_taken_as_reported() {
    let failure = ContractFailure {
        revert_data: Some(vec![1, 2, 3]),
        error_payload_data: Some("\"0xffff\"".to_string()),
    };
    assert_eq!(revert_data_from_error(&failure), Some(vec![1, 2, 3]));
}

#[test]
fn revert_data_is_read_from_the_error_payload() {
    let cases = [
        ("\"Reverted 0xdeadbeef\"", Some(vec![0xde, 0xad, 0xbe, 0xef])),
        ("\"0xDEADbeef\"", Some(vec![0xde, 0xad, 0xbe, 0xef])),
        ("  \"0x01\"  ", None),
        ("\" 0x01 \"", Some(vec![1])),
        ("\"\"\"0x\"\"", Some(vec![])),
        ("\u{3000}Reverted 0x0a\n", Some(vec![0x0a])),
        ("\"Reverted 0xabc\"", None),
        ("\"Reverted 0xzz\"", None),
        ("\"VM execution error.\"", None),
        ("Reverted0x00", None),
    ];
    for (payload, expected) in cases {
        let failure = ContractFailure { revert_data: None, error_payload_data: Some(payload.to_string()) };
        assert_eq!(revert_data_from_error(&failure), expected, "payload {payload:?}");
    }
    let failure = ContractFailure { revert_data: None, error_payload_data: None };
    assert_eq!(revert_data_from_error(&failure), None);
}

#[test]
fn lens_call_ticks() {
    let data = ticks_error(&[(60, 5, -5)]);
    let expected = vec![Tick { index: 60, liquidity_gross: 5, liquidity_net: -5 }];

    assert_eq!(ticks_from_lens_call(&Ok(vec![1, 2])), vec![]);

    let reported = ContractFailure { revert_data: Some(data.clone()), error_payload_data: None };
    assert_eq!(ticks_from_lens_call(&Err(reported)), expected);

    let payload = format!("\"Reverted 0x{}\"", hex_text(&data));
    let from_payload = ContractFailure { revert_data: None, error_payload_data: Some(payload) };
    assert_eq!(ticks_from_lens_call(&Err(from_payload)), expected);

    let undecodable = ContractFailure { revert_data: Some(vec![0xdf, 0xf5, 0x87, 0x09, 0x00]), error_payload_data: None };
    assert_eq!(ticks_from_lens_call(&Err(undecodable)), vec![]);

    let nothing = ContractFailure { revert_data: None, error_payload_data: Some("\"execution reverted\"".to_string()) };
    assert_eq!(ticks_from_lens_call(&Err(nothing)), vec![]);
}
