use cosmwasm_simulate::addr::{
    canonicalize, humanize, AddrError, CANONICAL_LENGTH, GAS_COST_CANONICALIZE, GAS_COST_HUMANIZE,
    MIN_HUMAN_LENGTH,
};

#[test]
fn round_trip_recovers_the_address() {
    let human = b"oraifake_sender_addr".to_vec();
    let (canon, gas1) = canonicalize(&human);
    assert_eq!(gas1, GAS_COST_CANONICALIZE);
    let canon = canon.unwrap();
    assert_eq!(canon.len(), CANONICAL_LENGTH);
    let (back, gas2) = humanize(&canon);
    assert_eq!(gas2, GAS_COST_HUMANIZE);
    assert_eq!(back.unwrap(), human);
}

#[test]
fn round_trip_at_the_length_bounds() {
    let shortest = vec![b'x'; MIN_HUMAN_LENGTH];
    let longest = vec![b'y'; CANONICAL_LENGTH - 1];
    for human in [shortest, longest] {
        let (canon, _) = canonicalize(&human);
        let (back, _) = humanize(&canon.unwrap());
        assert_eq!(back.unwrap(), human);
    }
}

#[test]
fn too_short_address_is_rejected() {
    let (r, gas) = canonicalize(b"ab");
    assert!(matches!(r, Err(AddrError::TooShort)));
    assert_eq!(gas, GAS_COST_CANONICALIZE);
}

#[test]
fn too_long_address_is_rejected() {
    let long = vec![b'z'; CANONICAL_LENGTH];
    let (r, _) = canonicalize(&long);
    assert!(matches!(r, Err(AddrError::TooLong)));
}

#[test]
fn humanize_rejects_wrong_total_length() {
    let (r, _) = humanize(&[0u8; 10]);
    assert!(matches!(r, Err(AddrError::LengthMismatch)));
}

#[test]
fn humanize_rejects_bad_length_byte_and_padding() {
    let mut bad_len = vec![0u8; CANONICAL_LENGTH];
    bad_len[0] = 1;
    let (r, _) = humanize(&bad_len);
    assert!(matches!(r, Err(AddrError::Malformed)));

    let mut bad_pad = vec![0u8; CANONICAL_LENGTH];
    bad_pad[0] = 3;
    bad_pad[1] = b'a';
    bad_pad[2] = b'b';
    bad_pad[3] = b'c';
    bad_pad[CANONICAL_LENGTH - 1] = 7;
    let (r, _) = humanize(&bad_pad);
    assert!(matches!(r, Err(AddrError::Malformed)));
}
