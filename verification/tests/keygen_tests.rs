use hexrun_miner::keygen::{generate_batch, keypair_from_secret, try_generate_keypair};

fn is_lower_hex(b: u8) -> bool {
    (b'0'..=b'9').contains(&b) || (b'a'..=b'f').contains(&b)
}

#[test]
fn known_secret_one_gives_known_address() {
    let mut secret = vec![0u8; 32];
    secret[31] = 1;
    let kp = keypair_from_secret(&secret).expect("scalar one is valid");
    assert_eq!(kp.secret, secret);
    assert_eq!(kp.address, b"7e5f4552091a69125d5dfcb7b8c2659029395bdf".to_vec());
}

#[test]
fn known_secret_two_gives_known_address() {
    let mut secret = vec![0u8; 32];
    secret[31] = 2;
    let kp = keypair_from_secret(&secret).expect("scalar two is valid");
    assert_eq!(kp.address, b"2b5ad5c4795c026514f8317c7a215e218dccd6cf".to_vec());
}

#[test]
fn address_is_forty_lowercase_hex_digits() {
    let secret = vec![0xcdu8; 32];
    let kp = keypair_from_secret(&secret).expect("within curve order");
    assert_eq!(kp.address.len(), 40);
    assert!(kp.address.iter().all(|&b| is_lower_hex(b)));
}

#[test]
fn zero_scalar_is_rejected() {
    let secret = vec![0u8; 32];
    assert!(keypair_from_secret(&secret).is_none());
}

#[test]
fn scalar_above_curve_order_is_rejected() {
    let secret = vec![0xffu8; 32];
    assert!(keypair_from_secret(&secret).is_none());
}

#[test]
fn wrong_length_is_rejected() {
    let secret = vec![0xcdu8; 31];
    assert!(keypair_from_secret(&secret).is_none());
    let secret = vec![0xcdu8; 33];
    assert!(keypair_from_secret(&secret).is_none());
}

#[test]
fn random_keypair_is_well_formed() {
    let kp = try_generate_keypair().expect("an invalid draw is vanishingly rare");
    assert_eq!(kp.secret.len(), 32);
    assert_eq!(kp.address.len(), 40);
    assert!(kp.address.iter().all(|&b| is_lower_hex(b)));
}

#[test]
fn batch_has_requested_size_and_fresh_keys() {
    let batch = generate_batch(25);
    assert!(batch.len() <= 25);
    assert_eq!(batch.len(), 25, "an invalid draw is vanishingly rare");
    for kp in &batch {
        assert_eq!(kp.address.len(), 40);
        assert!(kp.address.iter().all(|&b| is_lower_hex(b)));
    }
    assert_ne!(batch[0].secret, batch[1].secret);
}
