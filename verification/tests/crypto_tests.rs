use elastic_elgamal::group::Ristretto;
use elastic_elgamal::sharing::{
    ActiveParticipant as RawParticipant, Dealer, Params, PublicKeySet as RawKeySet,
};
use mix_node::crypto::{
    decrypt_shares, decryption_share_for, encrypt, remix, DecryptError, DecryptionShare,
};
use mix_node::elgamal::{ActiveParticipant, Ciphertext, PublicKeySet};

fn setup(shares: usize, threshold: usize) -> (PublicKeySet, Vec<ActiveParticipant>) {
    let mut rng = rand::thread_rng();
    let params = Params::new(shares, threshold);

    // Initialize the dealer.
    let dealer = Dealer::<Ristretto>::new(params, &mut rng);
    let (public_poly, poly_proof) = dealer.public_info();
    let key_set = RawKeySet::new(params, public_poly, poly_proof).unwrap();

    let participants = (0..shares)
        .map(|i| {
            ActiveParticipant {
                raw: RawParticipant::new(key_set.clone(), i, dealer.secret_share_for_participant(i))
                    .unwrap(),
            }
        })
        .collect();

    (PublicKeySet { raw: key_set }, participants)
}

fn shared_key(key_set: &PublicKeySet) -> mix_node::elgamal::PublicKey {
    mix_node::elgamal::PublicKey {
        raw: key_set.raw.shared_key().clone(),
    }
}

#[test]
fn test_protocol() {
    let (key_set, participants) = setup(3, 2);
    let pub_key = shared_key(&key_set);

    let x_payload = vec![false, true, false, true, false, true];
    let y_payload = vec![true, true, false, true, false, true];
    // Encrypt
    let mut x_ct = encrypt(&pub_key, &x_payload);
    let mut y_ct = encrypt(&pub_key, &y_payload);
    // Remix
    for _ in 0..3 {
        remix(&mut x_ct, &mut y_ct, &pub_key).unwrap();
    }
    // Decrypt
    let x_shares: Vec<_> = participants
        .iter()
        .skip(1)
        .take(2)
        .map(|p| decryption_share_for(p, &x_ct))
        .collect();
    let y_shares: Vec<_> = participants
        .iter()
        .take(2)
        .map(|p| decryption_share_for(p, &y_ct))
        .collect();

    let x_decrypted = decrypt_shares(&key_set, &x_ct, &x_shares).unwrap();
    let y_decrypted = decrypt_shares(&key_set, &y_ct, &y_shares).unwrap();

    assert_eq!(mix_node::bits::hamming_distance(x_decrypted, y_decrypted), 1);
}

#[test]
fn test_decrypt_shares() {
    let (key_set, participants) = setup(3, 2);
    let pub_key = shared_key(&key_set);

    let plaintext = true;
    let encrypted = encrypt(&pub_key, &vec![plaintext]);

    let shares: Vec<_> = participants
        .iter()
        .map(|p| decryption_share_for(p, &encrypted))
        .collect();

    let decrypted = decrypt_shares(&key_set, &encrypted, &shares).unwrap();
    assert_eq!(decrypted[0], plaintext);
}

#[test]
fn test_decrypt_empty() {
    let (key_set, _participants) = setup(3, 2);

    let shares: Vec<_> = (0..2).map(|i| DecryptionShare::new(i, vec![])).collect();

    let decrypted = decrypt_shares(&key_set, &vec![], &shares).unwrap();
    assert!(decrypted.is_empty());
}

#[test]
fn test_decrypt_no_shares() {
    let (key_set, _participants) = setup(3, 2);
    let pub_key = shared_key(&key_set);

    let encrypted = encrypt(&pub_key, &vec![true]);

    let decrypted = decrypt_shares(&key_set, &encrypted, &vec![]);
    assert!(decrypted.is_err());
}

#[test]
fn test_decrypt_enough_shares() {
    let (key_set, participants) = setup(3, 2);
    let pub_key = shared_key(&key_set);

    let plaintext = true;
    let encrypted = encrypt(&pub_key, &vec![plaintext]);

    let shares: Vec<_> = participants
        .iter()
        .take(2)
        .map(|p| decryption_share_for(p, &encrypted))
        .collect();

    let decrypted = decrypt_shares(&key_set, &encrypted, &shares).unwrap();
    assert_eq!(decrypted[0], plaintext);
}

#[test]
fn test_decrypt_not_enough_shares() {
    let (key_set, participants) = setup(3, 2);
    let pub_key = shared_key(&key_set);

    let encrypted = encrypt(&pub_key, &vec![true]);

    let shares: Vec<_> = participants
        .iter()
        .take(1)
        .map(|p| decryption_share_for(p, &encrypted))
        .collect();

    let decrypted = decrypt_shares(&key_set, &encrypted, &shares);
    assert!(matches!(decrypted, Err(DecryptError::CombineFailed)));
}

#[test]
fn test_decrypt_mismatch_len() {
    let (key_set, participants) = setup(3, 2);
    let pub_key = shared_key(&key_set);

    let encrypted = encrypt(&pub_key, &vec![true]);

    let shares: Vec<_> = participants
        .iter()
        .map(|p| {
            let _share = decryption_share_for(p, &encrypted);
            DecryptionShare::new(p.raw.index(), vec![])
        })
        .collect();

    let decrypted = decrypt_shares(&key_set, &encrypted, &shares);
    assert!(matches!(decrypted, Err(DecryptError::LengthMismatch)));
}

#[test]
fn test_decrypt_out_of_range() {
    let (key_set, participants) = setup(3, 2);

    // A plaintext outside the `{0, 1}` lookup table.
    let mut rng = rand::thread_rng();
    let encrypted = vec![Ciphertext {
        raw: key_set.raw.shared_key().encrypt(5_u64, &mut rng),
    }];

    let shares: Vec<_> = participants
        .iter()
        .take(2)
        .map(|p| decryption_share_for(p, &encrypted))
        .collect();

    let decrypted = decrypt_shares(&key_set, &encrypted, &shares);
    assert!(matches!(decrypted, Err(DecryptError::OutOfRange)));
}
