use elastic_elgamal::group::Ristretto;
use elastic_elgamal::sharing::{
    ActiveParticipant as RawParticipant, Dealer, Params, PublicKeySet as RawKeySet,
};
use mix_node::auth::{auth_decision, auth_status};
use mix_node::coordinator::{collect_shares, hamming_decrypt, peer_remix_step, remix_codes};
use mix_node::crypto::{decryption_share_for, encrypt, DecryptionShare, EncryptedCodes};
use mix_node::elgamal::{ActiveParticipant, PublicKey, PublicKeySet};
use mix_node::config::{peers_without_self, Environment, ParticipantId};
use mix_node::errors::{
    CryptoError, Error, MessageError, GRPC_INVALID_ARGUMENT, STATUS_BAD_REQUEST,
    STATUS_UNAUTHORIZED,
};

fn setup(shares: usize, threshold: usize) -> (PublicKeySet, Vec<ActiveParticipant>) {
    let mut rng = rand::thread_rng();
    let params = Params::new(shares, threshold);
    let dealer = Dealer::<Ristretto>::new(params, &mut rng);
    let (public_poly, poly_proof) = dealer.public_info();
    let key_set = RawKeySet::new(params, public_poly, poly_proof).unwrap();

    let participants = (0..shares)
        .map(|i| {
            ActiveParticipant {
                raw: RawParticipant::new(key_set.clone(), i, dealer.secret_share_for_participant(i))
                    .unwrap(),
            }
        })
        .collect();

    (PublicKeySet { raw: key_set }, participants)
}

fn shared_key(key_set: &PublicKeySet) -> PublicKey {
    PublicKey {
        raw: key_set.raw.shared_key().clone(),
    }
}

/// Runs a whole `/hamming` request in process: self remix, a chain of two
/// honest peer remixes, share collection racing the peers (whose outcomes
/// arrive as given), the local self-share, and the final combination.
fn run_hamming(
    key_set: &PublicKeySet,
    participants: &[ActiveParticipant],
    faulty_peer: Option<usize>,
    codes: EncryptedCodes,
) -> Result<mix_node::coordinator::HammingResponse, Error> {
    let pub_key = shared_key(key_set);
    let threshold = key_set.raw.params().threshold;

    // Self remix, then the serial peer-remix chain; every peer here answers.
    let codes = remix_codes(codes, &pub_key)?;
    let (mut x_code, mut y_code) = (codes.x_code, codes.y_code);
    for _peer in 1..participants.len() {
        let response = remix_codes(
            EncryptedCodes {
                x_code: x_code.clone(),
                y_code: y_code.clone(),
                enc_key: None,
            },
            &pub_key,
        )
        .ok()
        .map(|out| (out.x_code, out.y_code));
        let next = peer_remix_step(x_code, y_code, response);
        x_code = next.0;
        y_code = next.1;
    }

    // Share collection: peers answer in some order, a faulty one fails.
    let peer_outcome = |p: &ActiveParticipant, code: &Vec<mix_node::elgamal::Ciphertext>| {
        if Some(p.raw.index()) == faulty_peer {
            None
        } else {
            Some(decryption_share_for(p, code))
        }
    };
    let x_outcomes: Vec<Option<DecryptionShare>> =
        participants[1..].iter().map(|p| peer_outcome(p, &x_code)).collect();
    let y_outcomes: Vec<Option<DecryptionShare>> =
        participants[1..].iter().map(|p| peer_outcome(p, &y_code)).collect();

    let mut x_shares = collect_shares(x_outcomes, threshold - 1);
    let mut y_shares = collect_shares(y_outcomes, threshold - 1);
    x_shares.push(decryption_share_for(&participants[0], &x_code));
    y_shares.push(decryption_share_for(&participants[0], &y_code));

    hamming_decrypt(key_set, &x_code, &y_code, &x_shares, &y_shares)
}

fn encoded_input(len: usize) -> Vec<bool> {
    let source: Vec<bool> = (0..len).map(|i| i % 2 == 0).collect();
    mix_node::bits::encode_bits(&source)
}

#[test]
fn s_a_round_trip() {
    let (key_set, participants) = setup(3, 2);
    let pub_key = shared_key(&key_set);

    let encoded = encoded_input(16);
    let codes = EncryptedCodes {
        x_code: encrypt(&pub_key, &encoded),
        y_code: encrypt(&pub_key, &encoded),
        enc_key: Some(pub_key.clone()),
    };

    let response = run_hamming(&key_set, &participants, None, codes).unwrap();
    assert_eq!(response.hamming_distance, 0);
}

#[test]
fn s_b_unit_distance() {
    let (key_set, participants) = setup(3, 2);
    let pub_key = shared_key(&key_set);

    let encoded = encoded_input(16);
    let mut y_encoded = encoded.clone();
    y_encoded[7] = !y_encoded[7];

    let codes = EncryptedCodes {
        x_code: encrypt(&pub_key, &encoded),
        y_code: encrypt(&pub_key, &y_encoded),
        enc_key: Some(pub_key.clone()),
    };

    let response = run_hamming(&key_set, &participants, None, codes).unwrap();
    assert_eq!(response.hamming_distance, 1);
}

#[test]
fn s_c_bad_length() {
    let (key_set, _participants) = setup(3, 2);
    let pub_key = shared_key(&key_set);

    let codes = EncryptedCodes {
        x_code: encrypt(&pub_key, &vec![true; 16]),
        y_code: encrypt(&pub_key, &vec![true; 14]),
        enc_key: None,
    };

    let err = match remix_codes(codes, &pub_key) {
        Err(e) => e,
        Ok(_) => panic!("mismatched lengths must be rejected"),
    };
    assert!(matches!(err, Error::InvalidLength(_)));
    assert_eq!(err.status_code(), STATUS_BAD_REQUEST);
}

#[test]
fn s_d_odd_length() {
    let (key_set, _participants) = setup(3, 2);
    let pub_key = shared_key(&key_set);

    let codes = EncryptedCodes {
        x_code: encrypt(&pub_key, &vec![false; 15]),
        y_code: encrypt(&pub_key, &vec![false; 15]),
        enc_key: None,
    };

    let err = match remix_codes(codes, &pub_key) {
        Err(e) => e,
        Ok(_) => panic!("odd lengths must be rejected"),
    };
    assert!(matches!(err, Error::InvalidLength(_)));
    assert_eq!(err.status_code(), STATUS_BAD_REQUEST);
}

#[test]
fn s_e_auth() {
    let server_token = Some("T".to_owned());

    // A request without a header is refused with 401.
    assert_eq!(auth_status(&server_token, &None), Some(STATUS_UNAUTHORIZED));
    assert!(!auth_decision(&server_token, &None));

    // Matching bearer: the request proceeds.
    assert_eq!(auth_status(&server_token, &Some("T".to_owned())), None);
    assert!(auth_decision(&server_token, &Some("T".to_owned())));

    // Mismatched bearer: 401.
    assert!(!auth_decision(&server_token, &Some("not-T".to_owned())));

    // No token configured: authentication is disabled.
    assert!(auth_decision(&None, &None));
    assert!(auth_decision(&None, &Some("anything".to_owned())));
}

#[test]
fn s_f_peer_fault_tolerance() {
    let (key_set, participants) = setup(3, 2);
    let pub_key = shared_key(&key_set);

    let encoded = encoded_input(16);
    let codes = EncryptedCodes {
        x_code: encrypt(&pub_key, &encoded),
        y_code: encrypt(&pub_key, &encoded),
        enc_key: None,
    };

    // Peer 1 always errors on its share request; peer 2 answers.
    let response = run_hamming(&key_set, &participants, Some(1), codes).unwrap();
    assert_eq!(response.hamming_distance, 0);
}

#[test]
fn s_g_remix_reversibility() {
    let (key_set, participants) = setup(3, 2);
    let pub_key = shared_key(&key_set);

    let source = vec![true, false, true, false, true, true];
    let mut codes = EncryptedCodes {
        x_code: encrypt(&pub_key, &source),
        y_code: encrypt(&pub_key, &source),
        enc_key: Some(pub_key.clone()),
    };

    for _ in 0..3 {
        codes = remix_codes(codes, &pub_key).unwrap();
    }

    let x_shares: Vec<_> = participants
        .iter()
        .take(2)
        .map(|p| decryption_share_for(p, &codes.x_code))
        .collect();
    let y_shares: Vec<_> = participants
        .iter()
        .skip(1)
        .take(2)
        .map(|p| decryption_share_for(p, &codes.y_code))
        .collect();

    let x_dec = mix_node::crypto::decrypt_shares(&key_set, &codes.x_code, &x_shares).unwrap();
    let y_dec = mix_node::crypto::decrypt_shares(&key_set, &codes.y_code, &y_shares).unwrap();

    assert_eq!(x_dec, y_dec);
}

#[test]
fn collect_shares_races_first_successes() {
    let (_key_set, participants) = setup(3, 2);
    let code = encrypt(&shared_key(&_key_set), &vec![true, false]);

    let s1 = decryption_share_for(&participants[1], &code);
    let s2 = decryption_share_for(&participants[2], &code);

    let outcomes = vec![None, Some(s1), Some(s2)];
    let collected = collect_shares(outcomes, 1);
    assert_eq!(collected.len(), 1);
    assert_eq!(collected[0].index, 1);

    let s1 = decryption_share_for(&participants[1], &code);
    let outcomes = vec![None, Some(s1)];
    let collected = collect_shares(outcomes, 2);
    assert_eq!(collected.len(), 1);

    let collected = collect_shares(vec![None, None], 2);
    assert!(collected.is_empty());
}

#[test]
fn environment_names() {
    assert_eq!(Environment::Local.as_str(), "local");
    assert_eq!(Environment::Production.as_str(), "production");
    assert!(matches!(
        Environment::from_name("local".to_owned()),
        Ok(Environment::Local)
    ));
    assert!(matches!(
        Environment::from_name("production".to_owned()),
        Ok(Environment::Production)
    ));
    assert_eq!(
        Environment::from_name("staging".to_owned()).unwrap_err(),
        "staging".to_owned()
    );
}

#[test]
fn peers_exclude_self() {
    let peers = vec![
        ParticipantId { index: 0, url: "http://localhost:8080".to_owned() },
        ParticipantId { index: 1, url: "http://localhost:8081".to_owned() },
        ParticipantId { index: 2, url: "http://localhost:8082".to_owned() },
    ];
    let filtered = peers_without_self(peers, 1);
    assert_eq!(filtered.len(), 2);
    assert_eq!(filtered[0].index, 0);
    assert_eq!(filtered[1].index, 2);
}

#[test]
fn error_status_codes() {
    let invalid = Error::InvalidLength("mismatched".to_owned());
    assert_eq!(invalid.status_code(), 400);
    let unexpected = Error::Unexpected("panic".to_owned());
    assert_eq!(unexpected.status_code(), 500);

    let from_crypto = Error::from(CryptoError::InvalidLength("odd".to_owned()));
    assert!(matches!(from_crypto, Error::InvalidLength(_)));

    assert_eq!(MessageError::InvalidCiphertext.grpc_code(), GRPC_INVALID_ARGUMENT);
    assert_eq!(
        MessageError::LengthMismatch { x_len: 4, y_len: 2 }.grpc_code(),
        GRPC_INVALID_ARGUMENT
    );
}

#[test]
fn hamming_decrypt_reports_unexpected() {
    let (key_set, participants) = setup(3, 2);
    let pub_key = shared_key(&key_set);

    let code = encrypt(&pub_key, &vec![true, false]);
    // A single share is below the threshold of two.
    let shares = vec![decryption_share_for(&participants[0], &code)];

    let err = match hamming_decrypt(&key_set, &code, &code, &shares, &shares) {
        Err(e) => e,
        Ok(_) => panic!("insufficient shares must fail"),
    };
    assert!(matches!(err, Error::Unexpected(_)));
    assert_eq!(err.status_code(), 500);
}

#[test]
fn peer_remix_step_keeps_codes_on_failure() {
    let (key_set, _participants) = setup(3, 2);
    let pub_key = shared_key(&key_set);

    let x = encrypt(&pub_key, &vec![true, false]);
    let y = encrypt(&pub_key, &vec![false, true]);
    let x_bytes: Vec<_> = x.iter().map(|ct| ct.raw.to_bytes()).collect();

    let (x2, y2) = peer_remix_step(x, y, None);
    let x2_bytes: Vec<_> = x2.iter().map(|ct| ct.raw.to_bytes()).collect();
    assert_eq!(x_bytes, x2_bytes);
    assert_eq!(y2.len(), 2);
}

#[test]
fn collect_shares_with_nothing_wanted() {
    let (key_set, participants) = setup(3, 2);
    let code = encrypt(&shared_key(&key_set), &vec![true]);
    let s1 = decryption_share_for(&participants[1], &code);

    let collected = collect_shares(vec![Some(s1)], 0);
    assert!(collected.is_empty());
}

#[test]
fn check_key_set_accepts_dealt_keys_and_rejects_tampered_ones() {
    let (key_set, _participants) = setup(3, 2);
    assert!(mix_node::elgamal::check_key_set(&key_set));

    // Forge a key set whose shared key is one participant's key instead of
    // the dealt one: serialize, tamper, deserialize.
    let json = serde_json::to_value(&key_set.raw).unwrap();
    let mut tampered = json.clone();
    let some_participant_key = json["participant_keys"][2].clone();
    tampered["shared_key"] = some_participant_key;
    let forged: RawKeySet<Ristretto> = serde_json::from_value(tampered).unwrap();
    assert!(!mix_node::elgamal::check_key_set(&PublicKeySet { raw: forged }));

    // Forge a key set that claims more shares than it holds keys for.
    let mut short = json;
    short["params"]["shares"] = serde_json::Value::from(5);
    let forged: RawKeySet<Ristretto> = serde_json::from_value(short).unwrap();
    assert!(!mix_node::elgamal::check_key_set(&PublicKeySet { raw: forged }));
}

#[test]
fn verify_share_tolerates_out_of_range_index() {
    let (key_set, participants) = setup(3, 2);
    let pub_key = shared_key(&key_set);
    let code = encrypt(&pub_key, &vec![true]);

    // A peer claiming an index beyond the key set must be filtered, not
    // crash the pipeline - even when the key set itself lies about its
    // share count.
    let json = serde_json::to_value(&key_set.raw).unwrap();
    let mut lying = json;
    lying["params"]["shares"] = serde_json::Value::from(5);
    let forged = PublicKeySet {
        raw: serde_json::from_value(lying).unwrap(),
    };

    let honest = decryption_share_for(&participants[0], &code);
    let (vd, proof) = honest.share[0];
    assert!(mix_node::elgamal::verify_share_ct(&forged, &code[0], 4, &vd, &proof).is_none());

    let mut liar = decryption_share_for(&participants[1], &code);
    liar.index = 4;
    let shares = vec![liar, decryption_share_for(&participants[0], &code)];
    // One verifying share is below the threshold of two.
    assert!(mix_node::crypto::decrypt_shares(&forged, &code, &shares).is_err());
}

#[test]
fn peer_remix_step_rejects_mismatched_response() {
    let (key_set, _participants) = setup(3, 2);
    let pub_key = shared_key(&key_set);

    let x = encrypt(&pub_key, &vec![true, false]);
    let y = encrypt(&pub_key, &vec![false, true]);
    let x_bytes: Vec<_> = x.iter().map(|ct| ct.raw.to_bytes()).collect();

    // A peer answering with codes of other lengths is skipped.
    let bad = (
        encrypt(&pub_key, &vec![true; 4]),
        encrypt(&pub_key, &vec![true, false]),
    );
    let (x2, y2) = peer_remix_step(x, y, Some(bad));
    let x2_bytes: Vec<_> = x2.iter().map(|ct| ct.raw.to_bytes()).collect();
    assert_eq!(x_bytes, x2_bytes);
    assert_eq!(y2.len(), 2);

    // A well-formed answer is taken.
    let x3 = encrypt(&pub_key, &vec![false, false]);
    let y3 = encrypt(&pub_key, &vec![true, true]);
    let x3_bytes: Vec<_> = x3.iter().map(|ct| ct.raw.to_bytes()).collect();
    let (x4, _y4) = peer_remix_step(x2, y2, Some((x3, y3)));
    let x4_bytes: Vec<_> = x4.iter().map(|ct| ct.raw.to_bytes()).collect();
    assert_eq!(x3_bytes, x4_bytes);
}
