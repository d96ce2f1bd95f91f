//! Threshold ElGamal operations of the node: validated remixing, bit-wise
//! encryption, decryption shares, and the verified combination of shares
//! back into plaintext bits.

use crate::elgamal::{
    bit_plaintext, combine_and_decrypt, decrypt_share_ct, encrypt_bit, index_of, key_set_of,
    key_set_shares, participant_index, share_verifies, shared_key_of, shares_of, threshold_of,
    true_share, well_formed, ActiveParticipant, Ciphertext, LogEqualityProof, PublicKey,
    PublicKeySet, VerifiableDecryption,
};
use crate::errors::CryptoError;
use vstd::prelude::*;

verus! {

/// The number of bits of one full iris code.
pub const N_BITS: usize = 25600;

/// Two encrypted codes travelling together, with the key they are encrypted
/// under; when the key is absent, the node's shared key is meant.
pub struct EncryptedCodes {
    pub x_code: Vec<Ciphertext>,
    pub y_code: Vec<Ciphertext>,
    pub enc_key: Option<PublicKey>,
}

/// A decryption share from one participant: one `(share, proof)` row per
/// ciphertext of the batch it was computed for.
pub struct DecryptionShare {
    pub index: usize,
    pub share: Vec<(VerifiableDecryption, LogEqualityProof)>,
}

impl DecryptionShare {
    /// Creates a new decryption share with the given participant index and
    /// per-ciphertext shares.
    pub fn new(index: usize, share: Vec<(VerifiableDecryption, LogEqualityProof)>) -> (r: Self)
        ensures
            r.index == index,
            r.share == share,
    {
        Self { index, share }
    }
}

/// Remixes two ciphertext sequences in place: pair shuffle, intra-pair
/// swap, rerandomisation. Rejected exactly when the lengths differ or are
/// odd; a rejected input is left unchanged.
pub fn remix(x_code: &mut Vec<Ciphertext>, y_code: &mut Vec<Ciphertext>, pub_key: &PublicKey) -> (r:
    Result<(), CryptoError>)
    ensures
        r is Ok <==> (old(x_code)@.len() == old(y_code)@.len() && old(x_code)@.len() % 2 == 0),
        r is Err ==> final(x_code)@ == old(x_code)@ && final(y_code)@ == old(y_code)@,
        final(x_code)@.len() == old(x_code)@.len(),
        final(y_code)@.len() == old(y_code)@.len(),
        r is Ok ==> crate::remix::plain_pairs(*pub_key, final(x_code)@, final(y_code)@).to_multiset()
            == crate::remix::plain_pairs(*pub_key, old(x_code)@, old(y_code)@).to_multiset(),
{
    if x_code.len() != y_code.len() || x_code.len() % 2 == 1 {
        return Err(
            CryptoError::InvalidLength(
                "Codes have invalid lengths. Either mismatched or odd length.".to_owned(),
            ),
        );
    }
    crate::remix::remix(x_code, y_code, pub_key);
    Ok(())
}

/// Encrypts each bit of the input under `pub_key`, with fresh randomness
/// per position: position `i` of the result decrypts to `bits[i]`.
pub fn encrypt(pub_key: &PublicKey, bits: &Vec<bool>) -> (r: Vec<Ciphertext>)
    ensures
        r@.len() == bits@.len(),
        forall|i: int|
            0 <= i < bits@.len() ==> bit_plaintext(*pub_key, #[trigger] r@[i]) == Some(
                if bits@[i] {
                    1u64
                } else {
                    0u64
                },
            ),
{
    let mut r: Vec<Ciphertext> = Vec::new();
    let n = bits.len();
    let mut i: usize = 0;
    while i < n
        invariant
            i <= n,
            n == bits@.len(),
            r@.len() == i,
            forall|k: int|
                0 <= k < i ==> bit_plaintext(*pub_key, #[trigger] r@[k]) == Some(
                    if bits@[k] {
                        1u64
                    } else {
                        0u64
                    },
                ),
        decreases n - i,
    {
        let ct = encrypt_bit(pub_key, bits[i]);
        r.push(ct);
        i = i + 1;
    }
    r
}

/// Encrypts each bit of the input under the shared key of the node's key
/// set, as the `/encrypt` endpoint does.
pub fn encrypt_with_shared_key(key_set: &PublicKeySet, bits: &Vec<bool>) -> (r: Vec<Ciphertext>)
    ensures
        r@.len() == bits@.len(),
        forall|i: int|
            0 <= i < bits@.len() ==> bit_plaintext(shared_key_of(*key_set), #[trigger] r@[i])
                == Some(
                if bits@[i] {
                    1u64
                } else {
                    0u64
                },
            ),
{
    let pub_key = crate::elgamal::key_set_shared_key(key_set);
    encrypt(&pub_key, bits)
}

/// The shared key this node remixes under when a request carries none: the
/// shared key of the participant's own key set.
pub fn node_shared_key(active_participant: &ActiveParticipant) -> (r: PublicKey)
    ensures
        r == shared_key_of(key_set_of(*active_participant)),
{
    let key_set = crate::elgamal::participant_key_set(active_participant);
    crate::elgamal::key_set_shared_key(&key_set)
}

/// How many shares the coordinator asks the peers for: the threshold less
/// the node's own share.
pub fn shares_wanted_from_peers(key_set: &PublicKeySet) -> (r: usize)
    ensures
        r == if threshold_of(*key_set) >= 1 {
            threshold_of(*key_set) - 1
        } else {
            0
        },
{
    let t = crate::elgamal::key_set_threshold(key_set);
    if t == 0 {
        0
    } else {
        t - 1
    }
}

/// Computes this participant's decryption share for every ciphertext of the
/// batch. Every row is the participant's true share and passes the
/// verification that collectors run.
pub fn decryption_share_for(
    active_participant: &ActiveParticipant,
    ciphertext: &Vec<Ciphertext>,
) -> (r: DecryptionShare)
    ensures
        r.index == index_of(*active_participant),
        r.share@.len() == ciphertext@.len(),
        forall|i: int|
            0 <= i < ciphertext@.len() ==> (#[trigger] r.share@[i]).0 == true_share(
                key_set_of(*active_participant),
                index_of(*active_participant),
                ciphertext@[i],
            ) && share_verifies(
                key_set_of(*active_participant),
                ciphertext@[i],
                index_of(*active_participant),
                r.share@[i].0,
                r.share@[i].1,
            ),
{
    let mut share: Vec<(VerifiableDecryption, LogEqualityProof)> = Vec::new();
    let n = ciphertext.len();
    let mut i: usize = 0;
    while i < n
        invariant
            i <= n,
            n == ciphertext@.len(),
            share@.len() == i,
            forall|k: int|
                0 <= k < i ==> (#[trigger] share@[k]).0 == true_share(
                    key_set_of(*active_participant),
                    index_of(*active_participant),
                    ciphertext@[k],
                ) && share_verifies(
                    key_set_of(*active_participant),
                    ciphertext@[k],
                    index_of(*active_participant),
                    share@[k].0,
                    share@[k].1,
                ),
        decreases n - i,
    {
        let row = decrypt_share_ct(active_participant, &ciphertext[i]);
        share.push(row);
        i = i + 1;
    }
    let index = participant_index(active_participant);
    DecryptionShare::new(index, share)
}

/// Errors of the share-combination stage.
#[derive(Debug)]
pub enum DecryptError {
    /// Some share row does not cover the whole ciphertext batch.
    LengthMismatch,
    /// At some position, fewer than `threshold` shares verified.
    CombineFailed,
    /// At some position, the combined decryption fell outside `{0, 1}`.
    OutOfRange,
}

/// Whether every share row covers all `n` ciphertexts.
pub open spec fn shares_len_ok(shares: Seq<DecryptionShare>, n: int) -> bool {
    forall|k: int| 0 <= k < shares.len() ==> (#[trigger] shares[k]).share.len() == n
}

/// Whether the share rows come from pairwise distinct participants.
pub open spec fn distinct_share_indices(shares: Seq<DecryptionShare>) -> bool {
    forall|k1: int, k2: int|
        0 <= k1 < k2 < shares.len() ==> (#[trigger] shares[k1]).index != (
        #[trigger] shares[k2]).index
}

/// Whether row `s` verifies for ciphertext `ct` at batch position `pos`:
/// its participant index is in range and its `(share, proof)` row for that
/// position passes proof verification.
pub open spec fn row_ok(ks: PublicKeySet, ct: Ciphertext, pos: int, s: DecryptionShare) -> bool {
    s.index < shares_of(ks) && share_verifies(ks, ct, s.index, s.share@[pos].0, s.share@[pos].1)
}

/// The `(index, share)` entries of the rows that verify for `ct` at
/// position `pos`, in row order.
pub open spec fn verified_rows(
    ks: PublicKeySet,
    ct: Ciphertext,
    pos: int,
    rows: Seq<DecryptionShare>,
) -> Seq<(usize, VerifiableDecryption)>
    decreases rows.len(),
{
    if rows.len() == 0 {
        Seq::empty()
    } else {
        let rest = verified_rows(ks, ct, pos, rows.drop_last());
        if row_ok(ks, ct, pos, rows.last()) {
            rest.push((rows.last().index, rows.last().share@[pos].0))
        } else {
            rest
        }
    }
}

/// When every row verifies, every row contributes an entry.
pub proof fn lemma_verified_rows_all(
    ks: PublicKeySet,
    ct: Ciphertext,
    pos: int,
    rows: Seq<DecryptionShare>,
)
    requires
        forall|k: int| 0 <= k < rows.len() ==> row_ok(ks, ct, pos, #[trigger] rows[k]),
    ensures
        verified_rows(ks, ct, pos, rows).len() == rows.len(),
    decreases rows.len(),
{
    if rows.len() > 0 {
        lemma_verified_rows_all(ks, ct, pos, rows.drop_last());
    }
}

/// No more entries than rows.
pub proof fn lemma_verified_rows_bound(
    ks: PublicKeySet,
    ct: Ciphertext,
    pos: int,
    rows: Seq<DecryptionShare>,
)
    ensures
        verified_rows(ks, ct, pos, rows).len() <= rows.len(),
    decreases rows.len(),
{
    if rows.len() > 0 {
        lemma_verified_rows_bound(ks, ct, pos, rows.drop_last());
    }
}

/// Threshold soundness, positive half: share rows that verify at every
/// position - as the rows computed by honest participants do - meet the
/// threshold hypothesis of `decrypt_shares` whenever at least `threshold`
/// of them are present.
pub proof fn lemma_honest_rows_reach_threshold(
    ks: PublicKeySet,
    enc: Seq<Ciphertext>,
    shares: Seq<DecryptionShare>,
)
    requires
        shares.len() >= threshold_of(ks),
        forall|k: int, pos: int|
            0 <= k < shares.len() && 0 <= pos < enc.len() ==> #[trigger] row_ok(
                ks,
                enc[pos],
                pos,
                shares[k],
            ),
    ensures
        forall|pos: int|
            0 <= pos < enc.len() ==> verified_rows(ks, #[trigger] enc[pos], pos, shares).len()
                >= threshold_of(ks),
{
    assert forall|pos: int|
        0 <= pos < enc.len() implies verified_rows(ks, #[trigger] enc[pos], pos, shares).len()
        >= threshold_of(ks) by {
        lemma_verified_rows_all(ks, enc[pos], pos, shares);
    }
}

/// Verifies and combines decryption shares into the plaintext bits of the
/// batch `enc`.
///
/// Exactly the rows that cover the whole batch take part; a batch with any
/// short or long row is rejected as `LengthMismatch`. At each position the
/// rows that pass proof verification are combined; success is owed whenever
/// the key set is well formed, the shares come from distinct participants,
/// at least `threshold` of them verify at every position, and every
/// plaintext lies in `{0, 1}` - and the returned bits are then the true
/// plaintexts. With fewer than `threshold` verifying rows at some position
/// the call returns an error.
pub fn decrypt_shares(
    key_set: &PublicKeySet,
    enc: &Vec<Ciphertext>,
    shares: &Vec<DecryptionShare>,
) -> (r: Result<Vec<bool>, DecryptError>)
    ensures
        (r matches Err(DecryptError::LengthMismatch)) <==> !shares_len_ok(
            shares@,
            enc@.len() as int,
        ),
        r is Ok ==> r.unwrap()@.len() == enc@.len(),
        r is Ok ==> forall|pos: int|
            0 <= pos < enc@.len() ==> verified_rows(
                *key_set,
                #[trigger] enc@[pos],
                pos,
                shares@,
            ).len() >= threshold_of(*key_set),
        (well_formed(*key_set) && threshold_of(*key_set) >= 1 && shares_len_ok(
            shares@,
            enc@.len() as int,
        ) && distinct_share_indices(shares@) && (
        forall|pos: int|
            0 <= pos < enc@.len() ==> verified_rows(
                *key_set,
                #[trigger] enc@[pos],
                pos,
                shares@,
            ).len() >= threshold_of(*key_set)) && (forall|pos: int|
            0 <= pos < enc@.len() ==> (#[trigger] bit_plaintext(
                shared_key_of(*key_set),
                enc@[pos],
            )) is Some)) ==> (r is Ok && (forall|pos: int|
            0 <= pos < enc@.len() ==> #[trigger] r.unwrap()@[pos] == (bit_plaintext(
                shared_key_of(*key_set),
                enc@[pos],
            ) == Some(1u64)))),
{
    let n = enc.len();
    let n_rows = shares.len();

    let mut k: usize = 0;
    while k < n_rows
        invariant
            k <= n_rows,
            n_rows == shares@.len(),
            n == enc@.len(),
            forall|k2: int| 0 <= k2 < k ==> (#[trigger] shares@[k2]).share.len() == n,
        decreases n_rows - k,
    {
        if shares[k].share.len() != n {
            return Err(DecryptError::LengthMismatch);
        }
        k = k + 1;
    }

    let n_shares = key_set_shares(key_set);
    let ghost pk = shared_key_of(*key_set);
    let mut bits: Vec<bool> = Vec::new();
    let mut pos: usize = 0;
    while pos < n
        invariant
            pos <= n,
            n == enc@.len(),
            n_rows == shares@.len(),
            n_shares == shares_of(*key_set),
            pk == shared_key_of(*key_set),
            shares_len_ok(shares@, n as int),
            bits@.len() == pos,
            forall|i: int|
                0 <= i < pos ==> verified_rows(*key_set, #[trigger] enc@[i], i, shares@).len()
                    >= threshold_of(*key_set),
            (well_formed(*key_set) && threshold_of(*key_set) >= 1 && distinct_share_indices(
                shares@,
            ) && (forall|i: int|
                0 <= i < enc@.len() ==> (#[trigger] bit_plaintext(pk, enc@[i])) is Some)) ==> (
            forall|i: int|
                0 <= i < pos ==> #[trigger] bits@[i] == (bit_plaintext(pk, enc@[i]) == Some(
                    1u64,
                ))),
        decreases n - pos,
    {
        let ct = enc[pos];
        let mut verified: Vec<(usize, VerifiableDecryption)> = Vec::new();
        let mut k: usize = 0;
        while k < n_rows
            invariant
                k <= n_rows,
                n_rows == shares@.len(),
                n == enc@.len(),
                pos < n,
                ct == enc@[pos as int],
                n_shares == shares_of(*key_set),
                shares_len_ok(shares@, n as int),
                verified@ == verified_rows(*key_set, ct, pos as int, shares@.take(k as int)),
                forall|j: int|
                    0 <= j < verified@.len() ==> (#[trigger] verified@[j]).1 == true_share(
                        *key_set,
                        verified@[j].0,
                        ct,
                    ) && verified@[j].0 < shares_of(*key_set),
                forall|j: int|
                    0 <= j < verified@.len() ==> exists|k2: int|
                        0 <= k2 < k && (#[trigger] verified@[j]).0 == shares@[k2].index,
                distinct_share_indices(shares@) ==> (forall|j1: int, j2: int|
                    0 <= j1 < j2 < verified@.len() ==> (#[trigger] verified@[j1]).0 != (
                    #[trigger] verified@[j2]).0),
            decreases n_rows - k,
        {
            let ghost pre = verified@;
            let ghost taken = shares@.take(k as int);
            let s = &shares[k];
            let idx = s.index;
            let row = &s.share[pos];
            if idx < n_shares {
                match crate::elgamal::verify_share_ct(key_set, &ct, idx, &row.0, &row.1) {
                    Some(vd) => {
                        verified.push((idx, vd));
                        proof {
                            assert(row_ok(*key_set, ct, pos as int, shares@[k as int]));
                        }
                    },
                    None => {
                        proof {
                            assert(!row_ok(*key_set, ct, pos as int, shares@[k as int]));
                        }
                    },
                }
            } else {
                proof {
                    assert(!row_ok(*key_set, ct, pos as int, shares@[k as int]));
                }
            }
            proof {
                let t2 = shares@.take(k as int + 1);
                assert(t2.drop_last() =~= taken);
                assert(t2.last() == shares@[k as int]);
                if row_ok(*key_set, ct, pos as int, shares@[k as int]) {
                    assert(verified@ =~= verified_rows(*key_set, ct, pos as int, t2));
                } else {
                    assert(verified@ =~= verified_rows(*key_set, ct, pos as int, t2));
                }
                assert forall|j: int| 0 <= j < verified@.len() implies exists|k2: int|
                    0 <= k2 < k + 1 && (#[trigger] verified@[j]).0 == shares@[k2].index by {
                    if j < pre.len() {
                        assert(pre[j] == verified@[j]);
                        let k2 = choose|k2: int| 0 <= k2 < k && pre[j].0 == shares@[k2].index;
                        assert(0 <= k2 < k + 1 && verified@[j].0 == shares@[k2].index);
                    } else {
                        assert(verified@[j].0 == shares@[k as int].index);
                    }
                }
            }
            k = k + 1;
        }
        proof {
            assert(shares@.take(n_rows as int) =~= shares@);
        }
        match combine_and_decrypt(key_set, &ct, &verified) {
            None => {
                proof {
                    lemma_verified_rows_bound(*key_set, ct, pos as int, shares@);
                }
                return Err(DecryptError::CombineFailed);
            },
            Some(decrypted) => {
                match decrypted {
                    None => {
                        return Err(DecryptError::OutOfRange);
                    },
                    Some(v) => {
                        bits.push(v == 1);
                    },
                }
            },
        }
        pos = pos + 1;
    }
    Ok(bits)
}

} // verus!
