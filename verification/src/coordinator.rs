//! The decision core of the `/hamming` endpoint.
//!
//! A request walks through: length validation, a local remix, a serial
//! chain of peer remixes (a failed peer is skipped and the previous codes
//! kept), share collection racing the peers until `threshold - 1` successes
//! arrive, and the final combine-and-count stage. The network work itself
//! happens outside the library; every decision between two steps is here.

use crate::crypto::{decrypt_shares, DecryptionShare, EncryptedCodes};
use crate::elgamal::{bit_plaintext, Ciphertext, PublicKey, PublicKeySet};
use crate::errors::Error;
use vstd::prelude::*;

verus! {

/// The response of the `/hamming` endpoint.
#[derive(Debug, Clone, Copy, PartialEq, Eq, Structural)]
pub struct HammingResponse {
    pub hamming_distance: usize,
}

/// The key a remix runs under: the one the codes carry, or the node's
/// shared key when they carry none.
pub open spec fn effective_key(enc_key: Option<PublicKey>, server_key: PublicKey) -> PublicKey {
    match enc_key {
        Some(k) => k,
        None => server_key,
    }
}

/// The `/remix` decision: validates the code pair and remixes it under the
/// carried key, or the server's shared key when none is carried. Rejected
/// exactly when the lengths differ or are odd. The carried key travels
/// through unchanged, and the multiset of plaintext pairs under the
/// effective key is preserved.
pub fn remix_codes(codes: EncryptedCodes, server_key: &PublicKey) -> (r: Result<
    EncryptedCodes,
    Error,
>)
    ensures
        r is Ok <==> (codes.x_code@.len() == codes.y_code@.len() && codes.x_code@.len() % 2 == 0),
        (r matches Err(e) ==> e is InvalidLength),
        (r matches Ok(out) ==> out.enc_key == codes.enc_key && out.x_code@.len()
            == codes.x_code@.len() && out.y_code@.len() == codes.y_code@.len()
            && crate::remix::plain_pairs(
            effective_key(codes.enc_key, *server_key),
            out.x_code@,
            out.y_code@,
        ).to_multiset() == crate::remix::plain_pairs(
            effective_key(codes.enc_key, *server_key),
            codes.x_code@,
            codes.y_code@,
        ).to_multiset()),
{
    let mut codes = codes;
    let outcome = match &codes.enc_key {
        Some(k) => crate::crypto::remix(&mut codes.x_code, &mut codes.y_code, k),
        None => crate::crypto::remix(&mut codes.x_code, &mut codes.y_code, server_key),
    };
    match outcome {
        Ok(()) => Ok(codes),
        Err(crate::errors::CryptoError::InvalidLength(s)) => Err(Error::InvalidLength(s)),
    }
}

/// One step of the serial peer-remix chain: a peer whose answer keeps both
/// lengths hands the chain its output; a peer that failed or answered with
/// codes of other lengths is skipped and the previous codes carry on.
pub fn peer_remix_step(
    x_code: Vec<Ciphertext>,
    y_code: Vec<Ciphertext>,
    response: Option<(Vec<Ciphertext>, Vec<Ciphertext>)>,
) -> (r: (Vec<Ciphertext>, Vec<Ciphertext>))
    ensures
        (response matches Some(resp) && resp.0@.len() == x_code@.len() && resp.1@.len()
            == y_code@.len()) ==> r == response.unwrap(),
        !(response matches Some(resp) && resp.0@.len() == x_code@.len() && resp.1@.len()
            == y_code@.len()) ==> r == (x_code, y_code),
        r.0@.len() == x_code@.len(),
        r.1@.len() == y_code@.len(),
{
    match response {
        Some(resp) => {
            if resp.0.len() == x_code.len() && resp.1.len() == y_code.len() {
                resp
            } else {
                (x_code, y_code)
            }
        },
        None => (x_code, y_code),
    }
}

/// The shares gathered by racing peer responses in arrival order: the first
/// `want` successes, or every success when fewer arrive.
pub open spec fn collected(outcomes: Seq<Option<DecryptionShare>>, want: int) -> Seq<
    DecryptionShare,
>
    decreases outcomes.len(),
{
    if want <= 0 || outcomes.len() == 0 {
        Seq::empty()
    } else {
        match outcomes.first() {
            Some(s) => seq![s] + collected(outcomes.drop_first(), want - 1),
            None => collected(outcomes.drop_first(), want),
        }
    }
}

/// Number of successes among the outcomes.
pub open spec fn count_successes(outcomes: Seq<Option<DecryptionShare>>) -> int
    decreases outcomes.len(),
{
    if outcomes.len() == 0 {
        0
    } else {
        count_successes(outcomes.drop_first()) + if outcomes.first() is Some {
            1int
        } else {
            0int
        }
    }
}

/// Share racing gathers as many shares as it wants whenever enough peers
/// answer: with at least `want` successes among the outcomes, exactly
/// `want` shares are collected, and a failing peer costs nothing but its
/// own slot.
pub proof fn lemma_collected_enough(outcomes: Seq<Option<DecryptionShare>>, want: int)
    requires
        count_successes(outcomes) >= want,
        want >= 0,
    ensures
        collected(outcomes, want).len() == want,
    decreases outcomes.len(),
{
    if want > 0 && outcomes.len() > 0 {
        match outcomes.first() {
            Some(s) => {
                lemma_collected_enough(outcomes.drop_first(), want - 1);
            },
            None => {
                lemma_collected_enough(outcomes.drop_first(), want);
            },
        }
    }
}

/// Never more shares than asked for.
pub proof fn lemma_collected_bound(outcomes: Seq<Option<DecryptionShare>>, want: int)
    ensures
        collected(outcomes, want).len() <= if want >= 0 {
            want
        } else {
            0
        },
    decreases outcomes.len(),
{
    if want > 0 && outcomes.len() > 0 {
        match outcomes.first() {
            Some(s) => {
                lemma_collected_bound(outcomes.drop_first(), want - 1);
            },
            None => {
                lemma_collected_bound(outcomes.drop_first(), want);
            },
        }
    }
}

/// The racing decision of the share collector: walks the peer outcomes in
/// arrival order and keeps the first `want` successes; failures are
/// dropped. Stops as soon as enough shares are in hand.
pub fn collect_shares(outcomes: Vec<Option<DecryptionShare>>, want: usize) -> (r: Vec<
    DecryptionShare,
>)
    ensures
        r@ == collected(outcomes@, want as int),
{
    let ghost all = outcomes@;
    let mut rest = outcomes;
    let mut r: Vec<DecryptionShare> = Vec::new();
    let n = rest.len();
    let mut k: usize = 0;
    proof {
        assert(all.skip(0) =~= all);
        assert(Seq::<DecryptionShare>::empty() + collected(all, want as int) =~= collected(
            all,
            want as int,
        ));
    }
    while k < n && r.len() < want
        invariant
            k <= n,
            n == all.len(),
            rest@ =~= all.skip(k as int),
            r@.len() <= want,
            collected(all, want as int) =~= r@ + collected(
                all.skip(k as int),
                want - r@.len() as int,
            ),
        decreases n - k,
    {
        let ghost pre = r@;
        let next = rest.remove(0);
        proof {
            assert(all.skip(k as int).first() == all[k as int]);
            assert(all.skip(k as int).drop_first() =~= all.skip(k as int + 1));
            assert(rest@ =~= all.skip(k as int + 1));
        }
        match next {
            Some(s) => {
                r.push(s);
                proof {
                    assert(collected(all.skip(k as int), want - pre.len() as int) =~= seq![
                        all[k as int].unwrap(),
                    ] + collected(all.skip(k as int + 1), want - pre.len() - 1));
                    assert(r@ =~= pre + seq![all[k as int].unwrap()]);
                    assert(collected(all, want as int) =~= r@ + collected(
                        all.skip(k as int + 1),
                        want - r@.len() as int,
                    ));
                }
            },
            None => {
                proof {
                    assert(collected(all.skip(k as int), want - pre.len() as int) =~= collected(
                        all.skip(k as int + 1),
                        want - pre.len() as int,
                    ));
                }
            },
        }
        k = k + 1;
    }
    proof {
        if k == n {
            assert(all.skip(n as int) =~= Seq::<Option<DecryptionShare>>::empty());
            assert(collected(all.skip(n as int), want - r@.len() as int) =~= Seq::<
                DecryptionShare,
            >::empty());
        } else {
            assert(r@.len() == want);
            assert(collected(all.skip(k as int), 0) =~= Seq::<DecryptionShare>::empty());
        }
        assert(collected(all, want as int) =~= r@);
    }
    r
}

/// The plaintext bits of a ciphertext sequence under `pk`: position `i`
/// holds whether `code[i]` decrypts to one.
pub open spec fn plain_bits(pk: PublicKey, code: Seq<Ciphertext>) -> Seq<bool> {
    Seq::new(code.len(), |i: int| bit_plaintext(pk, code[i]) == Some(1u64))
}

/// The final stage of `/hamming`: combines the collected shares of both
/// codes and counts the differing plaintext bits. Every failure of the
/// combination stage surfaces as an unexpected (internal) error. Success is
/// owed - and the count is the Hamming distance of the true plaintext bits -
/// whenever both share lists cover the batches, come from distinct
/// participants, hold at least `threshold` verifying rows per position, and
/// every plaintext lies in `{0, 1}`.
pub fn hamming_decrypt(
    key_set: &PublicKeySet,
    x_code: &Vec<Ciphertext>,
    y_code: &Vec<Ciphertext>,
    x_shares: &Vec<DecryptionShare>,
    y_shares: &Vec<DecryptionShare>,
) -> (r: Result<HammingResponse, Error>)
    requires
        x_code@.len() == y_code@.len(),
    ensures
        (r matches Err(e) ==> e is Unexpected),
        (crate::elgamal::well_formed(*key_set) && crate::elgamal::threshold_of(*key_set) >= 1
            && crate::crypto::shares_len_ok(
            x_shares@,
            x_code@.len() as int,
        )
            && crate::crypto::distinct_share_indices(x_shares@) && (forall|pos: int|
            0 <= pos < x_code@.len() ==> crate::crypto::verified_rows(
                *key_set,
                #[trigger] x_code@[pos],
                pos,
                x_shares@,
            ).len() >= crate::elgamal::threshold_of(*key_set)) && (forall|pos: int|
            0 <= pos < x_code@.len() ==> (#[trigger] bit_plaintext(
                crate::elgamal::shared_key_of(*key_set),
                x_code@[pos],
            )) is Some) && crate::crypto::shares_len_ok(y_shares@, y_code@.len() as int)
            && crate::crypto::distinct_share_indices(y_shares@) && (forall|pos: int|
            0 <= pos < y_code@.len() ==> crate::crypto::verified_rows(
                *key_set,
                #[trigger] y_code@[pos],
                pos,
                y_shares@,
            ).len() >= crate::elgamal::threshold_of(*key_set)) && (forall|pos: int|
            0 <= pos < y_code@.len() ==> (#[trigger] bit_plaintext(
                crate::elgamal::shared_key_of(*key_set),
                y_code@[pos],
            )) is Some)) ==> (r matches Ok(resp) && resp.hamming_distance
            == crate::bits::hamming_spec(
            plain_bits(crate::elgamal::shared_key_of(*key_set), x_code@),
            plain_bits(crate::elgamal::shared_key_of(*key_set), y_code@),
            x_code@.len() as int,
        )),
{
    let x_decrypt = match decrypt_shares(key_set, x_code, x_shares) {
        Ok(bits) => bits,
        Err(_) => {
            return Err(Error::Unexpected("failed to decrypt".to_owned()));
        },
    };
    let y_decrypt = match decrypt_shares(key_set, y_code, y_shares) {
        Ok(bits) => bits,
        Err(_) => {
            return Err(Error::Unexpected("failed to decrypt".to_owned()));
        },
    };
    let ghost pk = crate::elgamal::shared_key_of(*key_set);
    let ghost x_bits = x_decrypt@;
    let ghost y_bits = y_decrypt@;
    let hamming_distance = crate::bits::hamming_distance(x_decrypt, y_decrypt);
    proof {
        if crate::elgamal::well_formed(*key_set) && crate::elgamal::threshold_of(*key_set) >= 1
            && crate::crypto::distinct_share_indices(x_shares@)
            && crate::crypto::distinct_share_indices(y_shares@) && (forall|pos: int|
            0 <= pos < x_code@.len() ==> (#[trigger] bit_plaintext(pk, x_code@[pos])) is Some) && (
        forall|pos: int|
            0 <= pos < y_code@.len() ==> (#[trigger] bit_plaintext(pk, y_code@[pos])) is Some) {
            assert(x_bits =~= plain_bits(pk, x_code@));
            assert(y_bits =~= plain_bits(pk, y_code@));
        }
    }
    Ok(HammingResponse { hamming_distance })
}

} // verus!
