//! The curve abstraction: ElGamal over the Ristretto group, supplied by the
//! `elastic_elgamal` crate behind a small set of trusted wrappers.
//!
//! Each type here carries one value of the outside crate in a field that the
//! verifier treats as opaque; the `raw` field is public so that the
//! unverified edges of an application can convert at the boundary.
//!
//! The contracts speak of three names. `bit_plaintext(pk, ct)` is the value
//! that threshold decryption of `ct` under the secret matching `pk` yields
//! through the `{0, 1}` discrete-log table; it is determined by `pk` and
//! `ct` alone, since the secret scalar behind a public key is unique.
//! `true_share(ks, index, ct)` is the decryption share of participant
//! `index` for `ct`: the curve point `r * s_index`, again a function of its
//! arguments alone. `share_verifies` is the deterministic outcome of the
//! proof check that guards shares arriving over the network.

use vstd::prelude::*;

verus! {

/// An ElGamal ciphertext over the Ristretto curve: semantically the pair
/// `(rG, mG + rK)`.
#[verifier::external_body]
pub struct Ciphertext {
    pub raw: elastic_elgamal::Ciphertext<elastic_elgamal::group::Ristretto>,
}

/// An ElGamal public key over the Ristretto curve.
#[verifier::external_body]
pub struct PublicKey {
    pub raw: elastic_elgamal::PublicKey<elastic_elgamal::group::Ristretto>,
}

/// The public information of a threshold key: parameters `{n, t}`, the
/// shared key and the per-participant verification keys.
#[verifier::external_body]
pub struct PublicKeySet {
    pub raw: elastic_elgamal::sharing::PublicKeySet<elastic_elgamal::group::Ristretto>,
}

/// One participant's view of the threshold scheme, secret share included.
/// The secret share never leaves this value.
#[verifier::external_body]
pub struct ActiveParticipant {
    pub raw: elastic_elgamal::sharing::ActiveParticipant<elastic_elgamal::group::Ristretto>,
}

/// One participant's decryption share for one ciphertext.
#[verifier::external_body]
pub struct VerifiableDecryption {
    pub raw: elastic_elgamal::VerifiableDecryption<elastic_elgamal::group::Ristretto>,
}

/// The zero-knowledge proof that accompanies a decryption share.
#[verifier::external_body]
pub struct LogEqualityProof {
    pub raw: elastic_elgamal::LogEqualityProof<elastic_elgamal::group::Ristretto>,
}

impl Clone for Ciphertext {
    /// Relies on the outside ciphertext being `Copy`.
    #[verifier::external_body]
    fn clone(&self) -> (r: Self)
        ensures
            r == *self,
    {
        Ciphertext { raw: self.raw }
    }
}

impl Copy for Ciphertext {
}

impl Clone for VerifiableDecryption {
    /// Relies on the outside decryption being `Copy`.
    #[verifier::external_body]
    fn clone(&self) -> (r: Self)
        ensures
            r == *self,
    {
        VerifiableDecryption { raw: self.raw }
    }
}

impl Copy for VerifiableDecryption {
}

impl Clone for LogEqualityProof {
    /// Relies on the outside proof being `Copy`.
    #[verifier::external_body]
    fn clone(&self) -> (r: Self)
        ensures
            r == *self,
    {
        LogEqualityProof { raw: self.raw }
    }
}

impl Copy for LogEqualityProof {
}

impl Clone for PublicKey {
    /// Relies on the outside key's `Clone`, which copies the key.
    #[verifier::external_body]
    fn clone(&self) -> (r: Self)
        ensures
            r == *self,
    {
        PublicKey { raw: self.raw.clone() }
    }
}

impl Clone for PublicKeySet {
    /// Relies on the outside key set's `Clone`, which copies it whole.
    #[verifier::external_body]
    fn clone(&self) -> (r: Self)
        ensures
            r == *self,
    {
        PublicKeySet { raw: self.raw.clone() }
    }
}

/// The value that threshold decryption of `ct` under the secret scalar
/// matching `pk` yields through the `{0, 1}` discrete-log table; `None` when
/// the plaintext lies outside the table.
pub uninterp spec fn bit_plaintext(pk: PublicKey, ct: Ciphertext) -> Option<u64>;

/// The decryption share of participant `index` of `ks` for `ct`: what that
/// participant's honest share computation returns.
pub uninterp spec fn true_share(ks: PublicKeySet, index: usize, ct: Ciphertext) -> VerifiableDecryption;

/// The outcome of verifying `share` with `proof` against participant `index`
/// of `ks` for `ct`; false when the key set holds no verification key for
/// that index.
pub uninterp spec fn share_verifies(
    ks: PublicKeySet,
    ct: Ciphertext,
    index: usize,
    share: VerifiableDecryption,
    proof: LogEqualityProof,
) -> bool;

/// The shared public key of the key set.
pub uninterp spec fn shared_key_of(ks: PublicKeySet) -> PublicKey;

/// The threshold `t` the key set was dealt with.
pub uninterp spec fn threshold_of(ks: PublicKeySet) -> usize;

/// The total number of participants `n` the key set was dealt with.
pub uninterp spec fn shares_of(ks: PublicKeySet) -> usize;

/// The key set a participant belongs to.
pub uninterp spec fn key_set_of(p: ActiveParticipant) -> PublicKeySet;

/// A participant's 0-based index.
pub uninterp spec fn index_of(p: ActiveParticipant) -> usize;

/// Whether the key set is one the outside constructors could have produced:
/// it holds one verification key per participant, and those keys lie on one
/// polynomial whose value at zero is the shared key. Every key set a dealer
/// deals is well formed; one assembled from raw, unchecked fields need not
/// be.
pub uninterp spec fn well_formed(ks: PublicKeySet) -> bool;

/// Relies on `PublicKeySet::shared_key`, which returns the shared key.
#[verifier::external_body]
pub fn key_set_shared_key(ks: &PublicKeySet) -> (r: PublicKey)
    ensures
        r == shared_key_of(*ks),
{
    PublicKey { raw: ks.raw.shared_key().clone() }
}

/// Relies on `PublicKeySet::params`, whose `threshold` field is the `t` of
/// the scheme.
#[verifier::external_body]
pub fn key_set_threshold(ks: &PublicKeySet) -> (r: usize)
    ensures
        r == threshold_of(*ks),
{
    ks.raw.params().threshold
}

/// Relies on `PublicKeySet::params`, whose `shares` field is the `n` of the
/// scheme.
#[verifier::external_body]
pub fn key_set_shares(ks: &PublicKeySet) -> (r: usize)
    ensures
        r == shares_of(*ks),
{
    ks.raw.params().shares
}

/// Relies on `ActiveParticipant::key_set`, which returns the participant's
/// key set.
#[verifier::external_body]
pub fn participant_key_set(p: &ActiveParticipant) -> (r: PublicKeySet)
    ensures
        r == key_set_of(*p),
{
    PublicKeySet { raw: p.raw.key_set().clone() }
}

/// Relies on `ActiveParticipant::index`, which returns the participant's
/// 0-based index.
#[verifier::external_body]
pub fn participant_index(p: &ActiveParticipant) -> (r: usize)
    ensures
        r == index_of(*p),
{
    p.raw.index()
}

/// Relies on `PublicKey::encrypt` with fresh randomness and on ElGamal
/// correctness: an encryption of 0 or 1 decrypts to that value through the
/// `{0, 1}` table.
#[verifier::external_body]
pub fn encrypt_bit(pk: &PublicKey, bit: bool) -> (r: Ciphertext)
    ensures
        bit_plaintext(*pk, r) == Some(
            if bit {
                1u64
            } else {
                0u64
            },
        ),
{
    let value: u64 = if bit {
        1
    } else {
        0
    };
    Ciphertext { raw: pk.raw.encrypt(value, &mut rand::thread_rng()) }
}

/// Relies on `PublicKey::encrypt` of the value 0 and on the additive
/// homomorphism of ElGamal ciphertexts: adding an encryption of zero under
/// the same key keeps the plaintext.
#[verifier::external_body]
pub fn rerandomise_ct(pk: &PublicKey, ct: &Ciphertext) -> (r: Ciphertext)
    ensures
        bit_plaintext(*pk, r) == bit_plaintext(*pk, *ct),
{
    Ciphertext { raw: ct.raw + pk.raw.encrypt(0_u64, &mut rand::thread_rng()) }
}

/// Relies on `ActiveParticipant::decrypt_share`: the share part is the
/// participant's decryption share for the ciphertext, and the proof it hands
/// back verifies against the participant's own index and key set.
#[verifier::external_body]
pub fn decrypt_share_ct(p: &ActiveParticipant, ct: &Ciphertext) -> (r: (
    VerifiableDecryption,
    LogEqualityProof,
))
    ensures
        r.0 == true_share(key_set_of(*p), index_of(*p), *ct),
        share_verifies(key_set_of(*p), *ct, index_of(*p), r.0, r.1),
{
    let (share, proof) = p.raw.decrypt_share(ct.raw, &mut rand::thread_rng());
    (VerifiableDecryption { raw: share }, LogEqualityProof { raw: proof })
}

/// Relies on `PublicKeySet::participant_key` (absent key: no verification)
/// and `PublicKeySet::verify_share` (with the candidate form built by
/// `CandidateDecryption::from_bytes` from `VerifiableDecryption::to_bytes`):
/// verification succeeds exactly when the key set holds a key for `index`
/// and the proof checks out, the share it returns is the share it was
/// given, and by soundness of the log-equality proof a share that verifies
/// is the participant's true share.
#[verifier::external_body]
pub fn verify_share_ct(
    ks: &PublicKeySet,
    ct: &Ciphertext,
    index: usize,
    share: &VerifiableDecryption,
    proof: &LogEqualityProof,
) -> (r: Option<VerifiableDecryption>)
    ensures
        r is Some <==> share_verifies(*ks, *ct, index, *share, *proof),
        r is Some ==> r.unwrap() == *share && *share == true_share(*ks, index, *ct),
{
    ks.raw.participant_key(index)?;
    let candidate = elastic_elgamal::CandidateDecryption::from_bytes(&share.raw.to_bytes())?;
    let verified = ks.raw.verify_share(candidate, ct.raw, index, &proof.raw).ok()?;
    Some(VerifiableDecryption { raw: verified })
}

/// Whether the first `t` entries carry pairwise distinct participant
/// indices.
pub open spec fn distinct_indices(shares: Seq<(usize, VerifiableDecryption)>, t: int) -> bool {
    forall|j1: int, j2: int|
        0 <= j1 < j2 < t && j2 < shares.len() ==> (#[trigger] shares[j1]).0 != (
        #[trigger] shares[j2]).0
}

/// Whether the first `t` entries are the true shares of the participants
/// they claim to come from.
pub open spec fn all_true_shares(
    ks: PublicKeySet,
    ct: Ciphertext,
    shares: Seq<(usize, VerifiableDecryption)>,
    t: int,
) -> bool {
    forall|j: int|
        0 <= j < t && j < shares.len() ==> (#[trigger] shares[j]).1 == true_share(
            ks,
            shares[j].0,
            ct,
        )
}

/// Relies on `Params::combine_shares` and `VerifiableDecryption::decrypt`
/// with the `{0, 1}` discrete-log table. Combination consumes the first `t`
/// shares and returns `None` when fewer are given; when the key set is well
/// formed, `t` is at least one and those `t` entries are the true shares of
/// `t` distinct participants, Lagrange interpolation restores the
/// decryption, and the table lookup returns the plaintext bit, or `None`
/// for a value outside `{0, 1}`.
#[verifier::external_body]
pub fn combine_and_decrypt(
    ks: &PublicKeySet,
    ct: &Ciphertext,
    shares: &Vec<(usize, VerifiableDecryption)>,
) -> (r: Option<Option<u64>>)
    requires
        forall|j: int|
            0 <= j < shares@.len() && j < threshold_of(*ks) ==> (#[trigger] shares@[j]).0
                < shares_of(*ks),
    ensures
        r is Some <==> shares@.len() >= threshold_of(*ks),
        (well_formed(*ks) && threshold_of(*ks) >= 1 && shares@.len() >= threshold_of(*ks)
            && distinct_indices(
            shares@,
            threshold_of(*ks) as int,
        ) && all_true_shares(*ks, *ct, shares@, threshold_of(*ks) as int)) ==> r == Some(
            bit_plaintext(shared_key_of(*ks), *ct),
        ),
{
    let combined = ks.raw.params().combine_shares(shares.iter().map(|(i, s)| (*i, s.raw)))?;
    let table = elastic_elgamal::DiscreteLogTable::new(0..=1);
    Some(combined.decrypt(ct.raw, &table))
}

/// Relies on `PublicKeySet::from_participants`, which rebuilds a key set
/// from the given parameters and participant keys, failing unless the key
/// count matches the share count and the keys lie on one polynomial, and on
/// the outside `PublicKey` equality, which compares the serialized points:
/// the check passes exactly when the key set could have come from the
/// outside constructors. The bounds on the threshold keep the rebuild off
/// its panicking paths.
#[verifier::external_body]
fn validate_key_set_raw(ks: &PublicKeySet) -> (r: bool)
    requires
        1 <= threshold_of(*ks),
        threshold_of(*ks) <= shares_of(*ks),
    ensures
        r ==> well_formed(*ks),
{
    let rebuilt = elastic_elgamal::sharing::PublicKeySet::from_participants(
        ks.raw.params(),
        ks.raw.participant_keys().to_vec(),
    );
    match rebuilt {
        Ok(rebuilt) => rebuilt.shared_key() == ks.raw.shared_key(),
        Err(_) => false,
    }
}

/// Checks that a key set is well formed: its parameters are in range and
/// its verification keys are consistent with its shared key. A key set that
/// arrives over a deserialisation boundary should pass here before any
/// share is combined under it.
pub fn check_key_set(ks: &PublicKeySet) -> (r: bool)
    ensures
        r ==> well_formed(*ks),
{
    let t = key_set_threshold(ks);
    let n = key_set_shares(ks);
    if t < 1 || t > n {
        return false;
    }
    validate_key_set_raw(ks)
}

/// Relies on `rand::Rng::gen_range` over `lo..hi`, which returns a value of
/// that non-empty range.
#[verifier::external_body]
pub fn rand_below(lo: usize, hi: usize) -> (r: usize)
    requires
        lo < hi,
    ensures
        lo <= r < hi,
{
    rand::Rng::gen_range(&mut rand::thread_rng(), lo..hi)
}

/// Relies on `rand::Rng::gen` for `bool`: a coin flip, of which nothing is
/// promised.
#[verifier::external_body]
pub fn rand_flip() -> bool {
    rand::Rng::gen(&mut rand::thread_rng())
}

} // verus!
