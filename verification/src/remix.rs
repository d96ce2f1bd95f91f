//! The remix kernel: pair-preserving Fisher-Yates shuffle, intra-pair
//! coin-flip swap, and homomorphic rerandomisation.
//!
//! The two shuffles move positions of `x` and `y` together, so the joint
//! sequence of pairs `(x[i], y[i])` is only permuted; rerandomisation keeps
//! every plaintext in place. Together they preserve the multiset of
//! plaintext pairs, which is the pair-preservation guarantee of the mix.

use crate::elgamal::{bit_plaintext, Ciphertext, PublicKey};
use vstd::prelude::*;
use vstd::seq_lib::group_to_multiset_ensures;

verus! {

/// The joint sequence of `x` and `y`: position `i` holds `(x[i], y[i])`.
pub open spec fn zipped<T>(x: Seq<T>, y: Seq<T>) -> Seq<(T, T)> {
    Seq::new(x.len(), |i: int| (x[i], y[i]))
}

/// The plaintext pairs of two ciphertext sequences under `pk`: position `i`
/// holds the decryptions of `x[i]` and `y[i]`.
pub open spec fn plain_pairs(pk: PublicKey, x: Seq<Ciphertext>, y: Seq<Ciphertext>) -> Seq<
    (Option<u64>, Option<u64>),
> {
    Seq::new(x.len(), |i: int| (bit_plaintext(pk, x[i]), bit_plaintext(pk, y[i])))
}

/// The pair blocks of two joint sequences: entry `p` holds the positions
/// `(2p, 2p + 1)` of `x` beside the same positions of `y`. A trailing lone
/// element belongs to no block.
pub open spec fn pair_blocks<T>(x: Seq<T>, y: Seq<T>) -> Seq<((T, T), (T, T))> {
    Seq::new(x.len() / 2, |p: int| ((x[2 * p], x[2 * p + 1]), (y[2 * p], y[2 * p + 1])))
}

/// The blocks after the Fisher-Yates steps from step `p` on: step `q`
/// exchanges block `q` with block `choices[q]`, steps taken in order.
pub open spec fn fy_apply_from<B>(blocks: Seq<B>, choices: Seq<usize>, p: int) -> Seq<B>
    decreases choices.len() - p,
{
    if p < 0 || p >= choices.len() {
        blocks
    } else {
        let c = choices[p] as int;
        let swapped = blocks.update(p, blocks[c]).update(c, blocks[p]);
        fy_apply_from(swapped, choices, p + 1)
    }
}

/// The blocks after the whole Fisher-Yates shuffle with the given swap
/// targets.
pub open spec fn fy_apply<B>(blocks: Seq<B>, choices: Seq<usize>) -> Seq<B> {
    fy_apply_from(blocks, choices, 0)
}

/// Number of Fisher-Yates steps over the pairs of a sequence of length
/// `len`: one per pair except the last, and none when there is no full pair.
pub open spec fn n_shuffle_steps(len: int) -> int {
    if len < 2 {
        0
    } else {
        (len - 1) / 2
    }
}

/// Exchanging positions `i` and `j` of a sequence keeps its multiset.
proof fn lemma_swap_multiset<A>(s: Seq<A>, i: int, j: int)
    requires
        0 <= i < s.len(),
        0 <= j < s.len(),
    ensures
        s.update(i, s[j]).update(j, s[i]).to_multiset() == s.to_multiset(),
{
    broadcast use group_to_multiset_ensures;
    broadcast use vstd::seq_lib::to_multiset_update;

    let t = s.update(i, s[j]);
    let u = t.update(j, s[i]);
    assert(t[j] == s[j]);
    assert(t.to_multiset() == s.to_multiset().insert(s[j]).remove(s[i]));
    assert(u.to_multiset() == t.to_multiset().insert(s[i]).remove(s[j]));
    assert(s.to_multiset().count(s[i]) > 0);
    assert(u.to_multiset() =~= s.to_multiset());
}

/// Exchanges positions `i` and `j` of a vector.
fn swap_at<T: Copy>(v: &mut Vec<T>, i: usize, j: usize)
    requires
        i < old(v)@.len(),
        j < old(v)@.len(),
    ensures
        final(v)@ == old(v)@.update(i as int, old(v)@[j as int]).update(
            j as int,
            old(v)@[i as int],
        ),
{
    let a = v[i];
    let b = v[j];
    v[i] = b;
    v[j] = a;
    proof {
        assert(v@ =~= old(v)@.update(i as int, old(v)@[j as int]).update(
            j as int,
            old(v)@[i as int],
        ));
    }
}

/// Exchanges positions `i` and `j` in both sequences, keeping the joint
/// multiset of pairs.
fn swap_both_at<T: Copy>(x: &mut Vec<T>, y: &mut Vec<T>, i: usize, j: usize)
    requires
        old(x)@.len() == old(y)@.len(),
        i < old(x)@.len(),
        j < old(x)@.len(),
    ensures
        final(x)@.len() == old(x)@.len(),
        final(y)@.len() == old(y)@.len(),
        final(x)@ == old(x)@.update(i as int, old(x)@[j as int]).update(
            j as int,
            old(x)@[i as int],
        ),
        final(y)@ == old(y)@.update(i as int, old(y)@[j as int]).update(
            j as int,
            old(y)@[i as int],
        ),
        zipped(final(x)@, final(y)@).to_multiset() == zipped(old(x)@, old(y)@).to_multiset(),
{
    let ghost zip0 = zipped(old(x)@, old(y)@);
    swap_at(x, i, j);
    swap_at(y, i, j);
    proof {
        assert(zipped(x@, y@) =~= zip0.update(i as int, zip0[j as int]).update(
            j as int,
            zip0[i as int],
        ));
        lemma_swap_multiset(zip0, i as int, j as int);
    }
}

/// The Fisher-Yates pair shuffle with the swap targets given: step `p`
/// exchanges pair `p` with pair `choices[p]` in both sequences, so the
/// final pair blocks are exactly `fy_apply` of the old ones. Pairs move as
/// whole blocks, jointly in `x` and `y`: the multiset of pair blocks is
/// kept, beside the joint multiset of positions. With the identity choices
/// the sequences come back unchanged.
pub fn shuffle_pairs_with<T: Copy>(x: &mut Vec<T>, y: &mut Vec<T>, choices: &Vec<usize>)
    requires
        old(x)@.len() == old(y)@.len(),
        choices@.len() == n_shuffle_steps(old(x)@.len() as int),
        forall|q: int|
            0 <= q < choices@.len() ==> (q <= #[trigger] choices@[q] as int) && ((choices@[q] as int)
                < old(x)@.len() as int / 2),
    ensures
        final(x)@.len() == old(x)@.len(),
        final(y)@.len() == old(y)@.len(),
        zipped(final(x)@, final(y)@).to_multiset() == zipped(old(x)@, old(y)@).to_multiset(),
        pair_blocks(final(x)@, final(y)@) == fy_apply(pair_blocks(old(x)@, old(y)@), choices@),
        pair_blocks(final(x)@, final(y)@).to_multiset() == pair_blocks(
            old(x)@,
            old(y)@,
        ).to_multiset(),
        old(x)@.len() % 2 == 1 ==> (final(x)@.last() == old(x)@.last() && final(y)@.last() == old(
            y,
        )@.last()),
        (forall|q: int| 0 <= q < choices@.len() ==> #[trigger] choices@[q] as int == q)
            ==> (final(x)@ == old(x)@ && final(y)@ == old(y)@),
{
    let steps = choices.len();
    let n = x.len();
    let mut p: usize = 0;
    while p < steps
        invariant
            p <= steps,
            n == old(x)@.len(),
            x@.len() == n,
            y@.len() == n,
            old(y)@.len() == n,
            steps == choices@.len(),
            steps == n_shuffle_steps(n as int),
            forall|q: int|
                0 <= q < choices@.len() ==> (q <= #[trigger] choices@[q] as int) && (
                (choices@[q] as int) < n as int / 2),
            zipped(x@, y@).to_multiset() == zipped(old(x)@, old(y)@).to_multiset(),
            fy_apply(pair_blocks(old(x)@, old(y)@), choices@) == fy_apply_from(
                pair_blocks(x@, y@),
                choices@,
                p as int,
            ),
            pair_blocks(x@, y@).to_multiset() == pair_blocks(old(x)@, old(y)@).to_multiset(),
            n % 2 == 1 ==> (x@.last() == old(x)@.last() && y@.last() == old(y)@.last()),
            (forall|q: int| 0 <= q < p ==> #[trigger] choices@[q] as int == q) ==> (x@ == old(x)@
                && y@ == old(y)@),
        decreases steps - p,
    {
        let s = choices[p];
        let a = 2 * p;
        let b = 2 * s;
        let ghost x_pre = x@;
        let ghost y_pre = y@;
        let ghost pb_pre = pair_blocks(x_pre, y_pre);
        swap_both_at(x, y, a, b);
        swap_both_at(x, y, a + 1, b + 1);
        proof {
            assert(pair_blocks(x@, y@) =~= pb_pre.update(p as int, pb_pre[s as int]).update(
                s as int,
                pb_pre[p as int],
            ));
            lemma_swap_multiset(pb_pre, p as int, s as int);
            assert(fy_apply_from(pb_pre, choices@, p as int) == fy_apply_from(
                pair_blocks(x@, y@),
                choices@,
                p as int + 1,
            ));
            if s == p {
                assert(x@ =~= x_pre);
                assert(y@ =~= y_pre);
            }
        }
        p = p + 1;
    }
    proof {
        assert(fy_apply_from(pair_blocks(x@, y@), choices@, steps as int) == pair_blocks(x@, y@));
    }
}

/// Pair-preserving Fisher-Yates shuffle: the pairs `(2p, 2p + 1)` of both
/// sequences are permuted together, by one random swap per step. Whatever
/// the randomness, the pairs move as whole blocks and the joint multiset of
/// positions of `x` and `y` is kept.
pub fn shuffle_pairs<T: Copy>(x: &mut Vec<T>, y: &mut Vec<T>)
    requires
        old(x)@.len() == old(y)@.len(),
    ensures
        final(x)@.len() == old(x)@.len(),
        final(y)@.len() == old(y)@.len(),
        zipped(final(x)@, final(y)@).to_multiset() == zipped(old(x)@, old(y)@).to_multiset(),
        pair_blocks(final(x)@, final(y)@).to_multiset() == pair_blocks(
            old(x)@,
            old(y)@,
        ).to_multiset(),
        old(x)@.len() % 2 == 1 ==> (final(x)@.last() == old(x)@.last() && final(y)@.last() == old(
            y,
        )@.last()),
{
    let n = x.len();
    let total_pairs = n / 2;
    let steps = if n < 2 {
        0
    } else {
        (n - 1) / 2
    };
    let mut choices: Vec<usize> = Vec::new();
    let mut p: usize = 0;
    while p < steps
        invariant
            p <= steps,
            steps == n_shuffle_steps(n as int),
            total_pairs == n as int / 2,
            choices@.len() == p,
            forall|q: int|
                0 <= q < p ==> (q <= #[trigger] choices@[q] as int) && ((choices@[q] as int)
                    < n as int / 2),
        decreases steps - p,
    {
        let c = crate::elgamal::rand_below(p, total_pairs);
        choices.push(c);
        p = p + 1;
    }
    shuffle_pairs_with(x, y, &choices);
}

/// Whether the pair `p` of `post` is the pair `p` of `pre`, exchanged when
/// `flip` says so and kept otherwise.
pub open spec fn pair_flipped<T>(pre: Seq<T>, post: Seq<T>, p: int, flip: bool) -> bool {
    if flip {
        post[2 * p] == pre[2 * p + 1] && post[2 * p + 1] == pre[2 * p]
    } else {
        post[2 * p] == pre[2 * p] && post[2 * p + 1] == pre[2 * p + 1]
    }
}

/// The intra-pair swap with the coin flips given: pair `p` of both
/// sequences is exchanged exactly when `flips[p]` is true; a trailing lone
/// element stays. With all flips false the sequences come back unchanged.
pub fn shuffle_bits_with<T: Copy>(x: &mut Vec<T>, y: &mut Vec<T>, flips: &Vec<bool>)
    requires
        old(x)@.len() == old(y)@.len(),
        flips@.len() == old(x)@.len() as int / 2,
    ensures
        final(x)@.len() == old(x)@.len(),
        final(y)@.len() == old(y)@.len(),
        forall|p: int|
            0 <= p < flips@.len() ==> #[trigger] pair_flipped(old(x)@, final(x)@, p, flips@[p])
                && pair_flipped(old(y)@, final(y)@, p, flips@[p]),
        old(x)@.len() % 2 == 1 ==> (final(x)@.last() == old(x)@.last() && final(y)@.last()
            == old(y)@.last()),
        zipped(final(x)@, final(y)@).to_multiset() == zipped(old(x)@, old(y)@).to_multiset(),
        (forall|p: int| 0 <= p < flips@.len() ==> !(#[trigger] flips@[p]))
            ==> (final(x)@ == old(x)@ && final(y)@ == old(y)@),
{
    let n_pairs = flips.len();
    let n = x.len();
    let mut p: usize = 0;
    while p < n_pairs
        invariant
            p <= n_pairs,
            n == old(x)@.len(),
            x@.len() == n,
            y@.len() == n,
            old(y)@.len() == n,
            n_pairs == flips@.len(),
            n_pairs == n as int / 2,
            forall|q: int|
                0 <= q < p ==> #[trigger] pair_flipped(old(x)@, x@, q, flips@[q]) && pair_flipped(
                    old(y)@,
                    y@,
                    q,
                    flips@[q],
                ),
            forall|i: int| 2 * p <= i < n ==> x@[i] == old(x)@[i] && y@[i] == old(y)@[i],
            zipped(x@, y@).to_multiset() == zipped(old(x)@, old(y)@).to_multiset(),
            (forall|q: int| 0 <= q < p ==> !(#[trigger] flips@[q])) ==> (x@ == old(x)@ && y@
                == old(y)@),
        decreases n_pairs - p,
    {
        let ghost x_pre = x@;
        let ghost y_pre = y@;
        if flips[p] {
            swap_both_at(x, y, 2 * p, 2 * p + 1);
        }
        p = p + 1;
        proof {
            assert forall|q: int|
                0 <= q < p implies #[trigger] pair_flipped(old(x)@, x@, q, flips@[q])
                && pair_flipped(old(y)@, y@, q, flips@[q]) by {
                if q < p - 1 {
                    assert(pair_flipped(old(x)@, x_pre, q, flips@[q]));
                    assert(pair_flipped(old(y)@, y_pre, q, flips@[q]));
                }
            }
        }
    }
}

/// Intra-pair coin-flip swap: for each pair, with probability one half, the
/// two positions are exchanged in both sequences. Whatever the randomness,
/// the joint multiset of positions of `x` and `y` is kept.
pub fn shuffle_bits<T: Copy>(x: &mut Vec<T>, y: &mut Vec<T>)
    requires
        old(x)@.len() == old(y)@.len(),
    ensures
        final(x)@.len() == old(x)@.len(),
        final(y)@.len() == old(y)@.len(),
        zipped(final(x)@, final(y)@).to_multiset() == zipped(old(x)@, old(y)@).to_multiset(),
{
    let n_pairs = x.len() / 2;
    let mut flips: Vec<bool> = Vec::new();
    let mut p: usize = 0;
    while p < n_pairs
        invariant
            p <= n_pairs,
            flips@.len() == p,
        decreases n_pairs - p,
    {
        flips.push(crate::elgamal::rand_flip());
        p = p + 1;
    }
    shuffle_bits_with(x, y, &flips);
}

/// Homomorphic rerandomisation: every position of both sequences is
/// replaced by a fresh ciphertext of the same plaintext, with independent
/// randomness per position and per sequence.
pub fn rerandomise(x: &mut Vec<Ciphertext>, y: &mut Vec<Ciphertext>, enc_key: &PublicKey)
    requires
        old(x)@.len() == old(y)@.len(),
    ensures
        final(x)@.len() == old(x)@.len(),
        final(y)@.len() == old(y)@.len(),
        forall|i: int|
            0 <= i < old(x)@.len() ==> bit_plaintext(*enc_key, #[trigger] final(x)@[i])
                == bit_plaintext(*enc_key, old(x)@[i]),
        forall|i: int|
            0 <= i < old(y)@.len() ==> bit_plaintext(*enc_key, #[trigger] final(y)@[i])
                == bit_plaintext(*enc_key, old(y)@[i]),
{
    let n = x.len();
    let mut i: usize = 0;
    while i < n
        invariant
            i <= n,
            n == old(x)@.len(),
            x@.len() == n,
            y@.len() == n,
            old(y)@.len() == n,
            forall|k: int|
                0 <= k < i ==> bit_plaintext(*enc_key, #[trigger] x@[k]) == bit_plaintext(
                    *enc_key,
                    old(x)@[k],
                ),
            forall|k: int|
                0 <= k < i ==> bit_plaintext(*enc_key, #[trigger] y@[k]) == bit_plaintext(
                    *enc_key,
                    old(y)@[k],
                ),
            forall|k: int| i <= k < n ==> x@[k] == old(x)@[k] && y@[k] == old(y)@[k],
        decreases n - i,
    {
        let new_x = crate::elgamal::rerandomise_ct(enc_key, &x[i]);
        x[i] = new_x;
        let new_y = crate::elgamal::rerandomise_ct(enc_key, &y[i]);
        y[i] = new_y;
        i = i + 1;
    }
}

/// Two sequences with the same joint multiset of positions have the same
/// multiset of plaintext pairs.
pub proof fn lemma_plain_pairs_permuted(
    pk: PublicKey,
    x0: Seq<Ciphertext>,
    y0: Seq<Ciphertext>,
    x1: Seq<Ciphertext>,
    y1: Seq<Ciphertext>,
)
    requires
        x0.len() == y0.len(),
        x1.len() == y1.len(),
        zipped(x1, y1).to_multiset() == zipped(x0, y0).to_multiset(),
    ensures
        plain_pairs(pk, x1, y1).to_multiset() == plain_pairs(pk, x0, y0).to_multiset(),
{
    let f = |c: (Ciphertext, Ciphertext)| (bit_plaintext(pk, c.0), bit_plaintext(pk, c.1));
    assert(plain_pairs(pk, x0, y0) =~= zipped(x0, y0).map_values(f));
    assert(plain_pairs(pk, x1, y1) =~= zipped(x1, y1).map_values(f));
    lemma_map_values_multiset(zipped(x1, y1), zipped(x0, y0), f);
}

/// Mapping a function over two sequences with equal multisets gives two
/// sequences with equal multisets.
proof fn lemma_map_values_multiset<A, B>(s1: Seq<A>, s2: Seq<A>, f: spec_fn(A) -> B)
    requires
        s1.to_multiset() == s2.to_multiset(),
    ensures
        s1.map_values(f).to_multiset() == s2.map_values(f).to_multiset(),
    decreases s1.len(),
{
    broadcast use group_to_multiset_ensures;

    if s1.len() == 0 {
        assert(s1.to_multiset().len() == 0);
        assert(s2.len() == 0);
        assert(s1.map_values(f) =~= Seq::<B>::empty());
        assert(s2.map_values(f) =~= Seq::<B>::empty());
    } else {
        let a = s1.last();
        let last = s1.len() - 1;
        assert(s1.to_multiset().count(a) > 0) by {
            assert(s1.contains(a));
        }
        assert(s2.contains(a));
        let j = choose|j: int| 0 <= j < s2.len() && s2[j] == a;
        let s1r = s1.drop_last();
        let s2r = s2.remove(j);
        assert(s1.remove(last) =~= s1r);
        assert(s1r.to_multiset() == s1.to_multiset().remove(a));
        assert(s2r.to_multiset() == s2.to_multiset().remove(a));
        lemma_map_values_multiset(s1r, s2r, f);
        assert(s1.map_values(f).remove(last) =~= s1r.map_values(f));
        assert(s2.map_values(f).remove(j) =~= s2r.map_values(f));
        assert(s1.map_values(f).to_multiset().remove(f(a)) == s1r.map_values(f).to_multiset()) by {
            assert(s1.map_values(f)[last] == f(a));
        }
        assert(s2.map_values(f).to_multiset().remove(f(a)) == s2r.map_values(f).to_multiset()) by {
            assert(s2.map_values(f)[j] == f(a));
        }
        assert(s1.map_values(f).to_multiset().count(f(a)) > 0) by {
            assert(s1.map_values(f)[last] == f(a));
            assert(s1.map_values(f).contains(f(a)));
        }
        assert(s2.map_values(f).to_multiset().count(f(a)) > 0) by {
            assert(s2.map_values(f)[j] == f(a));
            assert(s2.map_values(f).contains(f(a)));
        }
        let m1 = s1.map_values(f).to_multiset();
        let m2 = s2.map_values(f).to_multiset();
        assert forall|b: B| m1.count(b) == m2.count(b) by {
            broadcast use vstd::multiset::group_multiset_axioms;

            assert(m1.remove(f(a)).count(b) == m2.remove(f(a)).count(b));
            if b == f(a) {
                assert(m1.remove(b).count(b) == m1.count(b) - 1);
                assert(m2.remove(b).count(b) == m2.count(b) - 1);
            } else {
                assert(m1.remove(f(a)).count(b) == m1.count(b));
                assert(m2.remove(f(a)).count(b) == m2.count(b));
            }
        }
        assert(m1 =~= m2) by {
            broadcast use vstd::multiset::group_multiset_axioms;

        }
    }
}

/// The whole remix: pair shuffle, intra-pair swap, rerandomisation. The
/// multiset of plaintext pairs `(x[i], y[i])` under `enc_key` is preserved,
/// whatever randomness the three stages draw.
pub fn remix(x: &mut Vec<Ciphertext>, y: &mut Vec<Ciphertext>, enc_key: &PublicKey)
    requires
        old(x)@.len() == old(y)@.len(),
    ensures
        final(x)@.len() == old(x)@.len(),
        final(y)@.len() == old(y)@.len(),
        plain_pairs(*enc_key, final(x)@, final(y)@).to_multiset() == plain_pairs(
            *enc_key,
            old(x)@,
            old(y)@,
        ).to_multiset(),
{
    let ghost x0 = x@;
    let ghost y0 = y@;
    shuffle_pairs(x, y);
    shuffle_bits(x, y);
    let ghost x2 = x@;
    let ghost y2 = y@;
    rerandomise(x, y, enc_key);
    proof {
        lemma_plain_pairs_permuted(*enc_key, x0, y0, x2, y2);
        assert(plain_pairs(*enc_key, x@, y@) =~= plain_pairs(*enc_key, x2, y2));
    }
}

/// Pair preservation: when the multiset of plaintext pairs is kept, every
/// plaintext pair of the input appears at some position of the output.
pub proof fn lemma_pair_preservation(
    pk: PublicKey,
    x0: Seq<Ciphertext>,
    y0: Seq<Ciphertext>,
    x1: Seq<Ciphertext>,
    y1: Seq<Ciphertext>,
    i: int,
)
    requires
        x0.len() == y0.len(),
        x1.len() == y1.len(),
        plain_pairs(pk, x1, y1).to_multiset() == plain_pairs(pk, x0, y0).to_multiset(),
        0 <= i < x0.len(),
    ensures
        exists|j: int|
            0 <= j < x1.len() && bit_plaintext(pk, x1[j]) == bit_plaintext(pk, x0[i])
                && bit_plaintext(pk, y1[j]) == bit_plaintext(pk, y0[i]),
{
    broadcast use group_to_multiset_ensures;

    let e = (bit_plaintext(pk, x0[i]), bit_plaintext(pk, y0[i]));
    assert(plain_pairs(pk, x0, y0)[i] == e);
    assert(plain_pairs(pk, x0, y0).contains(e));
    assert(plain_pairs(pk, x1, y1).to_multiset().count(e) > 0);
    assert(plain_pairs(pk, x1, y1).contains(e));
    let j = choose|j: int|
        0 <= j < plain_pairs(pk, x1, y1).len() && plain_pairs(pk, x1, y1)[j] == e;
    assert(bit_plaintext(pk, x1[j]) == e.0 && bit_plaintext(pk, y1[j]) == e.1);
    assert(0 <= j < x1.len() && bit_plaintext(pk, x1[j]) == bit_plaintext(pk, x0[i])
        && bit_plaintext(pk, y1[j]) == bit_plaintext(pk, y0[i]));
}

} // verus!
