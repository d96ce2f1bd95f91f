//! Bit-vector helpers: the two-bit unary encoding used for iris codes
//! (`1 -> 10`, `0 -> 01`), its decoder, and the Hamming distance.

use vstd::prelude::*;

verus! {

/// Number of positions at which `x` and `y` differ, over their common prefix.
pub open spec fn hamming_spec(x: Seq<bool>, y: Seq<bool>, n: int) -> int
    decreases n,
{
    if n <= 0 {
        0
    } else {
        hamming_spec(x, y, n - 1) + if x[n - 1] != y[n - 1] {
            1int
        } else {
            0int
        }
    }
}

/// The two bits at pair `i` differ, as every encoded pair does.
pub open spec fn pair_distinct(bits: Seq<bool>, i: int) -> bool {
    bits[2 * i] != bits[2 * i + 1]
}

/// Encodes each bit as a two-bit pair: `1 -> 10`, `0 -> 01`.
pub fn encode_bits(bits: &Vec<bool>) -> (r: Vec<bool>)
    requires
        bits@.len() <= usize::MAX / 2,
    ensures
        r@.len() == 2 * bits@.len(),
        forall|i: int| 0 <= i < bits@.len() ==> r@[2 * i] == #[trigger] bits@[i],
        forall|i: int| 0 <= i < bits@.len() ==> r@[2 * i + 1] != #[trigger] bits@[i],
{
    let mut r: Vec<bool> = Vec::new();
    let mut k: usize = 0;
    while k < bits.len()
        invariant
            k <= bits@.len(),
            bits@.len() <= usize::MAX / 2,
            r@.len() == 2 * k,
            forall|i: int| 0 <= i < k ==> r@[2 * i] == #[trigger] bits@[i],
            forall|i: int| 0 <= i < k ==> r@[2 * i + 1] != #[trigger] bits@[i],
        decreases bits@.len() - k,
    {
        let b = bits[k];
        r.push(b);
        r.push(!b);
        k = k + 1;
    }
    r
}

/// Decodes pairs of bits back into bits: `10 -> 1`, `01 -> 0`. Any trailing
/// lone bit is ignored. Returns `None` when some pair holds two equal bits,
/// which no encoding produces.
pub fn decode_bits(bits: &Vec<bool>) -> (r: Option<Vec<bool>>)
    ensures
        (r is Some) <==> (forall|i: int| 0 <= i < bits@.len() / 2 ==> pair_distinct(bits@, i)),
        r is Some ==> r.unwrap()@.len() == bits@.len() / 2,
        r is Some ==> forall|i: int|
            0 <= i < bits@.len() / 2 ==> #[trigger] r.unwrap()@[i] == bits@[2 * i],
{
    let n_pairs = bits.len() / 2;
    let mut r: Vec<bool> = Vec::new();
    let mut k: usize = 0;
    while k < n_pairs
        invariant
            k <= n_pairs,
            n_pairs == bits@.len() / 2,
            bits@.len() <= usize::MAX,
            r@.len() == k,
            forall|i: int| 0 <= i < k ==> pair_distinct(bits@, i),
            forall|i: int| 0 <= i < k ==> #[trigger] r@[i] == bits@[2 * i],
        decreases n_pairs - k,
    {
        let first = bits[2 * k];
        let second = bits[2 * k + 1];
        if first == second {
            proof {
                assert(!pair_distinct(bits@, k as int));
            }
            return None;
        }
        proof {
            assert(pair_distinct(bits@, k as int));
        }
        r.push(first);
        k = k + 1;
    }
    Some(r)
}

/// Round trip: decoding an encoding gives the bits back.
pub proof fn lemma_encode_decode_round_trip(bits: Seq<bool>, enc: Seq<bool>, dec: Seq<bool>)
    requires
        enc.len() == 2 * bits.len(),
        forall|i: int| 0 <= i < bits.len() ==> enc[2 * i] == #[trigger] bits[i],
        dec.len() == enc.len() / 2,
        forall|i: int| 0 <= i < enc.len() / 2 ==> #[trigger] dec[i] == enc[2 * i],
    ensures
        dec =~= bits,
{
}

/// Hamming distance between two equal-length bit vectors: the number of
/// positions at which they differ.
pub fn hamming_distance(x_code: Vec<bool>, y_code: Vec<bool>) -> (r: usize)
    requires
        x_code@.len() == y_code@.len(),
    ensures
        r == hamming_spec(x_code@, y_code@, x_code@.len() as int),
{
    let mut count: usize = 0;
    let mut k: usize = 0;
    while k < x_code.len()
        invariant
            k <= x_code@.len(),
            x_code@.len() == y_code@.len(),
            count == hamming_spec(x_code@, y_code@, k as int),
            count <= k,
        decreases x_code@.len() - k,
    {
        if x_code[k] != y_code[k] {
            count = count + 1;
        }
        k = k + 1;
    }
    count
}

} // verus!
