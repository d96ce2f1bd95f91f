//! A compact cipher representation that packs four two-bit pairs into each
//! byte, with pair `0` occupying the two most significant bits of byte `0`.
//!
//! The swap operation works on bit positions counted from the least
//! significant bit, mirroring the layout used by the remix experiments.

use vstd::prelude::*;

verus! {

/// Value of the two-bit pair `pair_idx`, reading pairs from the most
/// significant bits of each byte downwards.
pub open spec fn nth_pair(bytes: Seq<u8>, pair_idx: int) -> u8 {
    (bytes[pair_idx / 4] >> pair_shift(pair_idx)) & 3
}

/// Shift that brings pair `pair_idx` down to the low two bits of its byte.
pub open spec fn pair_shift(pair_idx: int) -> u8 {
    (6 - 2 * (pair_idx % 4)) as u8
}

/// Value of the two-bit pair `pair_idx`, reading pairs from the least
/// significant bits of each byte upwards.
pub open spec fn nth_pair_lsb(bytes: Seq<u8>, pair_idx: int) -> u8 {
    (bytes[pair_idx / 4] >> ((2 * (pair_idx % 4)) as u8)) & 3
}

/// The two bits of a pair value, exchanged.
pub open spec fn swapped_bits(v: u8) -> u8 {
    ((v & 1) << 1) | ((v >> 1) & 1)
}

/// A cipher of `N` bytes holding `4 * N` two-bit pairs.
pub struct Cipher<const N: usize>([u8; N]);

impl<const N: usize> View for Cipher<N> {
    type V = Seq<u8>;

    closed spec fn view(&self) -> Seq<u8> {
        self.0@
    }
}

impl<const N: usize> Cipher<N> {
    pub fn new(bits: [u8; N]) -> (r: Self)
        ensures
            r@ == bits@,
    {
        Self(bits)
    }

    /// Number of bytes backing the cipher.
    pub fn len(&self) -> (r: usize)
        ensures
            r == N,
    {
        N
    }

    pub fn is_empty(&self) -> (r: bool)
        ensures
            r == (N == 0),
    {
        N == 0
    }

    /// The view always holds exactly `N` bytes, whatever the value's
    /// history.
    pub proof fn view_len(&self)
        ensures
            self@.len() == N,
    {
    }

    /// The backing bytes.
    pub fn as_bytes(&self) -> (r: &[u8; N])
        ensures
            r@ == self@,
    {
        &self.0
    }

    /// Reads the two-bit pair at `pair_idx` (most-significant-first layout).
    pub fn bit_pair(&self, pair_idx: usize) -> (r: u8)
        requires
            pair_idx < 4 * N,
        ensures
            r == nth_pair(self@, pair_idx as int),
    {
        let (byte_idx, bit_idx) = self.bit_pair_indices(pair_idx);
        self.bit_pair_from_indices(byte_idx, bit_idx)
    }

    /// Overwrites the two-bit pair at `pair_idx` with the low two bits of
    /// `value`; every other pair keeps its value.
    pub fn set_bit_pair(&mut self, pair_idx: usize, value: u8)
        requires
            pair_idx < 4 * N,
        ensures
            final(self)@.len() == N,
            nth_pair(final(self)@, pair_idx as int) == value & 3,
            forall|p: int|
                0 <= p < 4 * N && p != pair_idx ==> nth_pair(final(self)@, p) == nth_pair(
                    old(self)@,
                    p,
                ),
            forall|b: int|
                0 <= b < N && b != pair_idx / 4 ==> final(self)@[b] == old(self)@[b],
    {
        let (byte_idx, bit_idx) = self.bit_pair_indices(pair_idx);
        self.set_bit_pair_from_indices(byte_idx, bit_idx, value);
        proof {
            lemma_pairs_of_other_bytes_unchanged(old(self)@, self@, pair_idx as int);
        }
    }

    /// Exchanges the pairs at `x_pair_idx` and `y_pair_idx`; every other pair
    /// keeps its value.
    pub fn swap_pair(&mut self, x_pair_idx: usize, y_pair_idx: usize)
        requires
            x_pair_idx < 4 * N,
            y_pair_idx < 4 * N,
        ensures
            final(self)@.len() == N,
            nth_pair(final(self)@, x_pair_idx as int) == nth_pair(old(self)@, y_pair_idx as int),
            nth_pair(final(self)@, y_pair_idx as int) == nth_pair(old(self)@, x_pair_idx as int),
            forall|p: int|
                0 <= p < 4 * N && p != x_pair_idx && p != y_pair_idx ==> nth_pair(
                    final(self)@,
                    p,
                ) == nth_pair(old(self)@, p),
    {
        let (x_byte, x_bit) = self.bit_pair_indices(x_pair_idx);
        let (y_byte, y_bit) = self.bit_pair_indices(y_pair_idx);

        let x_pair = self.bit_pair_from_indices(x_byte, x_bit);
        let y_pair = self.bit_pair_from_indices(y_byte, y_bit);

        let ghost mid0 = self@;
        self.set_bit_pair_from_indices(x_byte, x_bit, y_pair);
        proof {
            lemma_pairs_of_other_bytes_unchanged(mid0, self@, x_pair_idx as int);
        }
        let ghost mid = self@;
        self.set_bit_pair_from_indices(y_byte, y_bit, x_pair);
        proof {
            lemma_pairs_of_other_bytes_unchanged(mid, self@, y_pair_idx as int);
            let bx = mid0[x_pair_idx as int / 4];
            let by = mid0[y_pair_idx as int / 4];
            let shx = (6 - 2 * (x_pair_idx as int % 4)) as u8;
            let shy = (6 - 2 * (y_pair_idx as int % 4)) as u8;
            assert(x_pair & 3 == x_pair && y_pair & 3 == y_pair) by (bit_vector)
                requires
                    x_pair == (bx >> shx) & 3 && y_pair == (by >> shy) & 3,
            ;
        }
    }

    /// Exchanges the two bits inside the pair at `pair_idx`, in the
    /// least-significant-first pair layout; every other pair of that layout
    /// keeps its value.
    pub fn swap_bits_on_pair(&mut self, pair_idx: usize)
        requires
            pair_idx < 4 * N,
        ensures
            final(self)@.len() == N,
            nth_pair_lsb(final(self)@, pair_idx as int) == swapped_bits(
                nth_pair_lsb(old(self)@, pair_idx as int),
            ),
            forall|p: int|
                0 <= p < 4 * N && p != pair_idx ==> nth_pair_lsb(final(self)@, p) == nth_pair_lsb(
                    old(self)@,
                    p,
                ),
            forall|b: int|
                0 <= b < N && b != pair_idx / 4 ==> final(self)@[b] == old(self)@[b],
    {
        let (byte_idx, bit_idx) = self.bit_pair_indices(pair_idx);
        let byte = self.0[byte_idx];
        let bi = bit_idx as u8;

        let bit1 = (byte >> bi) & 1;
        let bit2 = (byte >> (bi + 1)) & 1;

        let x = bit1 ^ bit2;
        let mask = (x << bi) | (x << (bi + 1));

        self.0[byte_idx] = byte ^ mask;
        proof {
            let p = pair_idx as int;
            assert((byte ^ mask) >> bi & 3 == swapped_bits(byte >> bi & 3) && (forall|t: u8|
                t < 8 && t != bi && t % 2 == 0 ==> (byte ^ mask) >> t & 3 == byte >> t & 3))
                by (bit_vector)
                requires
                    bi <= 6 && bi % 2 == 0 && mask == ((((byte >> bi) & 1) ^ ((byte >> (bi + 1))
                        & 1)) << bi) | ((((byte >> bi) & 1) ^ ((byte >> (bi + 1)) & 1)) << (bi
                        + 1)),
            ;
            assert forall|q: int|
                0 <= q < 4 * N && q != p implies nth_pair_lsb(self@, q) == nth_pair_lsb(
                old(self)@,
                q,
            ) by {
                if q / 4 == p / 4 {
                    assert(q % 4 != p % 4) by {
                        vstd::arithmetic::div_mod::lemma_fundamental_div_mod(q, 4);
                        vstd::arithmetic::div_mod::lemma_fundamental_div_mod(p, 4);
                    }
                    let t = (2 * (q % 4)) as u8;
                    assert(t < 8 && t % 2 == 0 && t != bi);
                }
            }
        }
    }

    /// Byte index and least-significant bit index of pair `pair_idx`.
    fn bit_pair_indices(&self, pair_idx: usize) -> (r: (usize, usize))
        requires
            pair_idx < 4 * N,
        ensures
            r.0 == pair_idx as int / 4,
            r.1 == 2 * (pair_idx as int % 4),
            r.0 < N,
            r.1 <= 6,
    {
        (pair_idx / 4, (pair_idx % 4) * 2)
    }

    fn bit_pair_from_indices(&self, byte_idx: usize, bit_idx: usize) -> (r: u8)
        requires
            byte_idx < N,
            bit_idx <= 6,
            bit_idx % 2 == 0,
        ensures
            r == (self@[byte_idx as int] >> ((6 - bit_idx) as u8)) & 3,
    {
        (self.0[byte_idx] >> (6 - bit_idx)) & 3
    }

    fn set_bit_pair_from_indices(&mut self, byte_idx: usize, bit_idx: usize, value: u8)
        requires
            byte_idx < N,
            bit_idx <= 6,
            bit_idx % 2 == 0,
        ensures
            final(self)@.len() == N,
            (final(self)@[byte_idx as int] >> ((6 - bit_idx) as u8)) & 3 == value & 3,
            forall|sh: u8|
                sh < 8 && sh % 2 == 0 && sh != (6 - bit_idx) as u8 ==> (final(self)@[byte_idx as int]
                    >> sh) & 3 == (old(self)@[byte_idx as int] >> sh) & 3,
            forall|b: int| 0 <= b < N && b != byte_idx ==> final(self)@[b] == old(self)@[b],
    {
        let byte = self.0[byte_idx];
        let sh0 = (6 - bit_idx) as u8;
        let mask = !(0b11u8 << sh0);
        let cleared_byte = byte & mask;
        let new_byte = cleared_byte | ((value & 0b11) << sh0);
        self.0[byte_idx] = new_byte;
        proof {
            assert(new_byte >> sh0 & 3 == value & 3 && (forall|sh: u8|
                sh < 8 && sh % 2 == 0 && sh != sh0 ==> new_byte >> sh & 3 == byte >> sh & 3))
                by (bit_vector)
                requires
                    sh0 <= 6 && sh0 % 2 == 0 && new_byte == (byte & !(0b11u8 << sh0)) | ((value
                        & 0b11) << sh0),
            ;
        }
    }
}

/// The character a hexadecimal digit renders as.
pub open spec fn hex_str(v: u8) -> Seq<char> {
    if v == 0 {
        "0"@
    } else if v == 1 {
        "1"@
    } else if v == 2 {
        "2"@
    } else if v == 3 {
        "3"@
    } else if v == 4 {
        "4"@
    } else if v == 5 {
        "5"@
    } else if v == 6 {
        "6"@
    } else if v == 7 {
        "7"@
    } else if v == 8 {
        "8"@
    } else if v == 9 {
        "9"@
    } else if v == 10 {
        "A"@
    } else if v == 11 {
        "B"@
    } else if v == 12 {
        "C"@
    } else if v == 13 {
        "D"@
    } else if v == 14 {
        "E"@
    } else {
        "F"@
    }
}

/// The hexadecimal rendering of a byte sequence: two digits per byte, high
/// nibble first.
pub open spec fn hex_of_bytes(bytes: Seq<u8>) -> Seq<char>
    decreases bytes.len(),
{
    if bytes.len() == 0 {
        Seq::empty()
    } else {
        hex_of_bytes(bytes.drop_last()) + hex_str(bytes.last() >> 4) + hex_str(bytes.last() & 15)
    }
}

/// The binary rendering of a byte sequence: eight digits per byte, most
/// significant bit first.
pub open spec fn binary_of_bytes(bytes: Seq<u8>) -> Seq<char>
    decreases bytes.len(),
{
    if bytes.len() == 0 {
        Seq::empty()
    } else {
        binary_of_bytes(bytes.drop_last()) + binary_of_byte(bytes.last())
    }
}

/// The eight binary digits of `b`, most significant first.
pub open spec fn binary_of_byte(b: u8) -> Seq<char> {
    Seq::new(
        8,
        |i: int|
            if (b >> ((7 - i) as u8)) & 1 == 1 {
                '1'
            } else {
                '0'
            },
    )
}

fn hex_digit_str(v: u8) -> (r: &'static str)
    requires
        v < 16,
    ensures
        r@ == hex_str(v),
{
    match v {
        0 => "0",
        1 => "1",
        2 => "2",
        3 => "3",
        4 => "4",
        5 => "5",
        6 => "6",
        7 => "7",
        8 => "8",
        9 => "9",
        10 => "A",
        11 => "B",
        12 => "C",
        13 => "D",
        14 => "E",
        _ => "F",
    }
}

fn bit_str(v: u8) -> (r: &'static str)
    ensures
        r@.len() == 1,
        r@[0] == (if v == 1 {
            '1'
        } else {
            '0'
        }),
{
    proof {
        reveal_strlit("0");
        reveal_strlit("1");
    }
    if v == 1 {
        "1"
    } else {
        "0"
    }
}

/// Appends the eight binary digits of `b`, most significant first.
fn append_binary_byte(s: &mut String, b: u8)
    ensures
        final(s)@ == old(s)@ + binary_of_byte(b),
{
    s.append(bit_str((b >> 7) & 1));
    s.append(bit_str((b >> 6) & 1));
    s.append(bit_str((b >> 5) & 1));
    s.append(bit_str((b >> 4) & 1));
    s.append(bit_str((b >> 3) & 1));
    s.append(bit_str((b >> 2) & 1));
    s.append(bit_str((b >> 1) & 1));
    s.append(bit_str(b & 1));
    proof {
        assert(((b >> 1) & 1) == ((b >> ((7 - 6) as u8)) & 1) && ((b >> 2) & 1) == ((b >> ((7
            - 5) as u8)) & 1) && ((b >> 3) & 1) == ((b >> ((7 - 4) as u8)) & 1) && ((b >> 4) & 1)
            == ((b >> ((7 - 3) as u8)) & 1) && ((b >> 5) & 1) == ((b >> ((7 - 2) as u8)) & 1) && ((b
            >> 6) & 1) == ((b >> ((7 - 1) as u8)) & 1) && ((b >> 7) & 1) == ((b >> ((7
            - 0) as u8)) & 1) && (b & 1) == ((b >> ((7 - 7) as u8)) & 1)) by (bit_vector);
        assert(s@ =~= old(s)@ + binary_of_byte(b));
    }
}

impl<const N: usize> Cipher<N> {
    /// Renders the backing bytes in binary, eight digits per byte.
    pub fn to_binary_string(&self) -> (r: String)
        ensures
            r@ == binary_of_bytes(self@),
    {
        let mut s = String::new();
        let mut i: usize = 0;
        proof {
            assert(self@.take(0) =~= Seq::<u8>::empty());
        }
        while i < N
            invariant
                i <= N,
                self@.len() == N,
                s@ == binary_of_bytes(self@.take(i as int)),
            decreases N - i,
        {
            append_binary_byte(&mut s, self.0[i]);
            i = i + 1;
            proof {
                let t = self@.take(i as int);
                assert(t.drop_last() =~= self@.take(i as int - 1));
                assert(t.last() == self@[i as int - 1]);
            }
        }
        proof {
            assert(self@.take(N as int) =~= self@);
        }
        s
    }

    /// Renders the backing bytes in hexadecimal, two digits per byte.
    pub fn to_hex_string(&self) -> (r: String)
        ensures
            r@ == hex_of_bytes(self@),
    {
        let mut s = String::new();
        let mut i: usize = 0;
        proof {
            assert(self@.take(0) =~= Seq::<u8>::empty());
        }
        while i < N
            invariant
                i <= N,
                self@.len() == N,
                s@ == hex_of_bytes(self@.take(i as int)),
            decreases N - i,
        {
            let b = self.0[i];
            let hi = b >> 4;
            let lo = b & 15;
            proof {
                assert(hi < 16 && lo < 16) by (bit_vector)
                    requires
                        hi == b >> 4 && lo == b & 15,
                ;
            }
            s.append(hex_digit_str(hi));
            s.append(hex_digit_str(lo));
            i = i + 1;
            proof {
                let t = self@.take(i as int);
                assert(t.drop_last() =~= self@.take(i as int - 1));
                assert(t.last() == self@[i as int - 1]);
            }
        }
        proof {
            assert(self@.take(N as int) =~= self@);
        }
        s
    }
}

/// A write confined to byte `pair_idx / 4` leaves every pair of every other
/// byte unchanged, in both pair layouts.
proof fn lemma_pairs_of_other_bytes_unchanged(pre: Seq<u8>, post: Seq<u8>, pair_idx: int)
    requires
        pre.len() == post.len(),
        forall|b: int| 0 <= b < pre.len() && b != pair_idx / 4 ==> post[b] == pre[b],
    ensures
        forall|p: int|
            0 <= p < 4 * pre.len() && p / 4 != pair_idx / 4 ==> nth_pair(post, p) == nth_pair(
                pre,
                p,
            ),
        forall|p: int|
            0 <= p < 4 * pre.len() && p / 4 != pair_idx / 4 ==> nth_pair_lsb(post, p)
                == nth_pair_lsb(pre, p),
{
}

} // verus!
