//! Quantization settings, and the random projection used by QJL residual
//! correction.
use rand::rngs::StdRng;
use vstd::prelude::*;

verus! {

/// Scalar quantization types.
#[derive(Debug, Clone, Copy, PartialEq, Eq, Structural)]
pub enum ScalarType {
    /// Each `f32` component maps to a `u8` (0..255): 4× compression.
    Int8,
}

/// PolarQuant configuration.
#[derive(Debug, Clone, Copy, PartialEq, Eq, Structural)]
pub struct PolarQuantConfig {
    /// Bits per quantized angle (1–8); 8 bits give 256 angle levels.
    pub bits_per_angle: u8,
}

/// Default bits per angle for PolarQuant.
pub fn default_bits_per_angle() -> (b: u8)
    ensures
        b == 8,
{
    8
}

impl Default for PolarQuantConfig {
    fn default() -> (c: Self)
        ensures
            c.bits_per_angle == 8,
    {
        PolarQuantConfig { bits_per_angle: default_bits_per_angle() }
    }
}

/// PolarQuant runtime parameters (copied from the configuration).
#[derive(Debug, Clone, Copy)]
pub struct PolarQuantParams {
    /// Bits per angle.
    pub bits_per_angle: u8,
}

/// Default number of QJL projection dimensions.
pub fn default_qjl_m() -> (m: usize)
    ensures
        m == 64,
{
    64
}

/// Default seed of the QJL projection matrix.
pub fn default_qjl_seed() -> (s: u64)
    ensures
        s == 42,
{
    42
}

/// The first `n` fair coin flips (`true` = heads) of a `StdRng` seeded
/// with `seed` through `SeedableRng::seed_from_u64`, as `Rng::gen_ratio(1, 2)`
/// draws them. `StdRng` is deterministic: the same seed gives the same
/// flips.
pub uninterp spec fn seeded_coin_flips(seed: u64, n: nat) -> Seq<bool>;

/// Calls `StdRng::seed_from_u64(seed)` and then `Rng::gen_ratio(1, 2)` on
/// that generator `n` times (the same Bernoulli draw as `gen_bool(0.5)`).
/// The flips are named, not described: `seeded_coin_flips(seed, n)`.
#[verifier::external_body]
fn seeded_coins(seed: u64, n: usize) -> (coins: Vec<bool>)
    ensures
        coins@ == seeded_coin_flips(seed, n as nat),
        coins@.len() == n,
{
    let mut rng = <StdRng as rand::SeedableRng>::seed_from_u64(seed);
    (0..n).map(|_| rand::Rng::gen_ratio(&mut rng, 1, 2)).collect()
}

/// The `m × dim` matrix whose entry `(i, j)` is +1 where coin `i · dim + j`
/// is heads and -1 where it is tails (row-major).
pub open spec fn sign_matrix(dim: nat, m: nat, coins: Seq<bool>) -> Seq<Seq<i8>> {
    Seq::new(
        m,
        |i: int|
            Seq::new(
                dim,
                |j: int|
                    if coins[i * dim + j] {
                        1i8
                    } else {
                        -1i8
                    },
            ),
    )
}

/// Each entry of a sign matrix is taken from its own coin: entry `(i, j)`
/// of the `m × dim` matrix is +1 exactly when coin `i · dim + j` is heads,
/// and -1 otherwise, so row `i` reads coins `i · dim .. i · dim + dim`.
pub proof fn law_sign_entry_is_its_coin(dim: nat, m: nat, coins: Seq<bool>)
    ensures
        sign_matrix(dim, m, coins).len() == m,
        forall|i: int| 0 <= i < m ==> (#[trigger] sign_matrix(dim, m, coins)[i]).len() == dim,
        forall|i: int, j: int|
            0 <= i < m && 0 <= j < dim ==> (#[trigger] sign_matrix(dim, m, coins)[i][j] == 1i8
                <==> coins[i * dim + j]) && (sign_matrix(dim, m, coins)[i][j] == 1i8
                || sign_matrix(dim, m, coins)[i][j] == -1i8),
{
}

/// Parameters of QJL (quantized Johnson–Lindenstrauss) residual correction:
/// a random ±1 projection matrix `R` of `m` rows and `dim` columns, drawn
/// from a generator seeded with `seed` so that the same seed always gives
/// the same matrix. Only `m`, `dim` and `seed` are persisted.
#[derive(Debug, Clone)]
pub struct QjlParams {
    /// Projection dimensions (m ≪ d).
    pub m: usize,
    /// Dimension of the vectors being projected.
    pub dim: usize,
    /// Seed of the projection matrix.
    pub seed: u64,
    projection_matrix: Vec<Vec<i8>>,
}

impl QjlParams {
    /// (m, dim, seed).
    pub closed spec fn params(&self) -> (usize, usize, u64) {
        (self.m, self.dim, self.seed)
    }

    /// The projection matrix, row by row.
    pub closed spec fn matrix(&self) -> Seq<Seq<i8>> {
        self.projection_matrix@.map_values(|r: Vec<i8>| r@)
    }

    /// Creates the parameters: the `m × dim` matrix takes, row by row,
    /// the fair coin flips of a generator seeded with `seed`, heads as +1
    /// and tails as -1. The same `(dim, m, seed)` always gives the same
    /// matrix, which is why only these three are persisted.
    pub fn new(dim: usize, m: usize, seed: u64) -> (q: Self)
        requires
            m * dim <= usize::MAX,
        ensures
            q.params() == (m, dim, seed),
            q.matrix() == sign_matrix(dim as nat, m as nat, seeded_coin_flips(seed, (m * dim) as nat)),
            q.matrix().len() == m,
            forall|i: int| 0 <= i < m ==> (#[trigger] q.matrix()[i]).len() == dim,
            forall|i: int, j: int|
                0 <= i < m && 0 <= j < dim ==> (#[trigger] q.matrix()[i][j] == 1i8 <==> seeded_coin_flips(
                    seed,
                    (m * dim) as nat,
                )[i * dim + j]) && (q.matrix()[i][j] == 1i8 || q.matrix()[i][j] == -1i8),
    {
        let coins = seeded_coins(seed, m * dim);
        let ghost target = sign_matrix(dim as nat, m as nat, coins@);
        let mut projection_matrix: Vec<Vec<i8>> = Vec::new();
        let mut i: usize = 0;
        let mut k: usize = 0;
        while i < m
            invariant
                i <= m,
                m * dim <= usize::MAX,
                coins@.len() == m * dim,
                k == i * dim,
                target == sign_matrix(dim as nat, m as nat, coins@),
                projection_matrix@.len() == i,
                forall|a: int| 0 <= a < i ==> (#[trigger] projection_matrix@[a])@ == target[a],
            decreases m - i,
        {
            proof {
                assert(k + dim <= m * dim) by (nonlinear_arith)
                    requires
                        k == i * dim,
                        i < m,
                ;
            }
            let mut row: Vec<i8> = Vec::new();
            let mut j: usize = 0;
            while j < dim
                invariant
                    j <= dim,
                    i < m,
                    k == i * dim,
                    k + dim <= m * dim,
                    m * dim <= usize::MAX,
                    coins@.len() == m * dim,
                    target == sign_matrix(dim as nat, m as nat, coins@),
                    row@.len() == j,
                    forall|b: int| 0 <= b < j ==> (#[trigger] row@[b]) == target[i as int][b],
                decreases dim - j,
            {
                if coins[k + j] {
                    row.push(1i8);
                } else {
                    row.push(-1i8);
                }
                proof {
                    assert(target[i as int][j as int] == (if coins@[i * dim + j] {
                        1i8
                    } else {
                        -1i8
                    }));
                }
                j += 1;
            }
            proof {
                assert(row@ =~= target[i as int]);
            }
            projection_matrix.push(row);
            i += 1;
            k += dim;
            proof {
                assert(k == i * dim) by (nonlinear_arith)
                    requires
                        k == (i - 1) * dim + dim,
                ;
            }
        }
        let q = QjlParams { m, dim, seed, projection_matrix };
        proof {
            assert(q.matrix() =~= target);
            law_sign_entry_is_its_coin(dim as nat, m as nat, coins@);
        }
        q
    }

    /// The projection matrix.
    pub fn projection_matrix(&self) -> (r: &Vec<Vec<i8>>)
        ensures
            r@.map_values(|row: Vec<i8>| row@) == self.matrix(),
    {
        &self.projection_matrix
    }
}

// ─── Sign bitsets ───────────────────────────────────────────────────

/// Number of 64-bit words that hold `n` bits.
pub open spec fn word_count(n: nat) -> nat {
    (n + 63) / 64
}

/// Bit `i` of a bitset held in 64-bit words (bit `i % 64` of word `i / 64`).
pub open spec fn bit_set(words: Seq<u64>, i: nat) -> bool {
    (words[(i / 64) as int] >> ((i % 64) as u64)) & 1u64 == 1u64
}

proof fn lemma_or_bit(w: u64, k: u64, j: u64)
    requires
        k < 64,
        j < 64,
    ensures
        ((w | (1u64 << k)) >> j) & 1u64 == (if j == k {
            1u64
        } else {
            (w >> j) & 1u64
        }),
{
    assert(((w | (1u64 << k)) >> j) & 1u64 == (if j == k {
        1u64
    } else {
        (w >> j) & 1u64
    })) by (bit_vector)
        requires
            k < 64,
            j < 64,
    ;
}

proof fn lemma_zero_bits(j: u64)
    requires
        j < 64,
    ensures
        (0u64 >> j) & 1u64 == 0u64,
{
    assert((0u64 >> j) & 1u64 == 0u64) by (bit_vector);
}

proof fn lemma_and_mask(w: u64, k: u64)
    requires
        k < 64,
    ensures
        (w & (1u64 << k) != 0u64) == ((w >> k) & 1u64 == 1u64),
{
    assert((w & (1u64 << k) != 0u64) == ((w >> k) & 1u64 == 1u64)) by (bit_vector)
        requires
            k < 64,
    ;
}

/// Packs signs into a bitset: bit `i` is set exactly when `positive[i]`
/// holds; the bits past the last sign are clear.
pub fn pack_signs(positive: &Vec<bool>) -> (words: Vec<u64>)
    ensures
        words@.len() == word_count(positive@.len() as nat),
        forall|i: nat| i < 64 * words@.len() ==> #[trigger] bit_set(words@, i) == (i < positive@.len()
            && positive@[i as int]),
{
    let n = positive.len();
    let count = n / 64 + if n % 64 != 0 {
        1
    } else {
        0
    };
    let mut words: Vec<u64> = Vec::new();
    while words.len() < count
        invariant
            words@.len() <= count,
            forall|w: int| 0 <= w < words@.len() ==> words@[w] == 0u64,
        decreases count - words@.len(),
    {
        words.push(0u64);
    }
    proof {
        assert forall|i: nat| i < 64 * words@.len() implies !#[trigger] bit_set(words@, i) by {
            assert(words@[(i / 64) as int] == 0u64);
            lemma_zero_bits((i % 64) as u64);
        }
    }
    let mut i: usize = 0;
    while i < n
        invariant
            i <= n,
            n == positive@.len(),
            words@.len() == count,
            count * 64 >= n,
            forall|j: nat| j < 64 * words@.len() ==> #[trigger] bit_set(words@, j) == (j < i
                && positive@[j as int]),
        decreases n - i,
    {
        if positive[i] {
            let w = i / 64;
            let b = (i % 64) as u64;
            let old_word = words[w];
            let ghost before = words@;
            words.set(w, old_word | (1u64 << b));
            proof {
                assert forall|j: nat| j < 64 * words@.len() implies #[trigger] bit_set(words@, j) == (j
                    < i + 1 && positive@[j as int]) by {
                    if j / 64 == w {
                        lemma_or_bit(old_word, b, (j % 64) as u64);
                        assert(bit_set(before, j) == (j < i && positive@[j as int]));
                        if j % 64 == b as nat {
                            assert(j == i);
                        } else {
                            assert(j != i);
                        }
                    } else {
                        assert(words@[(j / 64) as int] == before[(j / 64) as int]);
                        assert(bit_set(before, j) == (j < i && positive@[j as int]));
                        assert(j != i);
                    }
                }
            }
        } else {
            proof {
                assert forall|j: nat| j < 64 * words@.len() implies #[trigger] bit_set(words@, j) == (j
                    < i + 1 && positive@[j as int]) by {
                    if j == i {
                        assert(!positive@[j as int]);
                    }
                }
            }
        }
        i += 1;
    }
    words
}

/// The signs held in the first `m` bits of a bitset (fewer when the words
/// hold fewer bits): `true` where the bit is set.
pub fn unpack_signs(words: &Vec<u64>, m: usize) -> (signs: Vec<bool>)
    ensures
        signs@.len() == (if m < 64 * words@.len() {
            m as nat
        } else {
            (64 * words@.len()) as nat
        }),
        forall|i: int| 0 <= i < signs@.len() ==> #[trigger] signs@[i] == bit_set(words@, i as nat),
{
    let mut signs: Vec<bool> = Vec::new();
    let mut w: usize = 0;
    while w < words.len()
        invariant
            w <= words@.len(),
            signs@.len() == (if m < 64 * w {
                m as nat
            } else {
                (64 * w) as nat
            }),
            forall|i: int| 0 <= i < signs@.len() ==> #[trigger] signs@[i] == bit_set(words@, i as nat),
        decreases words@.len() - w,
    {
        let word = words[w];
        let base: usize = match w.checked_mul(64) {
            Some(v) => v,
            None => usize::MAX,
        };
        let rest = m.saturating_sub(base);
        let bits = if rest < 64 {
            rest
        } else {
            64
        };
        let mut b: usize = 0;
        while b < bits
            invariant
                w < words@.len(),
                word == words@[w as int],
                bits <= 64,
                b <= bits,
                w * 64 <= usize::MAX ==> base == w * 64,
                bits == (if m >= 64 * w + 64 {
                    64
                } else if m >= 64 * w {
                    m - 64 * w
                } else {
                    0
                }),
                signs@.len() == (if m < 64 * w {
                    m as nat
                } else {
                    (64 * w) as nat
                }) + b,
                forall|i: int| 0 <= i < signs@.len() ==> #[trigger] signs@[i] == bit_set(words@, i as nat),
            decreases bits - b,
        {
            proof {
                lemma_and_mask(word, b as u64);
                let idx = (64 * w + b) as nat;
                assert(idx / 64 == w as nat) by (nonlinear_arith)
                    requires
                        idx == 64 * w + b,
                        b < 64,
                ;
                assert(idx % 64 == b as nat) by (nonlinear_arith)
                    requires
                        idx == 64 * w + b,
                        b < 64,
                ;
                assert(signs@.len() == idx);
            }
            signs.push(word & (1u64 << (b as u64)) != 0);
            b += 1;
        }
        w += 1;
    }
    signs
}

} // verus!
