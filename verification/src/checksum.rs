//! Checksums: Castagnoli CRC32C (with in-flight combination of per-chunk CRCs)
//! and xxHash64 payload hashes.
use vstd::prelude::*;

verus! {

/// Polynomial for Castagnoli CRC32C in reflected (LSB-first) representation.
pub const CRC32C_POLY: u32 = 0x82F63B78;

/// One bit-step of the reflected CRC32C register: multiplication by `x`
/// modulo the Castagnoli polynomial over GF(2).
pub open spec fn crc_shift1(s: u32) -> u32 {
    if s & 1 == 1 {
        (s >> 1) ^ CRC32C_POLY
    } else {
        s >> 1
    }
}

/// `k` bit-steps of the register (feeding `k` zero bits).
pub open spec fn crc_shift_bits(s: u32, k: nat) -> u32
    decreases k,
{
    if k == 0 {
        s
    } else {
        crc_shift1(crc_shift_bits(s, (k - 1) as nat))
    }
}

/// The register after feeding `n` zero bytes.
pub open spec fn crc32c_shift_bytes(s: u32, n: nat) -> u32 {
    crc_shift_bits(s, 8 * n)
}

/// The raw CRC32C register (no pre- or post-inversion) after feeding `data`
/// byte by byte, least significant bit first, starting from register `s`.
pub open spec fn crc_register(s: u32, data: Seq<u8>) -> u32
    decreases data.len(),
{
    if data.len() == 0 {
        s
    } else {
        crc_shift_bits(crc_register(s, data.drop_last()) ^ (data.last() as u32), 8)
    }
}

/// CRC32C of `data` continued from a previous CRC value `crc`
/// (the register is inverted on entry and on exit).
pub open spec fn crc32c_append_spec(crc: u32, data: Seq<u8>) -> u32 {
    !crc_register(!crc, data)
}

/// The Castagnoli CRC32C checksum of `data`.
pub open spec fn crc32c_spec(data: Seq<u8>) -> u32 {
    crc32c_append_spec(0, data)
}

// ---------------------------------------------------------------------------
// Linearity of the register over GF(2)
// ---------------------------------------------------------------------------
proof fn lemma_shift1_xor(a: u32, b: u32)
    ensures
        crc_shift1(a ^ b) == crc_shift1(a) ^ crc_shift1(b),
{
    assert((if (a ^ b) & 1 == 1 { ((a ^ b) >> 1) ^ 0x82F63B78u32 } else { (a ^ b) >> 1 }) == (
    if a & 1 == 1 { (a >> 1) ^ 0x82F63B78u32 } else { a >> 1 }) ^ (if b & 1 == 1 {
        (b >> 1) ^ 0x82F63B78u32
    } else {
        b >> 1
    })) by (bit_vector);
}

proof fn lemma_shift1_zero()
    ensures
        crc_shift1(0) == 0,
{
    assert((if 0u32 & 1 == 1 { (0u32 >> 1) ^ 0x82F63B78u32 } else { 0u32 >> 1 }) == 0u32)
        by (bit_vector);
}

proof fn lemma_shift_bits_xor(a: u32, b: u32, k: nat)
    ensures
        crc_shift_bits(a ^ b, k) == crc_shift_bits(a, k) ^ crc_shift_bits(b, k),
    decreases k,
{
    if k > 0 {
        lemma_shift_bits_xor(a, b, (k - 1) as nat);
        lemma_shift1_xor(crc_shift_bits(a, (k - 1) as nat), crc_shift_bits(b, (k - 1) as nat));
    }
}

proof fn lemma_shift_bits_zero(k: nat)
    ensures
        crc_shift_bits(0, k) == 0,
    decreases k,
{
    if k > 0 {
        lemma_shift_bits_zero((k - 1) as nat);
        lemma_shift1_zero();
    }
}

proof fn lemma_shift_bits_add(s: u32, j: nat, k: nat)
    ensures
        crc_shift_bits(crc_shift_bits(s, k), j) == crc_shift_bits(s, j + k),
    decreases j,
{
    if j > 0 {
        lemma_shift_bits_add(s, (j - 1) as nat, k);
        assert((j - 1) as nat + k == (j + k - 1) as nat);
    }
}

/// Feeding `data` from register `s` is the shifted `s` xor the register of `data` from zero.
proof fn lemma_register_split(s: u32, data: Seq<u8>)
    ensures
        crc_register(s, data) == crc_shift_bits(s, 8 * data.len()) ^ crc_register(0, data),
    decreases data.len(),
{
    if data.len() == 0 {
        assert(crc_register(0, data) == 0);
        assert(s ^ 0u32 == s) by (bit_vector);
    } else {
        let d = data.drop_last();
        let b = data.last() as u32;
        lemma_register_split(s, d);
        let x = crc_shift_bits(s, 8 * d.len());
        let y = crc_register(0, d);
        let r = crc_register(s, d);
        assert(r ^ b == x ^ (y ^ b)) by (bit_vector)
            requires
                r == x ^ y,
        ;
        lemma_shift_bits_xor(x, y ^ b, 8);
        lemma_shift_bits_add(s, 8, 8 * d.len());
        assert(8 + 8 * d.len() == 8 * data.len());
    }
}

/// Feeding `a` then `b` equals feeding their concatenation.
proof fn lemma_register_concat(s: u32, a: Seq<u8>, b: Seq<u8>)
    ensures
        crc_register(s, a + b) == crc_register(crc_register(s, a), b),
    decreases b.len(),
{
    if b.len() == 0 {
        assert(a + b =~= a);
    } else {
        lemma_register_concat(s, a, b.drop_last());
        assert((a + b).drop_last() =~= a + b.drop_last());
        assert((a + b).last() == b.last());
    }
}

/// The combination law of CRC32C: the checksum of a concatenation is the
/// checksum of the first part shifted over the length of the second part,
/// xor the checksum of the second part.
pub proof fn lemma_crc32c_concat(a: Seq<u8>, b: Seq<u8>)
    ensures
        crc32c_spec(a + b) == crc32c_shift_bytes(crc32c_spec(a), b.len()) ^ crc32c_spec(b),
{
    let ff: u32 = !0u32;
    let n = 8 * b.len();
    lemma_register_concat(ff, a, b);
    let ra = crc_register(ff, a);
    lemma_register_split(ra, b);
    lemma_register_split(ff, b);
    let ca = crc32c_spec(a);
    assert(ra == ca ^ ff) by (bit_vector)
        requires
            ca == !ra,
            ff == !0u32,
    ;
    lemma_shift_bits_xor(ca, ff, n);
    let sa = crc_shift_bits(ca, n);
    let sf = crc_shift_bits(ff, n);
    let r0 = crc_register(0, b);
    let cb = crc32c_spec(b);
    assert(!((sa ^ sf) ^ r0) == sa ^ cb) by (bit_vector)
        requires
            cb == !(sf ^ r0),
    ;
}

// ---------------------------------------------------------------------------
// GF(2) matrices: 32 columns, column `i` is the image of bit `i`
// ---------------------------------------------------------------------------
/// The image of `v` under the matrix `mat`, restricted to the bits of `v` from `i` upward.
pub open spec fn gf2_apply_from(mat: Seq<u32>, v: u32, i: nat) -> u32
    decreases 32 - i,
{
    if i >= 32 {
        0
    } else {
        (if (v >> (i as u32)) & 1 == 1 {
            mat[i as int]
        } else {
            0
        }) ^ gf2_apply_from(mat, v, i + 1)
    }
}

/// The image of `v` under the matrix `mat` (xor of the columns selected by the set bits of `v`).
pub open spec fn gf2_apply(mat: Seq<u32>, v: u32) -> u32 {
    gf2_apply_from(mat, v, 0)
}

/// `mat` is the matrix of `k` register bit-steps.
pub open spec fn gf2_represents(mat: Seq<u32>, k: nat) -> bool {
    &&& mat.len() == 32
    &&& forall|i: int| 0 <= i < 32 ==> #[trigger] mat[i] == crc_shift_bits(1u32 << (i as u32), k)
}

/// The bits of `v` at positions `i` and above.
spec fn high_bits(v: u32, i: nat) -> u32 {
    if i >= 32 {
        0
    } else {
        (v >> (i as u32)) << (i as u32)
    }
}

proof fn lemma_high_bits_step(v: u32, i: u32)
    requires
        i < 32,
    ensures
        high_bits(v, i as nat) == ((if (v >> i) & 1 == 1 { 1u32 << i } else { 0u32 })) ^ high_bits(
            v,
            (i + 1) as nat,
        ),
{
    if i < 31 {
        assert(((v >> i) << i) == ((if (v >> i) & 1 == 1 { 1u32 << i } else { 0u32 })) ^ ((v >> (
        (i + 1) as u32)) << ((i + 1) as u32))) by (bit_vector)
            requires
                i < 31,
        ;
    } else {
        assert(((v >> i) << i) == ((if (v >> i) & 1 == 1 { 1u32 << i } else { 0u32 })) ^ 0u32)
            by (bit_vector)
            requires
                i == 31,
        ;
    }
}

proof fn lemma_gf2_apply_from(mat: Seq<u32>, k: nat, v: u32, i: nat)
    requires
        gf2_represents(mat, k),
        i <= 32,
    ensures
        gf2_apply_from(mat, v, i) == crc_shift_bits(high_bits(v, i), k),
    decreases 32 - i,
{
    if i >= 32 {
        lemma_shift_bits_zero(k);
    } else {
        lemma_gf2_apply_from(mat, k, v, i + 1);
        lemma_high_bits_step(v, i as u32);
        let bit: u32 = if (v >> (i as u32)) & 1 == 1 {
            1u32 << (i as u32)
        } else {
            0u32
        };
        lemma_shift_bits_xor(bit, high_bits(v, i + 1), k);
        lemma_shift_bits_zero(k);
        assert(mat[i as int] == crc_shift_bits(1u32 << (i as u32), k));
    }
}

/// A matrix that represents `k` bit-steps applies them to any vector.
proof fn lemma_gf2_apply(mat: Seq<u32>, k: nat, v: u32)
    requires
        gf2_represents(mat, k),
    ensures
        gf2_apply(mat, v) == crc_shift_bits(v, k),
{
    lemma_gf2_apply_from(mat, k, v, 0);
    assert(((v >> 0u32) << 0u32) == v) by (bit_vector);
}

proof fn lemma_gf2_apply_from_zero(mat: Seq<u32>, v: u32, i: nat)
    requires
        i < 32,
        v >> (i as u32) == 0,
    ensures
        gf2_apply_from(mat, v, i) == 0,
    decreases 32 - i,
{
    let iu = i as u32;
    assert((v >> iu) & 1 == 0) by (bit_vector)
        requires
            v >> iu == 0,
    ;
    if i + 1 < 32 {
        assert(v >> ((iu + 1) as u32) == 0) by (bit_vector)
            requires
                v >> iu == 0,
                iu < 31,
        ;
        lemma_gf2_apply_from_zero(mat, v, i + 1);
    } else {
        assert(gf2_apply_from(mat, v, i + 1) == 0);
    }
    assert(0u32 ^ 0u32 == 0u32) by (bit_vector);
}

/// Applies a GF(2) matrix to a vector.
fn gf2_matrix_times(mat: &[u32; 32], vec: u32) -> (sum: u32)
    ensures
        sum == gf2_apply(mat@, vec),
{
    let ghost v0 = vec;
    let mut vec = vec;
    let mut sum = 0u32;
    let mut idx: usize = 0;
    assert(v0 >> 0u32 == v0) by (bit_vector);
    let ghost g = gf2_apply_from(mat@, v0, 0);
    assert(0u32 ^ g == g) by (bit_vector);
    while vec != 0
        invariant
            idx <= 32,
            idx == 32 ==> vec == 0,
            idx < 32 ==> vec == v0 >> (idx as u32),
            sum ^ gf2_apply_from(mat@, v0, idx as nat) == gf2_apply(mat@, v0),
        decreases 32 - idx,
    {
        let ghost old_sum = sum;
        let bit = vec & 1;
        assert((bit != 0) == (vec & 1 == 1)) by (bit_vector)
            requires
                bit == vec & 1,
        ;
        if bit != 0 {
            sum = sum ^ mat[idx];
        }
        proof {
            let rest = gf2_apply_from(mat@, v0, (idx + 1) as nat);
            let col: u32 = if (v0 >> (idx as u32)) & 1 == 1 {
                mat@[idx as int]
            } else {
                0
            };
            assert(gf2_apply_from(mat@, v0, idx as nat) == col ^ rest);
            if bit != 0 {
                assert(sum == old_sum ^ col);
            } else {
                assert(col == 0);
                assert(sum == old_sum ^ col) by (bit_vector)
                    requires
                        sum == old_sum,
                        col == 0,
                ;
            }
            assert(sum ^ rest == old_sum ^ (col ^ rest)) by (bit_vector)
                requires
                    sum == old_sum ^ col,
            ;
        }
        let ghost iu = idx as u32;
        vec = vec >> 1;
        idx = idx + 1;
        proof {
            if iu < 31 {
                assert((v0 >> iu) >> 1 == v0 >> ((iu + 1) as u32)) by (bit_vector)
                    requires
                        iu < 31,
                ;
            } else {
                assert((v0 >> iu) >> 1 == 0) by (bit_vector)
                    requires
                        iu == 31,
                ;
            }
        }
    }
    proof {
        if idx < 32 {
            lemma_gf2_apply_from_zero(mat@, v0, idx as nat);
        }
        assert(sum ^ 0u32 == sum) by (bit_vector);
    }
    sum
}

/// Fills `square` with the square of the matrix `mat`.
fn gf2_matrix_square(square: &mut [u32; 32], mat: &[u32; 32])
    ensures
        forall|n: int| 0 <= n < 32 ==> #[trigger] final(square)@[n] == gf2_apply(mat@, mat@[n]),
{
    let mut n: usize = 0;
    while n < 32
        invariant
            n <= 32,
            forall|j: int| 0 <= j < n ==> #[trigger] square@[j] == gf2_apply(mat@, mat@[j]),
        decreases 32 - n,
    {
        square[n] = gf2_matrix_times(mat, mat[n]);
        n = n + 1;
    }
}

/// Squaring the matrix of `k` bit-steps gives the matrix of `2k` bit-steps.
proof fn lemma_square_represents(square: Seq<u32>, mat: Seq<u32>, k: nat)
    requires
        gf2_represents(mat, k),
        square.len() == 32,
        forall|n: int| 0 <= n < 32 ==> #[trigger] square[n] == gf2_apply(mat, mat[n]),
    ensures
        gf2_represents(square, 2 * k),
{
    assert forall|i: int| 0 <= i < 32 implies #[trigger] square[i] == crc_shift_bits(
        1u32 << (i as u32),
        2 * k,
    ) by {
        lemma_gf2_apply(mat, k, mat[i]);
        lemma_shift_bits_add(1u32 << (i as u32), k, k);
        assert(k + k == 2 * k);
    }
}

proof fn lemma_halve_step(len: usize, low: nat, t: nat, n0: nat)
    requires
        n0 == low + (len as nat) * pow2(t),
    ensures
        n0 == low + (if len & 1 != 0 {
            pow2(t)
        } else {
            0
        }) + ((len >> 1) as nat) * pow2(t + 1),
{
    assert(len >> 1 == len / 2) by (bit_vector);
    assert((len & 1 != 0) == (len % 2 == 1)) by (bit_vector);
    let p = pow2(t);
    assert(pow2(t + 1) == 2 * p);
    let h = (len / 2) as nat;
    let r = (len % 2) as nat;
    assert(len as nat == 2 * h + r);
    assert((2 * h + r) * p == h * (2 * p) + r * p) by (nonlinear_arith);
}

spec fn pow2(t: nat) -> nat
    decreases t,
{
    if t == 0 {
        1
    } else {
        2 * pow2((t - 1) as nat)
    }
}

/// The matrix built from the polynomial is the matrix of one bit-step.
proof fn lemma_initial_operator(even: Seq<u32>)
    requires
        even.len() == 32,
        even[0] == CRC32C_POLY,
        forall|n: int| 1 <= n < 32 ==> #[trigger] even[n] == 1u32 << ((n - 1) as u32),
    ensures
        gf2_represents(even, 1),
{
    assert forall|i: int| 0 <= i < 32 implies #[trigger] even[i] == crc_shift_bits(
        1u32 << (i as u32),
        1,
    ) by {
        let iu = i as u32;
        assert(crc_shift_bits(1u32 << iu, 0) == 1u32 << iu);
        assert(crc_shift_bits(1u32 << iu, 1) == crc_shift1(1u32 << iu));
        if i == 0 {
            assert(crc_shift1(1u32 << 0u32) == 0x82F63B78u32) by (bit_vector);
        } else {
            assert((if (1u32 << iu) & 1 == 1 { ((1u32 << iu) >> 1) ^ 0x82F63B78u32 } else { (1u32
                << iu) >> 1 }) == 1u32 << ((iu - 1) as u32)) by (bit_vector)
                requires
                    1 <= iu < 32,
            ;
        }
    }
}

/// Combines two Castagnoli CRC32C checksums into the CRC32C checksum of their concatenation.
///
/// If `crc1 = CRC32C(A)` and `crc2 = CRC32C(B)` where `len2 = len(B)` in bytes,
/// then `crc32c_combine(crc1, crc2, len2) == CRC32C(A || B)`.
/// Runs in O(log len2) matrix squarings over GF(2).
pub fn crc32c_combine(crc1: u32, crc2: u32, len2: usize) -> (crc: u32)
    ensures
        len2 == 0 ==> crc == crc1,
        len2 > 0 ==> crc == crc32c_shift_bytes(crc1, len2 as nat) ^ crc2,
        forall|a: Seq<u8>, b: Seq<u8>|
            crc32c_spec(a) == crc1 && crc32c_spec(b) == crc2 && b.len() == len2 ==> crc
                == #[trigger] crc32c_spec(a + b),
{
    proof {
        assert forall|a: Seq<u8>, b: Seq<u8>|
            crc32c_spec(a) == crc1 && crc32c_spec(b) == crc2 && b.len() == len2 implies (if len2
            == 0 {
            crc1
        } else {
            crc32c_shift_bytes(crc1, len2 as nat) ^ crc2
        }) == #[trigger] crc32c_spec(a + b) by {
            lemma_crc32c_concat(a, b);
            if len2 == 0 {
                assert(b =~= Seq::<u8>::empty());
                assert(a + b =~= a);
            }
        }
    }
    if len2 == 0 {
        return crc1;
    }
    let mut len2 = len2;
    let mut even = [0u32; 32];
    let mut odd = [0u32; 32];

    // Operator for one zero bit: column 0 is the polynomial, column n is bit n - 1.
    even[0] = CRC32C_POLY;
    let mut row = 1u32;
    let mut n: usize = 1;
    assert(1u32 << 0u32 == 1u32) by (bit_vector);
    while n < 32
        invariant
            1 <= n <= 32,
            even@.len() == 32,
            even@[0] == CRC32C_POLY,
            row == 1u32 << ((n - 1) as u32),
            forall|j: int| 1 <= j < n ==> #[trigger] even@[j] == 1u32 << ((j - 1) as u32),
        decreases 32 - n,
    {
        even[n] = row;
        proof {
            let nu = n as u32;
            assert((1u32 << ((nu - 1) as u32)) << 1 == 1u32 << nu) by (bit_vector)
                requires
                    1 <= nu < 32,
            ;
        }
        row = row << 1;
        n = n + 1;
    }
    proof {
        lemma_initial_operator(even@);
    }

    // Square three times: the operator for one zero byte.
    gf2_matrix_square(&mut odd, &even);
    proof {
        lemma_square_represents(odd@, even@, 1);
    }
    gf2_matrix_square(&mut even, &odd);
    proof {
        lemma_square_represents(even@, odd@, 2);
    }
    gf2_matrix_square(&mut odd, &even);
    proof {
        lemma_square_represents(odd@, even@, 4);
    }
    even = odd;

    let ghost n0: nat = len2 as nat;
    let ghost mut low: nat = 0;
    let ghost mut t: nat = 0;
    let mut c1 = crc1;
    loop
        invariant_except_break
            len2 > 0,
            gf2_represents(even@, 8 * pow2(t)),
        invariant
            n0 == low + (len2 as nat) * pow2(t),
            c1 == crc_shift_bits(crc1, 8 * low),
        ensures
            len2 == 0,
        decreases len2,
    {
        // Apply the matrix for the current bit of len2.
        gf2_matrix_square(&mut odd, &even);
        proof {
            lemma_square_represents(odd@, even@, 8 * pow2(t));
        }
        if (len2 & 1) != 0 {
            let ghost before = c1;
            c1 = gf2_matrix_times(&even, c1);
            proof {
                lemma_gf2_apply(even@, 8 * pow2(t), before);
                lemma_shift_bits_add(crc1, 8 * pow2(t), 8 * low);
            }
        }
        proof {
            lemma_halve_step(len2, low, t, n0);
            if (len2 & 1) != 0 {
                low = low + pow2(t);
            }
            t = t + 1;
            assert(2 * (8 * pow2((t - 1) as nat)) == 8 * pow2(t));
        }
        proof {
            assert(len2 >> 1 < len2) by (bit_vector)
                requires
                    len2 > 0,
            ;
        }
        len2 = len2 >> 1;
        if len2 == 0 {
            break;
        }

        // Apply the matrix for the next bit of len2.
        gf2_matrix_square(&mut even, &odd);
        proof {
            lemma_square_represents(even@, odd@, 8 * pow2(t));
        }
        if (len2 & 1) != 0 {
            let ghost before = c1;
            c1 = gf2_matrix_times(&odd, c1);
            proof {
                lemma_gf2_apply(odd@, 8 * pow2(t), before);
                lemma_shift_bits_add(crc1, 8 * pow2(t), 8 * low);
            }
        }
        proof {
            lemma_halve_step(len2, low, t, n0);
            if (len2 & 1) != 0 {
                low = low + pow2(t);
            }
            t = t + 1;
            assert(2 * (8 * pow2((t - 1) as nat)) == 8 * pow2(t));
        }
        proof {
            assert(len2 >> 1 < len2) by (bit_vector)
                requires
                    len2 > 0,
            ;
        }
        len2 = len2 >> 1;
        if len2 == 0 {
            break;
        }
    }
    c1 ^ crc2
}


// ---------------------------------------------------------------------------
// Outside checksum implementations
// ---------------------------------------------------------------------------
/// The xxHash64 digest of `data` under `seed`, as computed by the `xxhash-rust` crate.
pub uninterp spec fn spec_xxh64(data: Seq<u8>, seed: u64) -> u64;

/// Calls `xxhash_rust::xxh64::xxh64`; the contract only names its result as a
/// function of the input bytes and the seed.
#[verifier::external_body]
fn xxh64_call(data: &[u8], seed: u64) -> (h: u64)
    ensures
        h == spec_xxh64(data@, seed),
{
    xxhash_rust::xxh64::xxh64(data, seed)
}

/// Calls `crc32c::crc32c_append`: the crate inverts `crc`, feeds the bytes through
/// the reflected Castagnoli register and inverts the result, which is what
/// `crc32c_append_spec` states.
#[verifier::external_body]
fn crc32c_append_call(crc: u32, data: &[u8]) -> (c: u32)
    ensures
        c == crc32c_append_spec(crc, data@),
{
    crc32c::crc32c_append(crc, data)
}

/// Calls `crc32c::crc32c`, which the crate documents as `crc32c_append(0, data)`.
#[verifier::external_body]
fn crc32c_call(data: &[u8]) -> (c: u32)
    ensures
        c == crc32c_spec(data@),
{
    crc32c::crc32c(data)
}

/// Computes xxHash64 checksum for the given byte payload using seed 0.
pub fn compute_xxhash64(data: &[u8]) -> (h: u64)
    ensures
        h == spec_xxh64(data@, 0),
{
    xxh64_call(data, 0)
}

/// Computes Castagnoli CRC32C checksum for the given byte slice.
pub fn compute_crc32c(data: &[u8]) -> (c: u32)
    ensures
        c == crc32c_spec(data@),
{
    crc32c_call(data)
}

/// The checksum of the empty byte string is zero.
pub proof fn lemma_crc32c_empty()
    ensures
        crc32c_spec(Seq::<u8>::empty()) == 0,
{
    let z = !0u32;
    assert(!z == 0u32) by (bit_vector)
        requires
            z == !0u32,
    ;
}

/// Continuing the checksum of `a` with `b` gives the checksum of `a + b`.
pub proof fn lemma_crc32c_append(a: Seq<u8>, b: Seq<u8>)
    ensures
        crc32c_append_spec(crc32c_spec(a), b) == crc32c_spec(a + b),
{
    let ff = !0u32;
    let ra = crc_register(ff, a);
    let ca = crc32c_spec(a);
    assert(!ca == ra) by (bit_vector)
        requires
            ca == !ra,
    ;
    lemma_register_concat(ff, a, b);
}

/// Streaming in-flight Castagnoli CRC32C accumulator.
#[derive(Debug, Clone, Copy, Default)]
pub struct Crc32cAccumulator {
    current_crc: u32,
    total_bytes: u64,
}

impl Crc32cAccumulator {
    /// The running checksum.
    pub closed spec fn crc(&self) -> u32 {
        self.current_crc
    }

    /// The number of bytes accounted for.
    pub closed spec fn len(&self) -> u64 {
        self.total_bytes
    }

    /// The accumulator holds the checksum and the length of `data`.
    pub open spec fn holds(&self, data: Seq<u8>) -> bool {
        self.crc() == crc32c_spec(data) && self.len() == data.len()
    }

    /// Creates a new, empty CRC32C accumulator.
    pub fn new() -> (acc: Self)
        ensures
            acc.crc() == 0,
            acc.len() == 0,
            acc.holds(Seq::<u8>::empty()),
    {
        proof {
            lemma_crc32c_empty();
        }
        Self { current_crc: 0, total_bytes: 0 }
    }

    /// Appends a byte slice to the running CRC32C checksum.
    pub fn update(&mut self, data: &[u8])
        requires
            old(self).len() + data@.len() <= u64::MAX,
        ensures
            final(self).len() == old(self).len() + data@.len(),
            data@.len() == 0 ==> final(self).crc() == old(self).crc(),
            data@.len() > 0 && old(self).len() == 0 ==> final(self).crc() == crc32c_spec(data@),
            data@.len() > 0 && old(self).len() > 0 ==> final(self).crc() == crc32c_append_spec(
                old(self).crc(),
                data@,
            ),
            forall|d: Seq<u8>| #[trigger] old(self).holds(d) ==> final(self).holds(d + data@),
    {
        let ghost before = *self;
        if data.len() != 0 {
            if self.total_bytes == 0 {
                self.current_crc = compute_crc32c(data);
            } else {
                self.current_crc = crc32c_append_call(self.current_crc, data);
            }
            self.total_bytes = self.total_bytes + data.len() as u64;
        }
        proof {
            assert forall|d: Seq<u8>| #[trigger] before.holds(d) implies self.holds(d + data@) by {
                lemma_crc32c_append(d, data@);
                if data@.len() == 0 {
                    assert(d + data@ =~= d);
                } else if before.total_bytes == 0 {
                    assert(d =~= Seq::<u8>::empty());
                    assert(d + data@ =~= data@);
                }
            }
        }
    }

    /// Appends a pre-computed chunk CRC with known chunk length using GF(2) combination.
    pub fn combine(&mut self, chunk_crc: u32, chunk_len: usize)
        requires
            old(self).len() + chunk_len <= u64::MAX,
        ensures
            final(self).len() == old(self).len() + chunk_len,
            chunk_len == 0 ==> final(self).crc() == old(self).crc(),
            chunk_len > 0 && old(self).len() == 0 ==> final(self).crc() == chunk_crc,
            chunk_len > 0 && old(self).len() > 0 ==> final(self).crc() == crc32c_shift_bytes(
                old(self).crc(),
                chunk_len as nat,
            ) ^ chunk_crc,
            forall|d: Seq<u8>, c: Seq<u8>|
                old(self).holds(d) && crc32c_spec(c) == chunk_crc && c.len() == chunk_len
                    ==> #[trigger] final(self).holds(d + c),
    {
        let ghost before = *self;
        if chunk_len > 0 {
            if self.total_bytes == 0 {
                self.current_crc = chunk_crc;
            } else {
                self.current_crc = crc32c_combine(self.current_crc, chunk_crc, chunk_len);
            }
            self.total_bytes = self.total_bytes + chunk_len as u64;
        }
        proof {
            assert forall|d: Seq<u8>, c: Seq<u8>|
                before.holds(d) && crc32c_spec(c) == chunk_crc && c.len() == chunk_len implies #[trigger] self.holds(
                d + c,
            ) by {
                if chunk_len == 0 {
                    assert(d + c =~= d);
                } else if before.total_bytes == 0 {
                    assert(d =~= Seq::<u8>::empty());
                    assert(d + c =~= c);
                }
            }
        }
    }

    /// Finalizes and returns the completed Castagnoli CRC32C checksum.
    pub fn finalize(&self) -> (c: u32)
        ensures
            c == self.crc(),
    {
        self.current_crc
    }

    /// Returns the total bytes accumulated so far.
    pub fn total_bytes(&self) -> (n: u64)
        ensures
            n == self.len(),
    {
        self.total_bytes
    }
}

} // verus!
