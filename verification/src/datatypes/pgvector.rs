//! The pgvector wire formats: dense single-precision vectors, dense
//! half-precision vectors, and sparse vectors of index and value pairs.
//! Float values stay bit patterns throughout the crate.

use vstd::prelude::*;

use crate::appenders::generic::err_string;
use crate::datatypes::utils::{be_u16, be_u32, read_i32_at, read_u16_at, read_u32_at};

verus! {

/// A dense vector of 32-bit float bit patterns.
#[derive(Debug)]
pub struct PgF32Vector {
    pub data: Vec<u32>,
}

/// A dense vector of 16-bit float bit patterns.
#[derive(Debug)]
pub struct PgF16Vector {
    pub data: Vec<u16>,
}

/// A sparse vector: the declared dimension and the zero-based positions
/// of its stored values, as they stand on the wire.
#[derive(Debug)]
pub struct PgSparseVector {
    pub dim: i32,
    pub indices: Vec<i32>,
    pub values: Vec<u32>,
}

/// Parse a `vector` value: a two-byte dimension, two reserved bytes, then
/// one big-endian float per element.
pub fn parse_f32_vector(b: &[u8]) -> (r: Result<PgF32Vector, String>)
    ensures
        r is Ok <==> b@.len() >= 4 && b@.len() - 4 >= 4 * be_u16(b@),
        (r matches Result::Ok(v) ==> {
            &&& b@.len() >= 4
            &&& v.data@.len() == be_u16(b@)
            &&& forall|i: int|
                0 <= i < v.data@.len() ==> #[trigger] v.data@[i] as int == be_u32(
                    b@.skip(4 + 4 * i),
                )
        }),
{
    let n = b.len();
    if n < 4 {
        return Result::Err(err_string("malformed vector value"));
    }
    let dim = read_u16_at(b, 0);
    let count = dim as usize;
    if (n - 4) / 4 < count {
        proof {
            vstd::arithmetic::div_mod::lemma_fundamental_div_mod(n as int - 4, 4);
        }
        return Result::Err(err_string("malformed vector value"));
    }
    proof {
        vstd::arithmetic::div_mod::lemma_fundamental_div_mod(n as int - 4, 4);
    }
    let mut data: Vec<u32> = Vec::new();
    let mut i: usize = 0;
    while i < count
        invariant
            i <= count,
            n == b@.len(),
            4 + 4 * count <= n,
            data@.len() == i,
            forall|j: int|
                0 <= j < i ==> #[trigger] data@[j] as int == be_u32(b@.skip(4 + 4 * j)),
        decreases count - i,
    {
        let x = read_u32_at(b, 4 + 4 * i);
        data.push(x);
        i = i + 1;
    }
    Result::Ok(PgF32Vector { data })
}

/// Parse a `halfvec` value: a two-byte dimension, two reserved bytes,
/// then one big-endian half-precision float per element.
pub fn parse_f16_vector(b: &[u8]) -> (r: Result<PgF16Vector, String>)
    ensures
        r is Ok <==> b@.len() >= 4 && b@.len() - 4 >= 2 * be_u16(b@),
        (r matches Result::Ok(v) ==> {
            &&& b@.len() >= 4
            &&& v.data@.len() == be_u16(b@)
            &&& forall|i: int|
                0 <= i < v.data@.len() ==> #[trigger] v.data@[i] as int == be_u16(
                    b@.skip(4 + 2 * i),
                )
        }),
{
    let n = b.len();
    if n < 4 {
        return Result::Err(err_string("malformed halfvec value"));
    }
    let dim = read_u16_at(b, 0);
    let count = dim as usize;
    if (n - 4) / 2 < count {
        proof {
            vstd::arithmetic::div_mod::lemma_fundamental_div_mod(n as int - 4, 2);
        }
        return Result::Err(err_string("malformed halfvec value"));
    }
    proof {
        vstd::arithmetic::div_mod::lemma_fundamental_div_mod(n as int - 4, 2);
    }
    let mut data: Vec<u16> = Vec::new();
    let mut i: usize = 0;
    while i < count
        invariant
            i <= count,
            n == b@.len(),
            4 + 2 * count <= n,
            data@.len() == i,
            forall|j: int|
                0 <= j < i ==> #[trigger] data@[j] as int == be_u16(b@.skip(4 + 2 * j)),
        decreases count - i,
    {
        let x = read_u16_at(b, 4 + 2 * i);
        data.push(x);
        i = i + 1;
    }
    Result::Ok(PgF16Vector { data })
}

/// Parse a `sparsevec` value: dimension, entry count and a reserved word,
/// then the zero-based indices, then the float values.
pub fn parse_sparse_vector(b: &[u8]) -> (r: Result<PgSparseVector, String>)
    ensures
        r is Ok <==> b@.len() >= 12 && crate::datatypes::utils::be_i32(b@.skip(4)) >= 0 && b@.len()
            - 12 >= 8 * crate::datatypes::utils::be_i32(b@.skip(4)),
        (r matches Result::Ok(v) ==> {
            &&& v.indices@.len() == v.values@.len()
            &&& v.indices@.len() == crate::datatypes::utils::be_i32(b@.skip(4))
            &&& forall|i: int|
                0 <= i < v.indices@.len() ==> #[trigger] v.indices@[i] as int == crate::datatypes::utils::be_i32(
                    b@.skip(12 + 4 * i),
                )
            &&& forall|i: int|
                0 <= i < v.values@.len() ==> #[trigger] v.values@[i] as int == be_u32(
                    b@.skip(12 + 4 * v.indices@.len() + 4 * i),
                )
        }),
{
    let n = b.len();
    if n < 12 {
        return Result::Err(err_string("malformed sparsevec value"));
    }
    let dim = read_i32_at(b, 0);
    let nnz_i = read_i32_at(b, 4);
    if nnz_i < 0 {
        return Result::Err(err_string("malformed sparsevec value"));
    }
    let nnz = nnz_i as usize;
    if (n - 12) / 8 < nnz {
        proof {
            vstd::arithmetic::div_mod::lemma_fundamental_div_mod(n as int - 12, 8);
        }
        return Result::Err(err_string("malformed sparsevec value"));
    }
    proof {
        vstd::arithmetic::div_mod::lemma_fundamental_div_mod(n as int - 12, 8);
    }
    let mut indices: Vec<i32> = Vec::new();
    let mut i: usize = 0;
    while i < nnz
        invariant
            i <= nnz,
            n == b@.len(),
            12 + 8 * nnz <= n,
            indices@.len() == i,
            forall|j: int|
                0 <= j < i ==> #[trigger] indices@[j] as int == crate::datatypes::utils::be_i32(
                    b@.skip(12 + 4 * j),
                ),
        decreases nnz - i,
    {
        let x = read_i32_at(b, 12 + 4 * i);
        indices.push(x);
        i = i + 1;
    }
    let base = 12 + 4 * nnz;
    let mut values: Vec<u32> = Vec::new();
    let mut k: usize = 0;
    while k < nnz
        invariant
            k <= nnz,
            n == b@.len(),
            base == 12 + 4 * nnz,
            12 + 8 * nnz <= n,
            values@.len() == k,
            forall|j: int|
                0 <= j < k ==> #[trigger] values@[j] as int == be_u32(b@.skip(12 + 4 * nnz + 4 * j)),
        decreases nnz - k,
    {
        let x = read_u32_at(b, base + 4 * k);
        values.push(x);
        k = k + 1;
    }
    Result::Ok(PgSparseVector { dim, indices, values })
}

} // verus!
