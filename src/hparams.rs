use vstd::prelude::*;

use crate::error::{ConfigError, LoadError};

verus! {

/// The architecture description stored in a checkpoint header.
#[derive(Debug, Clone, Copy, PartialEq, Eq, Structural)]
pub struct LlamaHyperParams {
    pub n_vocab: i32,
    pub n_ctx: i32,
    pub n_embd: i32,
    pub n_mult: i32,
    pub n_head: i32,
    pub n_layer: i32,
    pub n_rot: i32,
    pub f16_: i32,
}

/// Element encodings of tensors.
#[derive(Debug, Clone, Copy, PartialEq, Eq, Structural)]
pub enum QuantType {
    F32,
    F16,
    Q4_0,
    Q4_1,
}

/// Bytes taken by one block of elements of type `q`.
pub open spec fn type_size_spec(q: QuantType) -> int {
    match q {
        QuantType::F32 => 4,
        QuantType::F16 => 2,
        QuantType::Q4_0 => 20,
        QuantType::Q4_1 => 24,
    }
}

/// Elements per block of type `q`.
pub open spec fn block_size_spec(q: QuantType) -> int {
    match q {
        QuantType::F32 => 1,
        QuantType::F16 => 1,
        QuantType::Q4_0 => 32,
        QuantType::Q4_1 => 32,
    }
}

impl QuantType {
    /// Bytes taken by one block of elements.
    pub fn type_size(&self) -> (r: usize)
        ensures
            r == type_size_spec(*self),
    {
        match self {
            QuantType::F32 => 4,
            QuantType::F16 => 2,
            QuantType::Q4_0 => 20,
            QuantType::Q4_1 => 24,
        }
    }

    /// Elements per block.
    pub fn block_size(&self) -> (r: usize)
        ensures
            r == block_size_spec(*self),
    {
        match self {
            QuantType::F32 => 1,
            QuantType::F16 => 1,
            QuantType::Q4_0 => 32,
            QuantType::Q4_1 => 32,
        }
    }
}

/// The element type that a flag (of the header or of a record) selects.
pub open spec fn quant_of_flag(flag: int) -> Option<QuantType> {
    if flag == 0 {
        Some(QuantType::F32)
    } else if flag == 1 {
        Some(QuantType::F16)
    } else if flag == 2 {
        Some(QuantType::Q4_0)
    } else if flag == 3 {
        Some(QuantType::Q4_1)
    } else {
        None
    }
}

/// Selects the element type of a quantization flag.
pub fn quant_type_from_flag(flag: i32) -> (r: Result<QuantType, LoadError>)
    ensures
        match quant_of_flag(flag as int) {
            Some(q) => r == Ok::<QuantType, LoadError>(q),
            None => r == Err::<QuantType, LoadError>(LoadError::Config(ConfigError::QuantFlag)),
        },
{
    match flag {
        0 => Ok(QuantType::F32),
        1 => Ok(QuantType::F16),
        2 => Ok(QuantType::Q4_0),
        3 => Ok(QuantType::Q4_1),
        _ => Err(LoadError::Config(ConfigError::QuantFlag)),
    }
}

/// Number of shard files of a model with embedding dimension `size`.
pub open spec fn n_parts_spec(size: int) -> Option<int> {
    if size == 4096 {
        Some(1)
    } else if size == 5120 {
        Some(2)
    } else if size == 6656 {
        Some(3)
    } else if size == 8192 {
        Some(8)
    } else {
        None
    }
}

/// Looks up the shard count of an embedding dimension.
pub fn llama_n_parts(size: i32) -> (r: Result<i32, LoadError>)
    ensures
        match n_parts_spec(size as int) {
            Some(n) => r == Ok::<i32, LoadError>(n as i32),
            None => r == Err::<i32, LoadError>(LoadError::Config(ConfigError::EmbeddingDim)),
        },
{
    match size {
        4096 => Ok(1),
        5120 => Ok(2),
        6656 => Ok(3),
        8192 => Ok(8),
        _ => Err(LoadError::Config(ConfigError::EmbeddingDim)),
    }
}

/// The hyperparameters that a model can be built from.
pub open spec fn valid_hparams(h: LlamaHyperParams) -> bool {
    &&& n_parts_spec(h.n_embd as int) is Some
    &&& quant_of_flag(h.f16_ as int) is Some
    &&& h.n_vocab >= 0
    &&& h.n_ctx >= 0
    &&& h.n_mult > 0
    &&& h.n_layer >= 0
}

/// Checks the hyperparameters, in the order: embedding dimension,
/// quantization flag, then the signs of the sizes.
pub fn check_hparams(h: &LlamaHyperParams) -> (r: Result<(), LoadError>)
    ensures
        r is Ok <==> valid_hparams(*h),
        n_parts_spec(h.n_embd as int) is None ==> r == Err::<(), LoadError>(
            LoadError::Config(ConfigError::EmbeddingDim),
        ),
        n_parts_spec(h.n_embd as int) is Some && quant_of_flag(h.f16_ as int) is None ==> r
            == Err::<(), LoadError>(LoadError::Config(ConfigError::QuantFlag)),
        n_parts_spec(h.n_embd as int) is Some && quant_of_flag(h.f16_ as int) is Some
            && !valid_hparams(*h) ==> r == Err::<(), LoadError>(
            LoadError::Config(ConfigError::HyperParams),
        ),
{
    let _ = llama_n_parts(h.n_embd)?;
    let _ = quant_type_from_flag(h.f16_)?;
    if h.n_vocab < 0 || h.n_ctx < 0 || h.n_mult <= 0 || h.n_layer < 0 {
        return Err(LoadError::Config(ConfigError::HyperParams));
    }
    Ok(())
}

/// `x` rounded up to a multiple of `m`.
pub open spec fn round_up(x: int, m: int) -> int {
    ((x + m - 1) / m) * m
}

/// Width of the feed-forward layers: `8 * n_embd / 3` rounded up to a multiple of `n_mult`.
pub open spec fn n_ff_spec(h: LlamaHyperParams) -> int {
    round_up((8 * h.n_embd) / 3, h.n_mult as int)
}

/// Computes the feed-forward width.
pub fn n_ff(h: &LlamaHyperParams) -> (r: i64)
    requires
        valid_hparams(*h),
    ensures
        r == n_ff_spec(*h),
        (8 * h.n_embd) / 3 <= r < (8 * h.n_embd) / 3 + h.n_mult,
{
    let x: i64 = (8 * h.n_embd as i64) / 3;
    let m: i64 = h.n_mult as i64;
    assert(0 <= x <= 22000);
    let q: i64 = (x + m - 1) / m;
    proof {
        let xi = x as int;
        let mi = m as int;
        let qi = q as int;
        assert(qi * mi <= xi + mi - 1 && xi + mi - 1 < qi * mi + mi) by (nonlinear_arith)
            requires
                qi == (xi + mi - 1) / mi,
                mi > 0,
        ;
        assert(0 <= qi * mi) by (nonlinear_arith)
            requires
                qi >= 0,
                mi > 0,
        ;
        assert(qi * mi >= xi) by (nonlinear_arith)
            requires
                xi + mi - 1 < qi * mi + mi,
        ;
    }
    q * m
}

/// Bytes taken by `n` elements of type `q`.
pub open spec fn scaled(n: int, q: QuantType) -> int {
    n * type_size_spec(q) / block_size_spec(q)
}

/// The weight type that the header's quantization flag selects.
pub open spec fn wtype_of(h: LlamaHyperParams) -> QuantType {
    quant_of_flag(h.f16_ as int).unwrap()
}

/// Arena capacity for a model: every weight tensor, the two key/value cache
/// buffers, and a fixed bookkeeping overhead per tensor.
pub open spec fn arena_size_spec(h: LlamaHyperParams) -> int {
    let e = h.n_embd as int;
    let l = h.n_layer as int;
    let c = h.n_ctx as int;
    let v = h.n_vocab as int;
    let f = n_ff_spec(h);
    let w = wtype_of(h);
    let full = QuantType::F32;
    scaled(e * v, w) + scaled(e, full) + scaled(e * v, w) + scaled(l * e, full) + 4 * scaled(
        l * e * e,
        w,
    ) + scaled(l * e, full) + 3 * scaled(l * f * e, w) + 2 * scaled(c * l * e, full) + (5 + 10 * l)
        * 256
}

/// Largest number of elements of any tensor of a valid model.
pub open spec fn elems_bound() -> int {
    0x4000_0000_0000_0000_0000_0000
}

proof fn lemma_scaled_bounds(n: int, q: QuantType)
    requires
        0 <= n <= elems_bound(),
    ensures
        0 <= scaled(n, q) <= 24 * elems_bound(),
{
    assert(0 <= n * type_size_spec(q) <= 24 * elems_bound()) by (nonlinear_arith)
        requires
            0 <= n <= elems_bound(),
            0 < type_size_spec(q) <= 24,
    ;
}

fn scaled_exec(n: u128, q: QuantType) -> (r: u128)
    requires
        n <= elems_bound(),
    ensures
        r == scaled(n as int, q),
        r <= 24 * elems_bound(),
{
    proof {
        lemma_scaled_bounds(n as int, q);
    }
    n * (q.type_size() as u128) / (q.block_size() as u128)
}

/// Computes the arena capacity that a model needs, in bytes.
pub fn arena_size(h: &LlamaHyperParams) -> (r: u128)
    requires
        valid_hparams(*h),
    ensures
        r == arena_size_spec(*h),
{
    let w = quant_type_from_flag(h.f16_).unwrap();
    let e = h.n_embd as u128;
    let l = h.n_layer as u128;
    let c = h.n_ctx as u128;
    let v = h.n_vocab as u128;
    let ff = n_ff(h);
    let f = ff as u128;
    let b: u128 = 0x8000_0000;
    assert(2 * b * b * b == elems_bound()) by (nonlinear_arith)
        requires b == 0x8000_0000;
    assert(e < b && l < b && c < b && v < b && f < 2 * b);
    assert(e * v <= b * b && l * e * e <= b * b * b && l * f * e <= 2 * b * b * b && c * l * e
        <= b * b * b) by (nonlinear_arith)
        requires
            e < b,
            l < b,
            c < b,
            v < b,
            f < 2 * b,
    ;
    assert(b * b <= 2 * b * b * b) by (nonlinear_arith)
        requires b >= 1;
    let mut size: u128 = scaled_exec(e * v, w);
    size = size + scaled_exec(e, QuantType::F32);
    size = size + scaled_exec(e * v, w);
    size = size + scaled_exec(l * e, QuantType::F32);
    size = size + 4 * scaled_exec(l * e * e, w);
    size = size + scaled_exec(l * e, QuantType::F32);
    size = size + 3 * scaled_exec(l * f * e, w);
    size = size + 2 * scaled_exec(c * l * e, QuantType::F32);
    size = size + (5 + 10 * l) * 256;
    size
}

/// The arena capacity is a function of the hyperparameters alone: equal
/// hyperparameters give equal capacities, whatever was computed before.
pub proof fn lemma_arena_size_deterministic(h1: LlamaHyperParams, h2: LlamaHyperParams)
    requires
        valid_hparams(h1),
        h1 == h2,
    ensures
        arena_size_spec(h1) == arena_size_spec(h2),
{
}

} // verus!
