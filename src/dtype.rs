use vstd::prelude::*;

verus! {

/// The closed set of packed formats a quantized storage can hold.
#[allow(non_camel_case_types)]
#[derive(Clone, Copy, Debug, PartialEq, Eq, Structural)]
pub enum GgmlDType {
    F32,
    F16,
    BF16,
    Q4_0,
    Q4_1,
    Q5_0,
    Q5_1,
    Q8_0,
    Q8_1,
    Q2K,
    Q3K,
    Q4K,
    Q5K,
    Q6K,
    Q8K,
}

/// Number of elements in one block of the format.
pub open spec fn spec_block_size(t: GgmlDType) -> nat {
    match t {
        GgmlDType::F32 | GgmlDType::F16 | GgmlDType::BF16 => 1,
        GgmlDType::Q4_0 | GgmlDType::Q4_1 | GgmlDType::Q5_0 | GgmlDType::Q5_1
        | GgmlDType::Q8_0 | GgmlDType::Q8_1 => 32,
        _ => 256,
    }
}

/// Number of bytes of one packed block of the format.
pub open spec fn spec_block_bytes(t: GgmlDType) -> nat {
    match t {
        GgmlDType::F32 => 4,
        GgmlDType::F16 => 2,
        GgmlDType::BF16 => 2,
        GgmlDType::Q4_0 => 18,
        GgmlDType::Q4_1 => 20,
        GgmlDType::Q5_0 => 22,
        GgmlDType::Q5_1 => 24,
        GgmlDType::Q8_0 => 34,
        GgmlDType::Q8_1 => 36,
        GgmlDType::Q2K => 84,
        GgmlDType::Q3K => 110,
        GgmlDType::Q4K => 144,
        GgmlDType::Q5K => 176,
        GgmlDType::Q6K => 210,
        GgmlDType::Q8K => 292,
    }
}

/// Number of blocks needed for `n` elements: the last one may be padded.
pub open spec fn spec_block_count(t: GgmlDType, n: nat) -> nat {
    ((n + spec_block_size(t) - 1) as int / spec_block_size(t) as int) as nat
}

/// Size of the packed buffer for `n` elements: `ceil(n / block_size) * block_bytes`.
pub open spec fn spec_storage_size(t: GgmlDType, n: nat) -> nat {
    spec_block_count(t, n) * spec_block_bytes(t)
}

/// Pass-through float formats carry no scale; every other format is quantized.
pub open spec fn spec_is_quantized(t: GgmlDType) -> bool {
    !(t is F32 || t is F16 || t is BF16)
}

impl GgmlDType {
    /// Elements per block.
    pub fn block_size(&self) -> (r: usize)
        ensures
            r == spec_block_size(*self),
            r >= 1,
    {
        match self {
            GgmlDType::F32 | GgmlDType::F16 | GgmlDType::BF16 => 1,
            GgmlDType::Q4_0 | GgmlDType::Q4_1 | GgmlDType::Q5_0 | GgmlDType::Q5_1
            | GgmlDType::Q8_0 | GgmlDType::Q8_1 => 32,
            _ => 256,
        }
    }

    /// Packed bytes per block.
    pub fn type_size(&self) -> (r: usize)
        ensures
            r == spec_block_bytes(*self),
            r >= 1,
    {
        match self {
            GgmlDType::F32 => 4,
            GgmlDType::F16 => 2,
            GgmlDType::BF16 => 2,
            GgmlDType::Q4_0 => 18,
            GgmlDType::Q4_1 => 20,
            GgmlDType::Q5_0 => 22,
            GgmlDType::Q5_1 => 24,
            GgmlDType::Q8_0 => 34,
            GgmlDType::Q8_1 => 36,
            GgmlDType::Q2K => 84,
            GgmlDType::Q3K => 110,
            GgmlDType::Q4K => 144,
            GgmlDType::Q5K => 176,
            GgmlDType::Q6K => 210,
            GgmlDType::Q8K => 292,
        }
    }

    /// False exactly for the pass-through float formats.
    pub fn is_quantized(&self) -> (r: bool)
        ensures
            r == spec_is_quantized(*self),
    {
        !matches!(self, GgmlDType::F32 | GgmlDType::F16 | GgmlDType::BF16)
    }

    /// Bytes needed to hold `elem_count` elements, the tail block zero-padded;
    /// `None` when that size does not fit in `usize`.
    pub fn storage_size_in_bytes(&self, elem_count: usize) -> (r: Option<usize>)
        ensures
            r.is_some() <==> spec_storage_size(*self, elem_count as nat) <= usize::MAX,
            r.is_some() ==> r.unwrap() == spec_storage_size(*self, elem_count as nat),
    {
        let bs = self.block_size();
        let bb = self.type_size();
        let blocks: usize = elem_count / bs + if elem_count % bs == 0 { 0 } else { 1 };
        assert(blocks == spec_block_count(*self, elem_count as nat)) by (nonlinear_arith)
            requires
                bs >= 1,
                blocks == elem_count / bs + if elem_count % bs == 0 { 0int } else { 1int },
                spec_block_count(*self, elem_count as nat) == (elem_count + bs - 1) / (bs as int),
        {
            lemma_ceil_div(elem_count as int, bs as int);
        }
        blocks.checked_mul(bb)
    }
}

/// `(n + b - 1) / b` is `n / b`, plus one when `b` does not divide `n`.
pub proof fn lemma_ceil_div(n: int, b: int)
    requires
        n >= 0,
        b >= 1,
    ensures
        (n + b - 1) / b == n / b + if n % b == 0 { 0int } else { 1int },
{
    let q = n / b;
    let r = n % b;
    assert(n == q * b + r) by (nonlinear_arith)
        requires q == n / b, r == n % b, b >= 1;
    assert(0 <= r < b);
    if r == 0 {
        assert((n + b - 1) / b == q) by (nonlinear_arith)
            requires n == q * b, b >= 1;
    } else {
        assert((n + b - 1) / b == q + 1) by (nonlinear_arith)
            requires n == q * b + r, 1 <= r < b, b >= 1;
    }
}

} // verus!
