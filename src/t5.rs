//! Pieces of the T5 encoder's configuration and attention that are plain
//! decisions: the feed-forward activation named in a config, the causal
//! mask, and the defaults of optional config fields.
use vstd::prelude::*;

verus! {

/// Activation functions a feed-forward block can apply.
#[derive(Clone, Copy, Debug, PartialEq, Eq, Structural)]
pub enum Activation {
    Gelu,
    NewGelu,
    Relu,
    Relu2,
    Relu6,
    Silu,
    Sigmoid,
    HardSigmoid,
    Swiglu,
    Swish,
    HardSwish,
    GeluPytorchTanh,
}

impl Default for Activation {
    fn default() -> (r: Self)
        ensures
            r == Activation::Gelu,
    {
        Activation::Gelu
    }
}

/// The feed-forward activation, and whether a second projection gates it.
#[derive(Clone, Copy, Debug, PartialEq, Eq, Structural)]
pub struct ActivationWithOptionalGating {
    pub gated: bool,
    pub activation: Activation,
}

impl Default for ActivationWithOptionalGating {
    fn default() -> (r: Self)
        ensures
            r == (ActivationWithOptionalGating { gated: false, activation: Activation::Gelu }),
    {
        ActivationWithOptionalGating { gated: false, activation: Activation::Gelu }
    }
}

/// The activation that the config value `name` selects, where `plain` is
/// `name` read as a bare activation name (`None` if it is none).
pub open spec fn spec_feed_forward_proj(name: Seq<char>, plain: Option<Activation>) -> Option<ActivationWithOptionalGating> {
    if name == "gated-gelu"@ {
        Some(ActivationWithOptionalGating { gated: true, activation: Activation::NewGelu })
    } else if name == "gated-silu"@ {
        Some(ActivationWithOptionalGating { gated: true, activation: Activation::Silu })
    } else {
        match plain {
            Some(a) => Some(ActivationWithOptionalGating { gated: false, activation: a }),
            None => None,
        }
    }
}

/// Decodes the `feed_forward_proj` config value: `gated-gelu` and
/// `gated-silu` name gated blocks; any other value must be a bare activation
/// name, already read into `plain`; `None` rejects the value.
pub fn feed_forward_proj_activation(name: &String, plain: Option<Activation>) -> (r: Option<ActivationWithOptionalGating>)
    ensures
        r == spec_feed_forward_proj(name@, plain),
{
    let gelu = "gated-gelu".to_owned();
    let silu = "gated-silu".to_owned();
    proof {
        reveal_strlit("gated-gelu");
        reveal_strlit("gated-silu");
    }
    if name.eq(&gelu) {
        Some(ActivationWithOptionalGating { gated: true, activation: Activation::NewGelu })
    } else if name.eq(&silu) {
        Some(ActivationWithOptionalGating { gated: true, activation: Activation::Silu })
    } else {
        match plain {
            Some(a) => Some(ActivationWithOptionalGating { gated: false, activation: a }),
            None => None,
        }
    }
}

/// Causal mask of a `size x size` attention: entry `(i, j)`, row-major, is
/// 1 where key `j` lies after query `i` and must be hidden, else 0.
pub fn get_mask(size: usize) -> (r: Vec<u8>)
    requires
        size * size <= usize::MAX,
    ensures
        r@.len() == size * size,
        forall|i: int, j: int| 0 <= i < size && 0 <= j < size ==>
            #[trigger] r@[i * size + j] == (if j > i { 1u8 } else { 0u8 }),
{
    let mut r: Vec<u8> = Vec::new();
    let mut i: usize = 0;
    while i < size
        invariant
            size * size <= usize::MAX,
            i <= size,
            r@.len() == i * size,
            forall|a: int, b: int| 0 <= a < i && 0 <= b < size ==>
                #[trigger] r@[a * size + b] == (if b > a { 1u8 } else { 0u8 }),
        decreases size - i,
    {
        proof {
            assert(i * size + size <= size * size) by (nonlinear_arith)
                requires i < size;
        }
        let mut j: usize = 0;
        while j < size
            invariant
                size * size <= usize::MAX,
                i < size,
                i * size + size <= size * size,
                j <= size,
                r@.len() == i * size + j,
                forall|a: int, b: int| 0 <= a < i && 0 <= b < size ==>
                    #[trigger] r@[a * size + b] == (if b > a { 1u8 } else { 0u8 }),
                forall|b: int| 0 <= b < j ==> #[trigger] r@[i * size + b] == (if b > i { 1u8 } else { 0u8 }),
            decreases size - j,
        {
            let ghost before = r@;
            r.push(if j > i { 1u8 } else { 0u8 });
            proof {
                assert forall|a: int, b: int| 0 <= a < i && 0 <= b < size implies
                    #[trigger] r@[a * size + b] == (if b > a { 1u8 } else { 0u8 }) by {
                    assert(a * size + b < i * size) by (nonlinear_arith)
                        requires 0 <= a < i, 0 <= b < size;
                    assert(r@[a * size + b] == before[a * size + b]);
                }
            }
            j = j + 1;
        }
        i = i + 1;
        proof {
            assert(r@.len() == i * size) by (nonlinear_arith)
                requires r@.len() == (i - 1) * size + size;
            assert forall|a: int, b: int| 0 <= a < i && 0 <= b < size implies
                #[trigger] r@[a * size + b] == (if b > a { 1u8 } else { 0u8 }) by {
                if a == i - 1 {
                    assert(r@[(i - 1) * size + b] == (if b > a { 1u8 } else { 0u8 }));
                }
            }
        }
    }
    r
}

/// Default longest relative distance of the attention position buckets.
pub fn default_relative_attention_max_distance() -> (r: usize)
    ensures
        r == 128,
{
    128
}

/// A config describes an encoder unless it says otherwise.
pub fn default_is_decoder() -> (r: bool)
    ensures
        !r,
{
    false
}

/// The key/value cache is on unless the config says otherwise.
pub fn default_use_cache() -> (r: bool)
    ensures
        r,
{
    true
}

} // verus!
