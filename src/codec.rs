//! The packed block codec: the byte layout of each supported format, the
//! importance-weighted choice of a block's scale, and exact decoding.
//!
//! Dense values are fixed-point integers: `i16` samples are quantized, and a
//! decoded value is `min + scale * code`, an exact integer.
use vstd::prelude::*;
use crate::dtype::{GgmlDType, spec_block_size, spec_block_bytes, spec_block_count};

verus! {

/// Elements per block of every format the codec packs.
pub const QK: usize = 32;

/// How many scales, from the smallest that covers the block upwards, the
/// encoder weighs against each other.
pub const SCALE_CANDIDATES: usize = 4;

/// Formats with a packing in this codec: two symmetric ones (scale only) and
/// one asymmetric one (scale and minimum).
pub open spec fn codec_supported(t: GgmlDType) -> bool {
    t is Q4_0 || t is Q4_1 || t is Q8_0
}

/// Byte offset of the element codes within a block.
pub open spec fn codes_offset(t: GgmlDType) -> int {
    if t is Q4_1 { 4 } else { 2 }
}

/// Little-endian unsigned 16-bit value at `o`.
pub open spec fn u16_at(b: Seq<u8>, o: int) -> int {
    b[o] + 256 * b[o + 1]
}

/// Little-endian two's-complement 16-bit value at `o`.
pub open spec fn i16_at(b: Seq<u8>, o: int) -> int {
    let u = u16_at(b, o);
    if u >= 32768 { u - 65536 } else { u }
}

/// A byte read as a two's-complement 8-bit value.
pub open spec fn i8_of(x: u8) -> int {
    if x >= 128 { x - 256 } else { x as int }
}

/// The 4-bit field of element `j` of a block whose nibbles start at `base`:
/// low nibbles hold elements 0..16, high nibbles elements 16..32.
pub open spec fn nibble(b: Seq<u8>, base: int, j: int) -> int {
    if j < 16 { (b[base + j] % 16) as int } else { (b[base + j - 16] / 16) as int }
}

/// Scale of the block at byte offset `off`.
pub open spec fn block_scale_at(b: Seq<u8>, off: int) -> int {
    u16_at(b, off)
}

/// Minimum of the block at `off` (zero for symmetric formats).
pub open spec fn block_min_at(t: GgmlDType, b: Seq<u8>, off: int) -> int {
    if t is Q4_1 { i16_at(b, off + 2) } else { 0 }
}

/// Signed code of element `j` of the block at `off`.
pub open spec fn block_code_at(t: GgmlDType, b: Seq<u8>, off: int, j: int) -> int {
    match t {
        GgmlDType::Q8_0 => i8_of(b[off + 2 + j]),
        GgmlDType::Q4_0 => nibble(b, off + 2, j) - 8,
        _ => nibble(b, off + 4, j),
    }
}

/// Decoded value of element `j` of the block at `off`.
pub open spec fn block_value_at(t: GgmlDType, b: Seq<u8>, off: int, j: int) -> int {
    block_min_at(t, b, off) + block_scale_at(b, off) * block_code_at(t, b, off, j)
}

/// Decoded value of element `i` of a packed buffer.
pub open spec fn elem_value(t: GgmlDType, b: Seq<u8>, i: int) -> int {
    block_value_at(t, b, (i / QK as int) * spec_block_bytes(t), i % QK as int)
}

/// Every decoded value fits comfortably in 24 bits.
pub proof fn lemma_block_value_bound(t: GgmlDType, b: Seq<u8>, off: int, j: int)
    requires
        codec_supported(t),
        0 <= off,
        0 <= j < QK,
        off + spec_block_bytes(t) <= b.len(),
    ensures
        -0x80_0000 <= block_value_at(t, b, off, j) <= 0x80_0000,
{
    let d = block_scale_at(b, off);
    let q = block_code_at(t, b, off, j);
    assert(0 <= d <= 65535);
    if t is Q8_0 {
        assert(-128 <= q <= 127);
        assert(-128 * 65535 <= d * q <= 127 * 65535) by (nonlinear_arith)
            requires 0 <= d <= 65535, -128 <= q <= 127;
    } else if t is Q4_0 {
        assert(-8 <= q <= 7);
        assert(-8 * 65535 <= d * q <= 7 * 65535) by (nonlinear_arith)
            requires 0 <= d <= 65535, -8 <= q <= 7;
    } else {
        assert(0 <= q <= 15);
        assert(0 <= d * q <= 15 * 65535) by (nonlinear_arith)
            requires 0 <= d <= 65535, 0 <= q <= 15;
    }
}

/// Byte offset of block `blk` lies inside a buffer of `count` blocks.
pub proof fn lemma_block_in_buffer(blk: int, count: int, bb: int)
    requires
        0 <= blk < count,
        bb >= 1,
    ensures
        0 <= blk * bb,
        blk * bb + bb <= count * bb,
{
    assert(blk * bb + bb <= count * bb) by (nonlinear_arith)
        requires 0 <= blk < count, bb >= 1;
    assert(0 <= blk * bb) by (nonlinear_arith)
        requires 0 <= blk, bb >= 1;
}

/// Reads the decoded value of element `j` of the block at byte offset `off`.
pub fn decode_value(t: GgmlDType, b: &Vec<u8>, off: usize, j: usize) -> (r: i32)
    requires
        codec_supported(t),
        j < QK,
        off + spec_block_bytes(t) <= b@.len(),
    ensures
        r as int == block_value_at(t, b@, off as int, j as int),
{
    proof { lemma_block_value_bound(t, b@, off as int, j as int); }
    let _len = b.len();
    let d: i32 = b[off] as i32 + 256 * (b[off + 1] as i32);
    let (m, q): (i32, i32) = match t {
        GgmlDType::Q8_0 => {
            let x: u8 = b[off + 2 + j];
            (0, if x >= 128 { x as i32 - 256 } else { x as i32 })
        },
        GgmlDType::Q4_0 => {
            let n: i32 = if j < 16 { (b[off + 2 + j] % 16) as i32 } else { (b[off + 2 + (j - 16)] / 16) as i32 };
            (0, n - 8)
        },
        _ => {
            let u: i32 = b[off + 2] as i32 + 256 * (b[off + 3] as i32);
            let n: i32 = if j < 16 { (b[off + 4 + j] % 16) as i32 } else { (b[off + 4 + (j - 16)] / 16) as i32 };
            (if u >= 32768 { u - 65536 } else { u }, n)
        },
    };
    assert(-0x80_0000 <= d * q <= 0x80_0000) by (nonlinear_arith)
        requires 0 <= d <= 65535, -128 <= q <= 127;
    m + d * q
}

/// Decodes the first `n` elements of a packed buffer of whole blocks.
pub fn decode_all(t: GgmlDType, b: &Vec<u8>, n: usize) -> (r: Vec<i32>)
    requires
        codec_supported(t),
        b@.len() == spec_block_count(t, n as nat) * spec_block_bytes(t),
    ensures
        r@.len() == n,
        forall|i: int| 0 <= i < n ==> r@[i] as int == elem_value(t, b@, i),
{
    let bb = t.type_size();
    let _len = b.len();
    let mut r: Vec<i32> = Vec::with_capacity(n);
    let mut i: usize = 0;
    while i < n
        invariant
            codec_supported(t),
            bb == spec_block_bytes(t),
            b@.len() == spec_block_count(t, n as nat) * spec_block_bytes(t),
            b@.len() <= usize::MAX,
            i <= n,
            r@.len() == i,
            forall|k: int| 0 <= k < i ==> r@[k] as int == elem_value(t, b@, k),
        decreases n - i,
    {
        let blk: usize = i / QK;
        proof {
            assert(spec_block_size(t) == QK);
            crate::dtype::lemma_ceil_div(n as int, QK as int);
            assert(blk < spec_block_count(t, n as nat));
            lemma_block_in_buffer(blk as int, spec_block_count(t, n as nat) as int, bb as int);
            assert(blk * bb + bb <= b@.len());
        }
        let v = decode_value(t, b, blk * bb, i % QK);
        r.push(v);
        i = i + 1;
    }
    r
}


/// Largest code magnitude of the format (symmetric) or largest code (asymmetric).
pub open spec fn qmax(t: GgmlDType) -> int {
    match t {
        GgmlDType::Q8_0 => 127,
        GgmlDType::Q4_0 => 7,
        _ => 15,
    }
}

/// Smallest code the format stores.
pub open spec fn code_lo(t: GgmlDType) -> int {
    if t is Q4_1 { 0 } else { -qmax(t) }
}

pub open spec fn abs_of(x: int) -> int {
    if x < 0 { -x } else { x }
}

/// Largest magnitude among the first `n` samples.
pub open spec fn seq_amax(xs: Seq<i16>, n: nat) -> int
    decreases n,
{
    if n == 0 {
        0
    } else {
        let a = abs_of(xs[n - 1] as int);
        let r = seq_amax(xs, (n - 1) as nat);
        if a > r { a } else { r }
    }
}

/// Smallest of the first `n` samples (`n >= 1`).
pub open spec fn seq_min(xs: Seq<i16>, n: nat) -> int
    decreases n,
{
    if n <= 1 {
        xs[0] as int
    } else {
        let r = seq_min(xs, (n - 1) as nat);
        if (xs[n - 1] as int) < r { xs[n - 1] as int } else { r }
    }
}

/// Largest of the first `n` samples (`n >= 1`).
pub open spec fn seq_max(xs: Seq<i16>, n: nat) -> int
    decreases n,
{
    if n <= 1 {
        xs[0] as int
    } else {
        let r = seq_max(xs, (n - 1) as nat);
        if (xs[n - 1] as int) > r { xs[n - 1] as int } else { r }
    }
}

/// The block's minimum: the smallest sample for the asymmetric format, else zero.
pub open spec fn block_base(t: GgmlDType, xs: Seq<i16>) -> int {
    if t is Q4_1 { seq_min(xs, QK as nat) } else { 0 }
}

/// The smallest scale under which every sample of the block is in code range.
pub open spec fn first_scale(t: GgmlDType, xs: Seq<i16>) -> int {
    if t is Q4_1 {
        (seq_max(xs, QK as nat) - seq_min(xs, QK as nat) + 14) / 15
    } else {
        (seq_amax(xs, QK as nat) + qmax(t) - 1) / qmax(t)
    }
}

/// `a / d` rounded to nearest, halves away from zero (`d > 0`).
pub open spec fn round_div(a: int, d: int) -> int {
    if a >= 0 { (2 * a + d) / (2 * d) } else { -((-2 * a + d) / (2 * d)) }
}

/// Code stored for sample `x` under minimum `m` and scale `d`.
pub open spec fn code(t: GgmlDType, x: int, m: int, d: int) -> int {
    if d <= 0 {
        0
    } else {
        let q = round_div(x - m, d);
        if q < code_lo(t) { code_lo(t) } else if q > qmax(t) { qmax(t) } else { q }
    }
}

/// Weighted squared reconstruction error of one sample.
pub open spec fn err_term(t: GgmlDType, x: int, w: int, m: int, d: int) -> int {
    let e = x - m - d * code(t, x, m, d);
    w * (e * e)
}

/// Weighted squared reconstruction error of the first `n` samples of a block.
pub open spec fn block_err(t: GgmlDType, xs: Seq<i16>, ws: Seq<u32>, m: int, d: int, n: nat) -> int
    decreases n,
{
    if n == 0 {
        0
    } else {
        block_err(t, xs, ws, m, d, (n - 1) as nat) + err_term(t, xs[n - 1] as int, ws[n - 1] as int, m, d)
    }
}

/// Among scales `d0 .. d0 + k`, the first one with the least weighted error.
pub open spec fn best_scale(t: GgmlDType, xs: Seq<i16>, ws: Seq<u32>, m: int, d0: int, k: nat) -> int
    decreases k,
{
    if k <= 1 {
        d0
    } else {
        let prev = best_scale(t, xs, ws, m, d0, (k - 1) as nat);
        let c = d0 + k - 1;
        if block_err(t, xs, ws, m, c, QK as nat) < block_err(t, xs, ws, m, prev, QK as nat) {
            c
        } else {
            prev
        }
    }
}

/// The scale the encoder stores for a block.
pub open spec fn chosen_scale(t: GgmlDType, xs: Seq<i16>, ws: Seq<u32>) -> int {
    best_scale(t, xs, ws, block_base(t, xs), first_scale(t, xs), SCALE_CANDIDATES as nat)
}

/// Code of element `j` of the encoded block.
pub open spec fn chosen_code(t: GgmlDType, xs: Seq<i16>, ws: Seq<u32>, j: int) -> int {
    code(t, xs[j] as int, block_base(t, xs), chosen_scale(t, xs, ws))
}

/// Byte `p` of a block holding samples `xs` under minimum `m` and scale `d`.
pub open spec fn block_byte(t: GgmlDType, xs: Seq<i16>, m: int, d: int, p: int) -> int {
    if p == 0 {
        d % 256
    } else if p == 1 {
        d / 256
    } else if t is Q4_1 && p == 2 {
        ((m + 65536) % 65536) % 256
    } else if t is Q4_1 && p == 3 {
        ((m + 65536) % 65536) / 256
    } else if t is Q4_1 {
        code(t, xs[p - 4] as int, m, d) + 16 * code(t, xs[p - 4 + 16] as int, m, d)
    } else if t is Q4_0 {
        (code(t, xs[p - 2] as int, m, d) + 8) + 16 * (code(t, xs[p - 2 + 16] as int, m, d) + 8)
    } else {
        (code(t, xs[p - 2] as int, m, d) + 256) % 256
    }
}

/// Byte `p` of the block that encodes samples `xs` under importance `ws`.
pub open spec fn packed_byte(t: GgmlDType, xs: Seq<i16>, ws: Seq<u32>, p: int) -> int {
    block_byte(t, xs, block_base(t, xs), chosen_scale(t, xs, ws), p)
}

/// Samples of block `blk` of a padded buffer.
pub open spec fn block_of<A>(s: Seq<A>, blk: int) -> Seq<A> {
    s.subrange(blk * QK as int, blk * QK as int + QK as int)
}

/// Byte `i` of the packed buffer that encodes the padded samples `xs` under
/// importance `ws`, block by block.
pub open spec fn encoded_byte(t: GgmlDType, xs: Seq<i16>, ws: Seq<u32>, i: int) -> int {
    let bb = spec_block_bytes(t) as int;
    packed_byte(t, block_of(xs, i / bb), block_of(ws, i / bb), i % bb)
}

/// Computes the block's minimum and smallest covering scale.
fn block_stats(t: GgmlDType, xs: &Vec<i16>) -> (r: (i32, i32))
    requires
        codec_supported(t),
        xs@.len() == QK,
    ensures
        r.0 as int == block_base(t, xs@),
        r.1 as int == first_scale(t, xs@),
        -32768 <= r.0 <= 32767,
        0 <= r.1 <= 4682,
{
    let mut amax: i32 = 0;
    let mut lo: i32 = xs[0] as i32;
    let mut hi: i32 = xs[0] as i32;
    let mut i: usize = 0;
    while i < QK
        invariant
            xs@.len() == QK,
            i <= QK,
            amax as int == seq_amax(xs@, i as nat),
            0 <= amax <= 32768,
            i >= 1 ==> lo as int == seq_min(xs@, i as nat) && hi as int == seq_max(xs@, i as nat),
            i == 0 ==> lo == xs@[0] && hi == xs@[0],
            -32768 <= lo <= hi <= 32767,
        decreases QK - i,
    {
        let x: i32 = xs[i] as i32;
        let a: i32 = if x < 0 { -x } else { x };
        if a > amax {
            amax = a;
        }
        if i >= 1 {
            if x < lo {
                lo = x;
            }
            if x > hi {
                hi = x;
            }
        }
        i = i + 1;
    }
    if matches!(t, GgmlDType::Q4_1) {
        (lo, (hi - lo + 14) / 15)
    } else {
        let q: i32 = if matches!(t, GgmlDType::Q8_0) { 127 } else { 7 };
        (0, (amax + q - 1) / q)
    }
}

/// The code of one sample.
fn code_of(t: GgmlDType, x: i16, m: i32, d: i32) -> (r: i32)
    requires
        codec_supported(t),
        -32768 <= m <= 32767,
        0 <= d <= 65535,
    ensures
        r as int == code(t, x as int, m as int, d as int),
        code_lo(t) <= r <= qmax(t),
{
    if d <= 0 {
        return 0;
    }
    let a: i64 = x as i64 - m as i64;
    let d2: i64 = 2 * d as i64;
    let q: i64 = if a >= 0 {
        (2 * a + d as i64) / d2
    } else {
        let na: i64 = -a;
        -((2 * na + d as i64) / d2)
    };
    let hi: i64 = match t {
        GgmlDType::Q8_0 => 127,
        GgmlDType::Q4_0 => 7,
        _ => 15,
    };
    let lo: i64 = if matches!(t, GgmlDType::Q4_1) { 0 } else { -hi };
    if q < lo {
        lo as i32
    } else if q > hi {
        hi as i32
    } else {
        q as i32
    }
}

/// Bound on one weighted error term.
proof fn lemma_err_term_bound(t: GgmlDType, x: int, w: int, m: int, d: int)
    requires
        codec_supported(t),
        -32768 <= x <= 32767,
        -32768 <= m <= 32767,
        0 <= d <= 65535,
        0 <= w <= 0xffff_ffff,
    ensures
        0 <= err_term(t, x, w, m, d) <= 0x1_0000_0000_0000_0000_0000,
{
    let q = code(t, x, m, d);
    assert(-127 <= q <= 127);
    let e = x - m - d * q;
    assert(-0x80_0000 <= d * q <= 0x80_0000) by (nonlinear_arith)
        requires 0 <= d <= 65535, -127 <= q <= 127;
    assert(0 <= e * e <= 0x1_0000_0000_0000) by (nonlinear_arith)
        requires -0x90_0000 <= e <= 0x90_0000;
    assert(0 <= w * (e * e) <= 0x1_0000_0000_0000_0000_0000) by (nonlinear_arith)
        requires 0 <= e * e <= 0x1_0000_0000_0000, 0 <= w <= 0xffff_ffff;
}

/// Weighted squared error of a whole block under minimum `m` and scale `d`.
fn block_error(t: GgmlDType, xs: &Vec<i16>, ws: &Vec<u32>, m: i32, d: i32) -> (r: u128)
    requires
        codec_supported(t),
        xs@.len() == QK,
        ws@.len() == QK,
        -32768 <= m <= 32767,
        0 <= d <= 65535,
    ensures
        r as int == block_err(t, xs@, ws@, m as int, d as int, QK as nat),
{
    let mut acc: u128 = 0;
    let mut i: usize = 0;
    while i < QK
        invariant
            codec_supported(t),
            xs@.len() == QK,
            ws@.len() == QK,
            -32768 <= m <= 32767,
            0 <= d <= 65535,
            i <= QK,
            acc as int == block_err(t, xs@, ws@, m as int, d as int, i as nat),
            acc <= i * 0x1_0000_0000_0000_0000_0000,
        decreases QK - i,
    {
        let q = code_of(t, xs[i], m, d);
        proof { lemma_err_term_bound(t, xs@[i as int] as int, ws@[i as int] as int, m as int, d as int); }
        assert(-0x80_0000 <= d * q <= 0x80_0000) by (nonlinear_arith)
            requires 0 <= d <= 65535, -127 <= q <= 127;
        let e: i64 = xs[i] as i64 - m as i64 - (d as i64) * (q as i64);
        assert(0 <= e * e <= 0x1_0000_0000_0000) by (nonlinear_arith)
            requires -0x90_0000 <= e <= 0x90_0000;
        let e2: u128 = (e * e) as u128;
        let term: u128 = ws[i] as u128 * e2;
        acc = acc + term;
        i = i + 1;
    }
    acc
}

/// Scale with the least weighted error among the candidates, first on ties.
fn pick_scale(t: GgmlDType, xs: &Vec<i16>, ws: &Vec<u32>, m: i32, d0: i32) -> (r: i32)
    requires
        codec_supported(t),
        xs@.len() == QK,
        ws@.len() == QK,
        -32768 <= m <= 32767,
        0 <= d0 <= 4682,
    ensures
        r as int == best_scale(t, xs@, ws@, m as int, d0 as int, SCALE_CANDIDATES as nat),
        d0 <= r < d0 + SCALE_CANDIDATES,
{
    let mut best: i32 = d0;
    let mut best_err: u128 = block_error(t, xs, ws, m, d0);
    let mut k: usize = 1;
    while k < SCALE_CANDIDATES
        invariant
            codec_supported(t),
            xs@.len() == QK,
            ws@.len() == QK,
            -32768 <= m <= 32767,
            0 <= d0 <= 4682,
            1 <= k <= SCALE_CANDIDATES,
            best as int == best_scale(t, xs@, ws@, m as int, d0 as int, k as nat),
            d0 <= best < d0 + k,
            best_err as int == block_err(t, xs@, ws@, m as int, best as int, QK as nat),
        decreases SCALE_CANDIDATES - k,
    {
        let c: i32 = d0 + k as i32;
        let e = block_error(t, xs, ws, m, c);
        if e < best_err {
            best = c;
            best_err = e;
        }
        k = k + 1;
    }
    best
}

/// Appends the packed block that encodes `xs` under importance `ws`.
fn encode_block(t: GgmlDType, xs: &Vec<i16>, ws: &Vec<u32>, out: &mut Vec<u8>)
    requires
        codec_supported(t),
        xs@.len() == QK,
        ws@.len() == QK,
    ensures
        final(out)@.len() == old(out)@.len() + spec_block_bytes(t),
        forall|i: int| 0 <= i < old(out)@.len() ==> final(out)@[i] == old(out)@[i],
        forall|p: int| 0 <= p < spec_block_bytes(t) ==>
            final(out)@[old(out)@.len() + p] as int == packed_byte(t, xs@, ws@, p),
{
    let (m, d0) = block_stats(t, xs);
    let d = pick_scale(t, xs, ws, m, d0);
    let ghost start = out@.len();
    out.push((d % 256) as u8);
    out.push((d / 256) as u8);
    let ghost head: nat = if t is Q4_1 { 4 } else { 2 };
    if matches!(t, GgmlDType::Q4_1) {
        let mu: i32 = (m + 65536) % 65536;
        out.push((mu % 256) as u8);
        out.push((mu / 256) as u8);
    }
    if matches!(t, GgmlDType::Q8_0) {
        let mut j: usize = 0;
        while j < QK
            invariant
                t is Q8_0,
                start == old(out)@.len(),
                xs@.len() == QK,
                ws@.len() == QK,
                -32768 <= m <= 32767,
                0 <= d <= 65535,
                m as int == block_base(t, xs@),
                d as int == chosen_scale(t, xs@, ws@),
                j <= QK,
                out@.len() == start + 2 + j,
                forall|i: int| 0 <= i < start ==> out@[i] == old(out)@[i],
                forall|p: int| 0 <= p < 2 + j ==> out@[start + p] as int == packed_byte(t, xs@, ws@, p),
            decreases QK - j,
        {
            let q = code_of(t, xs[j], m, d);
            out.push(((q + 256) % 256) as u8);
            j = j + 1;
        }
    } else {
        let off: i32 = if matches!(t, GgmlDType::Q4_0) { 8 } else { 0 };
        let mut j: usize = 0;
        while j < 16
            invariant
                t is Q4_0 || t is Q4_1,
                off == (if t is Q4_0 { 8int } else { 0int }),
                head == (if t is Q4_1 { 4nat } else { 2nat }),
                start == old(out)@.len(),
                xs@.len() == QK,
                ws@.len() == QK,
                -32768 <= m <= 32767,
                0 <= d <= 65535,
                m as int == block_base(t, xs@),
                d as int == chosen_scale(t, xs@, ws@),
                j <= 16,
                out@.len() == start + head + j,
                forall|i: int| 0 <= i < start ==> out@[i] == old(out)@[i],
                forall|p: int| 0 <= p < head + j ==> out@[start + p] as int == packed_byte(t, xs@, ws@, p),
            decreases 16 - j,
        {
            let lo = code_of(t, xs[j], m, d);
            let hi = code_of(t, xs[j + 16], m, d);
            assert(0 <= lo + off <= 15 && 0 <= hi + off <= 15);
            let byte: u8 = ((lo + off) + 16 * (hi + off)) as u8;
            assert(byte as int == packed_byte(t, xs@, ws@, head + j));
            out.push(byte);
            j = j + 1;
        }
    }
}


/// `xs` extended with zero samples to `total` elements.
pub open spec fn padded(xs: Seq<i16>, total: nat) -> Seq<i16> {
    Seq::new(total, |i: int| if i < xs.len() { xs[i] } else { 0i16 })
}

/// Importance of an unweighted encoding: one for each of the `n` real
/// samples, zero for the padding up to `total`.
pub open spec fn unit_weights(n: nat, total: nat) -> Seq<u32> {
    Seq::new(total, |i: int| if i < n { 1u32 } else { 0u32 })
}

/// Importance of a weighted encoding: sample `i` takes `ws[i % row]`, so each
/// row of `row` samples shares the vector; padding takes zero.
pub open spec fn row_weights(ws: Seq<u32>, row: nat, n: nat, total: nat) -> Seq<u32> {
    Seq::new(total, |i: int| if i < n { ws[i % (row as int)] } else { 0u32 })
}

/// Number of samples of the padded encoding of `n` samples.
pub open spec fn padded_len(n: nat) -> nat {
    spec_block_count(GgmlDType::Q8_0, n) * QK as nat
}

/// `b` is the packed encoding of the padded samples `xs` under importance `ws`.
pub open spec fn is_encoding(t: GgmlDType, xs: Seq<i16>, ws: Seq<u32>, b: Seq<u8>) -> bool {
    &&& b.len() == ((xs.len() as int) / (QK as int)) * spec_block_bytes(t)
    &&& forall|i: int| 0 <= i < b.len() ==> #[trigger] b[i] as int == encoded_byte(t, xs, ws, i)
}

/// Packs padded samples block by block.
fn encode_all(t: GgmlDType, xs: &Vec<i16>, ws: &Vec<u32>) -> (r: Vec<u8>)
    requires
        codec_supported(t),
        (xs@.len() as int) % (QK as int) == 0,
        ws@.len() == xs@.len(),
        ((xs@.len() as int) / (QK as int)) * spec_block_bytes(t) <= usize::MAX,
    ensures
        is_encoding(t, xs@, ws@, r@),
{
    let bb = t.type_size();
    let nblocks: usize = xs.len() / QK;
    let _len = xs.len();
    let mut r: Vec<u8> = Vec::new();
    let mut blk: usize = 0;
    while blk < nblocks
        invariant
            codec_supported(t),
            bb == spec_block_bytes(t),
            nblocks == (xs@.len() as int) / (QK as int),
            (xs@.len() as int) % (QK as int) == 0,
            ws@.len() == xs@.len(),
            xs@.len() <= usize::MAX,
            blk <= nblocks,
            r@.len() == blk * bb,
            forall|i: int| 0 <= i < r@.len() ==> #[trigger] r@[i] as int == encoded_byte(t, xs@, ws@, i),
        decreases nblocks - blk,
    {
        assert(blk * QK + QK <= xs@.len()) by (nonlinear_arith)
            requires blk < nblocks, nblocks == (xs@.len() as int) / (QK as int), (xs@.len() as int) % (QK as int) == 0;
        let mut bx: Vec<i16> = Vec::with_capacity(QK);
        let mut bw: Vec<u32> = Vec::with_capacity(QK);
        let base: usize = blk * QK;
        let mut j: usize = 0;
        while j < QK
            invariant
                base + QK <= xs@.len(),
                xs@.len() <= usize::MAX,
                ws@.len() == xs@.len(),
                j <= QK,
                bx@ == xs@.subrange(base as int, base + j),
                bw@ == ws@.subrange(base as int, base + j),
            decreases QK - j,
        {
            bx.push(xs[base + j]);
            bw.push(ws[base + j]);
            j = j + 1;
            proof {
                assert(bx@ =~= xs@.subrange(base as int, base + j));
                assert(bw@ =~= ws@.subrange(base as int, base + j));
            }
        }
        let ghost before = r@;
        encode_block(t, &bx, &bw, &mut r);
        proof {
            assert(bx@ == block_of(xs@, blk as int));
            assert(bw@ == block_of(ws@, blk as int));
            assert forall|i: int| 0 <= i < r@.len() implies #[trigger] r@[i] as int == encoded_byte(t, xs@, ws@, i) by {
                if i >= before.len() {
                    let p = i - before.len();
                    lemma_div_mod_block(blk as int, bb as int, p);
                    assert(i == blk * bb + p);
                    assert(r@[before.len() + p] as int == packed_byte(t, bx@, bw@, p));
                } else {
                    assert(r@[i] == before[i]);
                }
            }
            assert(r@.len() == (blk + 1) * bb) by (nonlinear_arith)
                requires r@.len() == blk * bb + bb;
        }
        blk = blk + 1;
    }
    r
}

/// Position `blk * bb + p` is byte `p` of block `blk`.
pub proof fn lemma_div_mod_block(blk: int, bb: int, p: int)
    requires
        0 <= blk,
        bb >= 1,
        0 <= p < bb,
    ensures
        (blk * bb + p) / bb == blk,
        (blk * bb + p) % bb == p,
{
    vstd::arithmetic::div_mod::lemma_fundamental_div_mod_converse(blk * bb + p, bb, blk, p);
}

/// `xs` zero-padded to whole blocks.
fn pad_samples(xs: &Vec<i16>, total: usize) -> (r: Vec<i16>)
    requires
        xs@.len() <= total,
    ensures
        r@ == padded(xs@, total as nat),
{
    let mut r: Vec<i16> = Vec::with_capacity(total);
    let mut i: usize = 0;
    while i < total
        invariant
            xs@.len() <= total,
            i <= total,
            r@ == padded(xs@, total as nat).subrange(0, i as int),
        decreases total - i,
    {
        let v: i16 = if i < xs.len() { xs[i] } else { 0 };
        r.push(v);
        i = i + 1;
        proof { assert(r@ =~= padded(xs@, total as nat).subrange(0, i as int)); }
    }
    proof { assert(r@ =~= padded(xs@, total as nat)); }
    r
}

/// Importance for each of `total` padded samples, `n` of them real: one each
/// when `ws` is `None`, else `ws[i % ws.len()]`.
fn expand_weights(ws: Option<&Vec<u32>>, n: usize, total: usize) -> (r: Vec<u32>)
    requires
        n <= total,
        ws.is_some() ==> ws.unwrap()@.len() >= 1,
    ensures
        ws.is_none() ==> r@ == unit_weights(n as nat, total as nat),
        ws.is_some() ==> r@ == row_weights(ws.unwrap()@, ws.unwrap()@.len(), n as nat, total as nat),
{
    let ghost target = match ws {
        None => unit_weights(n as nat, total as nat),
        Some(w) => row_weights(w@, w@.len(), n as nat, total as nat),
    };
    let mut r: Vec<u32> = Vec::with_capacity(total);
    let mut i: usize = 0;
    while i < total
        invariant
            n <= total,
            ws.is_some() ==> ws.unwrap()@.len() >= 1,
            target == (match ws {
                None => unit_weights(n as nat, total as nat),
                Some(w) => row_weights(w@, w@.len(), n as nat, total as nat),
            }),
            i <= total,
            r@ == target.subrange(0, i as int),
        decreases total - i,
    {
        let v: u32 = if i >= n {
            0
        } else {
            match ws {
                None => 1,
                Some(w) => w[i % w.len()],
            }
        };
        r.push(v);
        i = i + 1;
        proof { assert(r@ =~= target.subrange(0, i as int)); }
    }
    proof { assert(r@ =~= target); }
    r
}

/// Packed encoding of `xs`, zero-padded to whole blocks, under the importance
/// that `ws` gives (see `unit_weights` and `row_weights`).
pub open spec fn encodes(t: GgmlDType, xs: Seq<i16>, ws: Option<Seq<u32>>, b: Seq<u8>) -> bool {
    let total = padded_len(xs.len());
    let w = match ws {
        None => unit_weights(xs.len(), total),
        Some(v) => row_weights(v, v.len(), xs.len(), total),
    };
    is_encoding(t, padded(xs, total), w, b)
}

/// Quantizes samples into packed blocks; `weights`, when given, is an
/// importance vector repeated over each row of `weights.len()` samples.
pub fn quantize_samples(t: GgmlDType, xs: &Vec<i16>, weights: Option<&Vec<u32>>) -> (r: Vec<u8>)
    requires
        codec_supported(t),
        spec_block_count(t, xs@.len()) * spec_block_bytes(t) <= usize::MAX,
        xs@.len() + QK <= usize::MAX,
        weights.is_some() ==> weights.unwrap()@.len() >= 1,
    ensures
        encodes(t, xs@, match weights { None => None, Some(w) => Some(w@) }, r@),
        r@.len() == spec_block_count(t, xs@.len()) * spec_block_bytes(t),
{
    let n = xs.len();
    let nblocks: usize = n / QK + if n % QK == 0 { 0 } else { 1 };
    proof {
        crate::dtype::lemma_ceil_div(n as int, QK as int);
        assert(spec_block_size(t) == QK);
        assert(nblocks == spec_block_count(t, n as nat));
        assert(nblocks == spec_block_count(GgmlDType::Q8_0, n as nat));
        assert(nblocks * QK <= usize::MAX) by (nonlinear_arith)
            requires nblocks <= (n as int) / (QK as int) + 1, n + QK <= usize::MAX;
        assert(n <= nblocks * QK) by (nonlinear_arith)
            requires nblocks == (n as int) / (QK as int) + if (n as int) % (QK as int) == 0 { 0int } else { 1int };
    }
    let total: usize = nblocks * QK;
    let px = pad_samples(xs, total);
    let pw = expand_weights(weights, n, total);
    proof {
        assert((total as int) % (QK as int) == 0) by (nonlinear_arith) requires total == nblocks * QK;
        assert((total as int) / (QK as int) == nblocks) by (nonlinear_arith) requires total == nblocks * QK;
    }
    encode_all(t, &px, &pw)
}

/// Decodes the first `n` values of a packed buffer.
pub fn dequantize_bytes(t: GgmlDType, b: &Vec<u8>, n: usize) -> (r: Vec<i32>)
    requires
        codec_supported(t),
        b@.len() == spec_block_count(t, n as nat) * spec_block_bytes(t),
    ensures
        r@.len() == n,
        forall|i: int| 0 <= i < n ==> r@[i] as int == elem_value(t, b@, i),
{
    decode_all(t, b, n)
}


/// Range facts on the block statistics.
proof fn lemma_stats(xs: Seq<i16>, n: nat)
    requires
        1 <= n <= xs.len(),
    ensures
        0 <= seq_amax(xs, n) <= 32768,
        -32768 <= seq_min(xs, n) <= seq_max(xs, n) <= 32767,
        forall|k: int| 0 <= k < n ==> abs_of(#[trigger] xs[k] as int) <= seq_amax(xs, n),
        forall|k: int| 0 <= k < n ==> seq_min(xs, n) <= #[trigger] xs[k] as int <= seq_max(xs, n),
    decreases n,
{
    if n > 1 {
        lemma_stats(xs, (n - 1) as nat);
    }
    assert(seq_amax(xs, 0) == 0);
}

/// The smallest covering scale fits easily in the 16-bit scale field.
proof fn lemma_first_scale(t: GgmlDType, xs: Seq<i16>)
    requires
        codec_supported(t),
        xs.len() == QK,
    ensures
        0 <= first_scale(t, xs) <= 4682,
        -32768 <= block_base(t, xs) <= 32767,
        forall|k: int| 0 <= k < QK ==>
            code_lo(t) * first_scale(t, xs) <= #[trigger] xs[k] as int - block_base(t, xs)
                <= qmax(t) * first_scale(t, xs),
{
    lemma_stats(xs, QK as nat);
    let d0 = first_scale(t, xs);
    if t is Q4_1 {
        let r = seq_max(xs, QK as nat) - seq_min(xs, QK as nat);
        assert(0 <= r <= 65535);
        assert(r <= 15 * d0) by (nonlinear_arith) requires d0 == (r + 14) / 15, 0 <= r;
    } else {
        let a = seq_amax(xs, QK as nat);
        let q = qmax(t);
        assert(q == 127 || q == 7);
        assert(a <= q * d0 && d0 <= 4682) by (nonlinear_arith)
            requires d0 == (a + q - 1) / q, 0 <= a <= 32768, q == 127 || q == 7;
        assert forall|k: int| 0 <= k < QK implies -q * d0 <= #[trigger] xs[k] as int <= q * d0 by {
            assert(abs_of(xs[k] as int) <= a);
        }
    }
}

/// The best candidate is one of the candidates.
proof fn lemma_best_scale_range(t: GgmlDType, xs: Seq<i16>, ws: Seq<u32>, m: int, d0: int, k: nat)
    requires
        k >= 1,
    ensures
        d0 <= best_scale(t, xs, ws, m, d0, k) <= d0 + k - 1,
    decreases k,
{
    if k > 1 {
        lemma_best_scale_range(t, xs, ws, m, d0, (k - 1) as nat);
    }
}

/// Rounding a value that lies in code range: the code is in range and within
/// half a scale step of the value.
proof fn lemma_round_in_range(a: int, d: int, lo: int, hi: int)
    requires
        d >= 1,
        lo <= 0 <= hi,
        lo * d <= a <= hi * d,
    ensures
        lo <= round_div(a, d) <= hi,
        2 * abs_of(a - d * round_div(a, d)) <= d,
{
    let d2 = 2 * d;
    if a >= 0 {
        let q = (2 * a + d) / d2;
        let r = (2 * a + d) % d2;
        vstd::arithmetic::div_mod::lemma_fundamental_div_mod(2 * a + d, d2);
        assert(0 <= r < d2);
        assert(2 * a + d == d2 * q + r);
        assert(0 <= q <= hi) by (nonlinear_arith)
            requires 2 * a + d == d2 * q + r, 0 <= r < d2, d2 == 2 * d, d >= 1, 0 <= a <= hi * d;
        assert(2 * abs_of(a - d * q) <= d) by (nonlinear_arith)
            requires 2 * a + d == d2 * q + r, 0 <= r < d2, d2 == 2 * d;
    } else {
        let na = -a;
        let q = (2 * na + d) / d2;
        let r = (2 * na + d) % d2;
        vstd::arithmetic::div_mod::lemma_fundamental_div_mod(2 * na + d, d2);
        assert(0 <= r < d2);
        assert(2 * na + d == d2 * q + r);
        assert(-lo * d == -(lo * d)) by (nonlinear_arith);
        assert(0 <= q <= -lo) by (nonlinear_arith)
            requires 2 * na + d == d2 * q + r, 0 <= r < d2, d2 == 2 * d, d >= 1, 0 < na <= -lo * d;
        assert(2 * abs_of(na - d * q) <= d) by (nonlinear_arith)
            requires 2 * na + d == d2 * q + r, 0 <= r < d2, d2 == 2 * d;
        assert(round_div(a, d) == -q);
        assert(a - d * (-q) == -(na - d * q)) by (nonlinear_arith) requires na == -a;
    }
}

/// Under any scale at least the smallest covering one, every sample of the
/// block is reconstructed within half a scale step.
proof fn lemma_block_error(t: GgmlDType, xs: Seq<i16>, d: int, k: int)
    requires
        codec_supported(t),
        xs.len() == QK,
        first_scale(t, xs) <= d,
        0 <= k < QK,
    ensures
        code_lo(t) <= code(t, xs[k] as int, block_base(t, xs), d) <= qmax(t),
        2 * abs_of(xs[k] as int - (block_base(t, xs) + d * code(t, xs[k] as int, block_base(t, xs), d))) <= d,
{
    lemma_first_scale(t, xs);
    let m = block_base(t, xs);
    let d0 = first_scale(t, xs);
    let a = xs[k] as int - m;
    assert(code_lo(t) * d0 <= a <= qmax(t) * d0);
    if d <= 0 {
        assert(d0 == 0);
        assert(code_lo(t) * d0 == 0 && qmax(t) * d0 == 0) by (nonlinear_arith) requires d0 == 0;
        assert(a == 0);
    } else {
        assert(code_lo(t) * d <= code_lo(t) * d0) by (nonlinear_arith)
            requires code_lo(t) <= 0, d0 <= d;
        assert(qmax(t) * d0 <= qmax(t) * d) by (nonlinear_arith)
            requires qmax(t) >= 0, d0 <= d;
        lemma_round_in_range(a, d, code_lo(t), qmax(t));
    }
}

/// Reading back a block written with minimum `m` and scale `d` yields
/// `m + d * code` for each element.
proof fn lemma_decode_block(t: GgmlDType, xs: Seq<i16>, m: int, d: int, b: Seq<u8>, off: int, j: int)
    requires
        codec_supported(t),
        xs.len() == QK,
        -32768 <= m <= 32767,
        !(t is Q4_1) ==> m == 0,
        0 <= d <= 65535,
        forall|k: int| 0 <= k < QK ==> code_lo(t) <= #[trigger] code(t, xs[k] as int, m, d) <= qmax(t),
        0 <= off,
        off + spec_block_bytes(t) <= b.len(),
        0 <= j < QK,
        forall|p: int| 0 <= p < spec_block_bytes(t) ==> #[trigger] b[off + p] as int == block_byte(t, xs, m, d, p),
    ensures
        block_value_at(t, b, off, j) == m + d * code(t, xs[j] as int, m, d),
{
    assert(b[off + 0] as int == block_byte(t, xs, m, d, 0));
    assert(b[off + 1] as int == block_byte(t, xs, m, d, 1));
    assert(block_scale_at(b, off) == d);
    let c = code(t, xs[j] as int, m, d);
    if t is Q4_1 {
        assert(b[off + 2] as int == block_byte(t, xs, m, d, 2));
        assert(b[off + 3] as int == block_byte(t, xs, m, d, 3));
        assert(block_min_at(t, b, off) == m);
        let p = if j < 16 { 4 + j } else { 4 + j - 16 };
        assert(b[off + p] as int == block_byte(t, xs, m, d, p));
        assert(b[off + 4 + j] == b[off + p] || b[off + 4 + (j - 16)] == b[off + p]);
        assert(block_code_at(t, b, off, j) == c);
    } else if t is Q4_0 {
        let p = if j < 16 { 2 + j } else { 2 + j - 16 };
        assert(b[off + p] as int == block_byte(t, xs, m, d, p));
        assert(block_code_at(t, b, off, j) == c);
    } else {
        let p = 2 + j;
        assert(b[off + p] as int == block_byte(t, xs, m, d, p));
        assert(block_code_at(t, b, off, j) == c);
    }
}

/// Decoding an encoded buffer reconstructs every sample, padding included,
/// within half of its block's scale, and that scale exceeds the smallest
/// covering scale (`ceil(max |x| / qmax)`, or `ceil((max - min) / 15)` for the
/// asymmetric format) by less than the number of candidates weighed: the
/// error bound is tighter the more bits a code has.
pub proof fn lemma_round_trip(t: GgmlDType, xs: Seq<i16>, ws: Option<Seq<u32>>, b: Seq<u8>, i: int)
    requires
        codec_supported(t),
        encodes(t, xs, ws, b),
        0 <= i < padded_len(xs.len()),
    ensures
        ({
            let x = padded(xs, padded_len(xs.len()));
            let bx = block_of(x, i / QK as int);
            2 * abs_of(x[i] as int - elem_value(t, b, i))
                <= first_scale(t, bx) + SCALE_CANDIDATES - 1
        }),
{
    let total = padded_len(xs.len());
    let x = padded(xs, total);
    let w = match ws {
        None => unit_weights(xs.len(), total),
        Some(v) => row_weights(v, v.len(), xs.len(), total),
    };
    let bb = spec_block_bytes(t) as int;
    let blk = i / QK as int;
    let j = i % QK as int;
    let nb = spec_block_count(GgmlDType::Q8_0, xs.len());
    assert(total == nb * QK);
    assert(0 <= blk < nb) by (nonlinear_arith) requires blk == i / 32, 0 <= i < nb * 32;
    assert(i == blk * QK + j) by (nonlinear_arith) requires blk == i / 32, j == i % 32;
    assert((total as int) / (QK as int) == nb) by (nonlinear_arith) requires total == nb * 32;
    lemma_block_in_buffer(blk, nb as int, bb);
    assert(blk * QK + QK <= total) by (nonlinear_arith) requires 0 <= blk < nb, total == nb * 32;
    assert(0 <= blk * QK) by (nonlinear_arith) requires 0 <= blk;
    let bx = block_of(x, blk);
    let bw = block_of(w, blk);
    let m = block_base(t, bx);
    let d = chosen_scale(t, bx, bw);
    assert forall|p: int| 0 <= p < bb implies #[trigger] b[blk * bb + p] as int == block_byte(t, bx, m, d, p) by {
        lemma_div_mod_block(blk, bb, p);
        assert(b[blk * bb + p] as int == encoded_byte(t, x, w, blk * bb + p));
    }
    lemma_first_scale(t, bx);
    lemma_best_scale_range(t, bx, bw, m, first_scale(t, bx), SCALE_CANDIDATES as nat);
    assert forall|k: int| 0 <= k < QK implies code_lo(t) <= #[trigger] code(t, bx[k] as int, m, d) <= qmax(t) by {
        lemma_block_error(t, bx, d, k);
    }
    lemma_decode_block(t, bx, m, d, b, blk * bb, j);
    assert(bx[j] == x[i]);
    lemma_block_error(t, bx, d, j);
}

/// For the symmetric formats a padding slot decodes to exactly zero.
pub proof fn lemma_padding_is_zero(t: GgmlDType, xs: Seq<i16>, ws: Option<Seq<u32>>, b: Seq<u8>, i: int)
    requires
        t is Q4_0 || t is Q8_0,
        encodes(t, xs, ws, b),
        xs.len() <= i < padded_len(xs.len()),
    ensures
        elem_value(t, b, i) == 0,
{
    let total = padded_len(xs.len());
    let x = padded(xs, total);
    let w = match ws {
        None => unit_weights(xs.len(), total),
        Some(v) => row_weights(v, v.len(), xs.len(), total),
    };
    let bb = spec_block_bytes(t) as int;
    let blk = i / QK as int;
    let j = i % QK as int;
    let nb = spec_block_count(GgmlDType::Q8_0, xs.len());
    assert(0 <= blk < nb) by (nonlinear_arith) requires blk == i / 32, 0 <= i < nb * 32;
    assert(i == blk * QK + j) by (nonlinear_arith) requires blk == i / 32, j == i % 32;
    assert((total as int) / (QK as int) == nb) by (nonlinear_arith) requires total == nb * 32;
    lemma_block_in_buffer(blk, nb as int, bb);
    assert(blk * QK + QK <= total) by (nonlinear_arith) requires 0 <= blk < nb, total == nb * 32;
    assert(0 <= blk * QK) by (nonlinear_arith) requires 0 <= blk;
    let bx = block_of(x, blk);
    let bw = block_of(w, blk);
    let m = block_base(t, bx);
    let d = chosen_scale(t, bx, bw);
    assert forall|p: int| 0 <= p < bb implies #[trigger] b[blk * bb + p] as int == block_byte(t, bx, m, d, p) by {
        lemma_div_mod_block(blk, bb, p);
        assert(b[blk * bb + p] as int == encoded_byte(t, x, w, blk * bb + p));
    }
    lemma_first_scale(t, bx);
    lemma_best_scale_range(t, bx, bw, m, first_scale(t, bx), SCALE_CANDIDATES as nat);
    assert forall|k: int| 0 <= k < QK implies code_lo(t) <= #[trigger] code(t, bx[k] as int, m, d) <= qmax(t) by {
        lemma_block_error(t, bx, d, k);
    }
    lemma_decode_block(t, bx, m, d, b, blk * bb, j);
    assert(bx[j] == 0);
    if d > 0 {
        assert(round_div(0, d) == 0) by (nonlinear_arith) requires d > 0;
    }
    assert(chosen_code(t, bx, bw, j) == 0);
    assert(d * 0 == 0);
}

/// Quantizing under an importance vector of all ones gives byte for byte the
/// unweighted encoding.
pub proof fn lemma_uniform_importance(t: GgmlDType, xs: Seq<i16>, ws: Seq<u32>, b: Seq<u8>)
    requires
        ws.len() >= 1,
        forall|k: int| 0 <= k < ws.len() ==> ws[k] == 1,
    ensures
        encodes(t, xs, Some(ws), b) <==> encodes(t, xs, None, b),
{
    let total = padded_len(xs.len());
    assert forall|i: int| 0 <= i < total implies
        #[trigger] row_weights(ws, ws.len(), xs.len(), total)[i] == unit_weights(xs.len(), total)[i] by {
        if i < xs.len() {
            assert(0 <= i % (ws.len() as int) < ws.len());
        }
    }
    assert(row_weights(ws, ws.len(), xs.len(), total) =~= unit_weights(xs.len(), total));
}

} // verus!
