use diffusion_rs_quant::codec::{dequantize_bytes, quantize_samples};
use diffusion_rs_quant::cpu::QCpuStorage;
use diffusion_rs_quant::device::CpuStorage;
use diffusion_rs_quant::dtype::GgmlDType;
use diffusion_rs_quant::error::Error;

fn pseudo_samples(n: usize, seed: u64, span: i64) -> Vec<i16> {
    let mut s = seed;
    let mut out = Vec::new();
    for _ in 0..n {
        s = s.wrapping_mul(6364136223846793005).wrapping_add(1442695040888963407);
        let v = ((s >> 33) as i64 % (2 * span + 1)) - span;
        out.push(v as i16);
    }
    out
}

fn qmax(t: GgmlDType) -> i64 {
    match t {
        GgmlDType::Q8_0 => 127,
        GgmlDType::Q4_0 => 7,
        _ => 15,
    }
}

fn first_scale(t: GgmlDType, block: &[i16]) -> i64 {
    if t == GgmlDType::Q4_1 {
        let lo = *block.iter().min().unwrap() as i64;
        let hi = *block.iter().max().unwrap() as i64;
        (hi - lo + 14) / 15
    } else {
        let a = block.iter().map(|x| (*x as i64).abs()).max().unwrap();
        (a + qmax(t) - 1) / qmax(t)
    }
}

fn round_div(a: i64, d: i64) -> i64 {
    if a >= 0 {
        (2 * a + d) / (2 * d)
    } else {
        -((-2 * a + d) / (2 * d))
    }
}

fn code(t: GgmlDType, x: i64, m: i64, d: i64) -> i64 {
    if d <= 0 {
        return 0;
    }
    let lo = if t == GgmlDType::Q4_1 { 0 } else { -qmax(t) };
    round_div(x - m, d).clamp(lo, qmax(t))
}

// The scale the encoder should pick for a block, recomputed from its definition.
fn expected_scale(t: GgmlDType, block: &[i16], w: &[u32]) -> i64 {
    let m = if t == GgmlDType::Q4_1 { *block.iter().min().unwrap() as i64 } else { 0 };
    let d0 = first_scale(t, block);
    let err = |d: i64| -> u128 {
        block
            .iter()
            .zip(w.iter())
            .map(|(x, w)| {
                let e = *x as i64 - m - d * code(t, *x as i64, m, d);
                (*w as u128) * ((e * e) as u128)
            })
            .sum()
    };
    let mut best = d0;
    for k in 1..4 {
        if err(d0 + k) < err(best) {
            best = d0 + k;
        }
    }
    best
}

#[test]
fn q8_0_exact_bytes() {
    let xs: Vec<i16> = (0..32).map(|i| 2 * (i as i16 - 16)).collect();
    let b = quantize_samples(GgmlDType::Q8_0, &xs, None);
    assert_eq!(b.len(), 34);
    assert_eq!(&b[0..2], &[1, 0]);
    for i in 0..32 {
        assert_eq!(b[2 + i] as i8 as i16, xs[i]);
    }
    let back = dequantize_bytes(GgmlDType::Q8_0, &b, 32);
    let want: Vec<i32> = xs.iter().map(|x| *x as i32).collect();
    assert_eq!(back, want);
}

#[test]
fn q4_0_exact_bytes() {
    let xs: Vec<i16> = (0..32).map(|i| 3 * ((i as i16 % 15) - 7)).collect();
    let b = quantize_samples(GgmlDType::Q4_0, &xs, None);
    assert_eq!(b.len(), 18);
    assert_eq!(&b[0..2], &[3, 0]);
    for k in 0..16 {
        let lo = (xs[k] / 3 + 8) as u8;
        let hi = (xs[k + 16] / 3 + 8) as u8;
        assert_eq!(b[2 + k], lo | (hi << 4));
    }
    let back = dequantize_bytes(GgmlDType::Q4_0, &b, 32);
    let want: Vec<i32> = xs.iter().map(|x| *x as i32).collect();
    assert_eq!(back, want);
}

#[test]
fn q4_1_exact_bytes_with_negative_minimum() {
    let xs: Vec<i16> = (0..32).map(|i| -300 + 5 * (i as i16 % 16)).collect();
    let b = quantize_samples(GgmlDType::Q4_1, &xs, None);
    assert_eq!(b.len(), 20);
    assert_eq!(&b[0..2], &[5, 0]);
    assert_eq!(i16::from_le_bytes([b[2], b[3]]), -300);
    for k in 0..16 {
        assert_eq!(b[4 + k], (k as u8) | ((k as u8) << 4));
    }
    let back = dequantize_bytes(GgmlDType::Q4_1, &b, 32);
    let want: Vec<i32> = xs.iter().map(|x| *x as i32).collect();
    assert_eq!(back, want);
}

#[test]
fn round_trip_within_scale_bound() {
    for t in [GgmlDType::Q8_0, GgmlDType::Q4_0, GgmlDType::Q4_1] {
        for (seed, span) in [(1u64, 30000i64), (7, 1000), (11, 5), (3, 32767)] {
            let xs = pseudo_samples(100, seed, span);
            let b = quantize_samples(t, &xs, None);
            assert_eq!(b.len(), 4 * t.type_size());
            let back = dequantize_bytes(t, &b, 100);
            let mut padded = xs.clone();
            padded.resize(128, 0);
            for i in 0..100 {
                let blk = &padded[(i / 32) * 32..(i / 32) * 32 + 32];
                let bound = first_scale(t, blk) + 3;
                let err = (xs[i] as i64 - back[i] as i64).abs();
                assert!(2 * err <= bound, "{:?} element {}: {} vs {}", t, i, xs[i], back[i]);
            }
        }
    }
}

#[test]
fn eight_bit_error_is_tighter_than_four_bit() {
    let xs = pseudo_samples(64, 5, 20000);
    let err = |t: GgmlDType| -> i64 {
        let b = quantize_samples(t, &xs, None);
        let back = dequantize_bytes(t, &b, 64);
        xs.iter().zip(back.iter()).map(|(x, y)| (*x as i64 - *y as i64).abs()).max().unwrap()
    };
    assert!(err(GgmlDType::Q8_0) < err(GgmlDType::Q4_0));
}

#[test]
fn uniform_importance_matches_unweighted() {
    for t in [GgmlDType::Q8_0, GgmlDType::Q4_0, GgmlDType::Q4_1] {
        for n in [32usize, 40, 96] {
            let xs = pseudo_samples(n, n as u64, 12345);
            let plain = quantize_samples(t, &xs, None);
            let ones = vec![1u32; 8];
            let weighted = quantize_samples(t, &xs, Some(&ones));
            assert_eq!(plain, weighted);
        }
    }
}

#[test]
fn importance_picks_the_weighted_best_scale() {
    for t in [GgmlDType::Q8_0, GgmlDType::Q4_0, GgmlDType::Q4_1] {
        for seed in 0..20u64 {
            let xs = pseudo_samples(32, seed, 2000);
            let w: Vec<u32> = (0..32u32).map(|i| if i % 5 == 0 { 1000 } else { (i * 7919) % 13 }).collect();
            let b = quantize_samples(t, &xs, Some(&w));
            let d = u16::from_le_bytes([b[0], b[1]]) as i64;
            assert_eq!(d, expected_scale(t, &xs, &w));
            let plain = quantize_samples(t, &xs, None);
            let pd = u16::from_le_bytes([plain[0], plain[1]]) as i64;
            assert_eq!(pd, expected_scale(t, &xs, &vec![1u32; 32]));
        }
    }
}

#[test]
fn forty_samples_make_two_blocks_and_padding_reads_zero() {
    let xs = pseudo_samples(40, 99, 20000);
    let mut q = QCpuStorage::zeros(40, GgmlDType::Q8_0).unwrap();
    assert_eq!(q.storage_size_in_bytes(), 68);
    q.quantize(&CpuStorage::I16(xs.clone())).unwrap();
    assert_eq!(q.storage_size_in_bytes(), 68);
    let back = match q.dequantize(40).unwrap() {
        CpuStorage::I32(v) => v,
        _ => panic!("decoded values are i32"),
    };
    assert_eq!(back.len(), 40);
    for i in 0..40 {
        assert!((xs[i] as i32 - back[i]).abs() <= 81);
    }
    let all = match q.dequantize(64).unwrap() {
        CpuStorage::I32(v) => v,
        _ => panic!("decoded values are i32"),
    };
    assert_eq!(&all[..40], &back[..]);
    assert!(all[40..].iter().all(|v| *v == 0));
    for t in [GgmlDType::Q4_0] {
        let b = quantize_samples(t, &xs, None);
        let all = dequantize_bytes(t, &b, 64);
        assert!(all[40..].iter().all(|v| *v == 0));
    }
}

#[test]
fn cpu_storage_errors() {
    let mut q = QCpuStorage::zeros(64, GgmlDType::Q4_0).unwrap();
    assert_eq!(q.dequantize(65).unwrap_err(), Error::ShapeOrCountMismatch);
    assert!(q.dequantize(33).is_ok());
    assert_eq!(
        q.quantize(&CpuStorage::I32(vec![0; 64])).unwrap_err(),
        Error::UnsupportedFormatForBackend(GgmlDType::Q4_0)
    );
    assert_eq!(q.quantize(&CpuStorage::I16(vec![0; 100])).unwrap_err(), Error::ShapeOrCountMismatch);
    let w = vec![1u32; 16];
    assert_eq!(
        q.quantize_imatrix(&CpuStorage::I16(vec![3; 64]), &w, 8).unwrap_err(),
        Error::ShapeOrCountMismatch
    );
    assert_eq!(
        q.quantize_imatrix(&CpuStorage::I16(vec![3; 64]), &w, 0).unwrap_err(),
        Error::ShapeOrCountMismatch
    );
    assert_eq!(q.data().unwrap(), vec![0u8; 36]);
    assert!(q.quantize_imatrix(&CpuStorage::I16(vec![3; 64]), &w, 16).is_ok());
    assert_ne!(q.data().unwrap(), vec![0u8; 36]);

    let f = QCpuStorage::zeros(3, GgmlDType::F32).unwrap();
    assert_eq!(f.storage_size_in_bytes(), 12);
    assert_eq!(f.dequantize(3).unwrap_err(), Error::UnsupportedFormatForBackend(GgmlDType::F32));
    assert_eq!(QCpuStorage::zeros(usize::MAX, GgmlDType::Q8_0).err(), Some(Error::ShapeOrCountMismatch));

    assert_eq!(QCpuStorage::from_bytes(GgmlDType::Q8_0, vec![0; 35]).err(), Some(Error::ShapeOrCountMismatch));
    let blob = quantize_samples(GgmlDType::Q8_0, &vec![5i16; 32], None);
    let loaded = QCpuStorage::from_bytes(GgmlDType::Q8_0, blob.clone()).unwrap();
    assert_eq!(loaded.data().unwrap(), blob);
    assert_eq!(loaded.dtype(), GgmlDType::Q8_0);
}
