use diffusion_rs_quant::codec::dequantize_bytes;
use diffusion_rs_quant::cpu::QCpuStorage;
use diffusion_rs_quant::device::{CpuStorage, Device, MetalDevice, Storage};
use diffusion_rs_quant::dtype::GgmlDType;
use diffusion_rs_quant::error::{Backend, Error};
use diffusion_rs_quant::metal::{load_quantized, QMetalStorage};
use diffusion_rs_quant::cuda::QCudaStorage;
use diffusion_rs_quant::device::CudaDevice;
use diffusion_rs_quant::shape::{Layout, Shape};
use diffusion_rs_quant::storage::QStorage;

fn contiguous(dims: Vec<usize>) -> Layout {
    let mut stride = vec![0usize; dims.len()];
    let mut acc = 1usize;
    for i in (0..dims.len()).rev() {
        stride[i] = acc;
        acc *= dims[i];
    }
    Layout { shape: Shape { dims }, stride, start_offset: 0 }
}

fn weight(t: GgmlDType, n_out: usize, k: usize) -> (QCpuStorage, Vec<i32>) {
    let w: Vec<i16> = (0..n_out * k).map(|i| ((i * 37 % 201) as i16) - 100).collect();
    let mut q = QCpuStorage::zeros(n_out * k, t).unwrap();
    q.quantize(&CpuStorage::I16(w)).unwrap();
    let dense = dequantize_bytes(t, &q.data().unwrap(), n_out * k);
    (q, dense)
}

fn reference(x: &[i16], dense: &[i32], rows: usize, n_out: usize, k: usize) -> Vec<i64> {
    let mut out = Vec::new();
    for r in 0..rows {
        for o in 0..n_out {
            let mut acc = 0i64;
            for c in 0..k {
                acc += x[r * k + c] as i64 * dense[o * k + c] as i64;
            }
            out.push(acc);
        }
    }
    out
}

#[test]
fn forward_two_dimensional_shape_and_values() {
    for t in [GgmlDType::Q8_0, GgmlDType::Q4_0, GgmlDType::Q4_1] {
        let (q, dense) = weight(t, 3, 64);
        let x: Vec<i16> = (0..2 * 64).map(|i| (i as i16 % 17) - 8).collect();
        let (out, shape) = q
            .fwd(&Shape { dims: vec![3, 64] }, &CpuStorage::I16(x.clone()), &contiguous(vec![2, 64]))
            .unwrap();
        assert_eq!(shape.dims, vec![2, 3]);
        match out {
            CpuStorage::I64(v) => assert_eq!(v, reference(&x, &dense, 2, 3, 64)),
            _ => panic!("products are i64"),
        }
    }
}

#[test]
fn forward_batched_input_keeps_leading_dims() {
    let (q, dense) = weight(GgmlDType::Q8_0, 5, 32);
    let x: Vec<i16> = (0..2 * 3 * 32).map(|i| (i as i16 * 7) % 300 - 150).collect();
    let (out, shape) = q
        .fwd(&Shape { dims: vec![5, 32] }, &CpuStorage::I16(x.clone()), &contiguous(vec![2, 3, 32]))
        .unwrap();
    assert_eq!(shape.dims, vec![2, 3, 5]);
    match out {
        CpuStorage::I64(v) => assert_eq!(v, reference(&x, &dense, 6, 5, 32)),
        _ => panic!("products are i64"),
    }
}

#[test]
fn forward_rejects_bad_operands() {
    let (q, _) = weight(GgmlDType::Q4_0, 2, 32);
    let w = Shape { dims: vec![2, 32] };
    let x = CpuStorage::I16(vec![1; 64]);
    assert_eq!(q.fwd(&w, &x, &contiguous(vec![2, 31])).unwrap_err(), Error::ShapeOrCountMismatch);
    assert_eq!(q.fwd(&w, &x, &contiguous(vec![3, 32])).unwrap_err(), Error::ShapeOrCountMismatch);
    let strided = Layout { shape: Shape { dims: vec![2, 32] }, stride: vec![1, 2], start_offset: 0 };
    assert_eq!(q.fwd(&w, &x, &strided).unwrap_err(), Error::ShapeOrCountMismatch);
    assert_eq!(
        q.fwd(&Shape { dims: vec![3, 32] }, &x, &contiguous(vec![2, 32])).unwrap_err(),
        Error::ShapeOrCountMismatch
    );
    assert_eq!(
        q.fwd(&w, &CpuStorage::I32(vec![1; 64]), &contiguous(vec![2, 32])).unwrap_err(),
        Error::UnsupportedFormatForBackend(GgmlDType::Q4_0)
    );
    let offset = Layout { shape: Shape { dims: vec![1, 32] }, stride: vec![32, 1], start_offset: 32 };
    assert!(q.fwd(&w, &x, &offset).is_ok());
}

#[test]
fn dispatch_routes_to_host_storage() {
    let mut s = QStorage::zeros(&Device::Cpu, 32, GgmlDType::Q8_0).unwrap();
    assert_eq!(s.device(), Device::Cpu);
    assert_eq!(s.dtype(), GgmlDType::Q8_0);
    assert_eq!(s.size_in_bytes(), 34);
    let xs: Vec<i16> = (0..32).map(|i| i as i16).collect();
    assert!(s.quantize(&Storage::Cpu(CpuStorage::I16(xs.clone()))).is_ok());
    match s.dequantize(32).unwrap() {
        Storage::Cpu(CpuStorage::I32(v)) => {
            let want: Vec<i32> = xs.iter().map(|x| *x as i32).collect();
            assert_eq!(v, want);
        },
        _ => panic!("host values"),
    }
    let md = MetalDevice { id: 0 };
    let other = Storage::Metal(diffusion_rs_quant::device::MetalStorage { device: md, elem_count: 32 });
    assert_eq!(s.quantize(&other).unwrap_err(), Error::DeviceMismatch);
    assert_eq!(
        s.fwd(&Shape { dims: vec![1, 32] }, &other, &contiguous(vec![1, 32])).unwrap_err(),
        Error::DeviceMismatch
    );
    let (out, shape) = s
        .fwd(&Shape { dims: vec![1, 32] }, &Storage::Cpu(CpuStorage::I16(vec![1; 32])), &contiguous(vec![1, 32]))
        .unwrap();
    assert_eq!(shape.dims, vec![1, 1]);
    match out {
        Storage::Cpu(CpuStorage::I64(v)) => assert_eq!(v, vec![(0..32).sum::<i64>()]),
        _ => panic!("host values"),
    }
    assert!(s.quantize_onto(&CpuStorage::I16(vec![0; 32])).is_ok());
    assert_eq!(s.data().unwrap()[0..2], [0, 0]);
}

#[test]
fn unavailable_backends_fail_every_call() {
    let md = MetalDevice { id: 3 };
    let cd = CudaDevice { ordinal: 1 };
    let metal = Some(Error::BackendUnavailable(Backend::Metal));
    let cuda = Some(Error::BackendUnavailable(Backend::Cuda));
    assert_eq!(QMetalStorage::zeros(&md, 64, GgmlDType::Q4_0).err(), metal);
    assert_eq!(QCudaStorage::zeros(&cd, 64, GgmlDType::Q4_0).err(), cuda);
    assert_eq!(QStorage::zeros(&Device::Metal(md), 64, GgmlDType::Q8_0).err(), metal);
    assert_eq!(QStorage::zeros(&Device::Cuda(cd), 64, GgmlDType::Q8_0).err(), cuda);
    assert_eq!(load_quantized(&md, GgmlDType::Q8_0, &vec![0u8; 34]).err(), metal);
}
