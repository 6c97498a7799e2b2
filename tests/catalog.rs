use diffusion_rs_quant::dtype::GgmlDType;
use diffusion_rs_quant::error::{Backend, Error};

#[test]
fn block_sizes_and_bytes() {
    assert_eq!(GgmlDType::Q4_0.block_size(), 32);
    assert_eq!(GgmlDType::Q4_0.type_size(), 18);
    assert_eq!(GgmlDType::Q4_1.type_size(), 20);
    assert_eq!(GgmlDType::Q8_0.type_size(), 34);
    assert_eq!(GgmlDType::Q6K.block_size(), 256);
    assert_eq!(GgmlDType::Q6K.type_size(), 210);
    assert_eq!(GgmlDType::F16.block_size(), 1);
    assert!(!GgmlDType::F32.is_quantized());
    assert!(!GgmlDType::BF16.is_quantized());
    assert!(GgmlDType::Q2K.is_quantized());
}

#[test]
fn storage_size_rounds_up_to_whole_blocks() {
    let q = GgmlDType::Q8_0;
    assert_eq!(q.storage_size_in_bytes(0), Some(0));
    assert_eq!(q.storage_size_in_bytes(1), Some(34));
    assert_eq!(q.storage_size_in_bytes(32), Some(34));
    assert_eq!(q.storage_size_in_bytes(40), Some(68));
    assert_eq!(q.storage_size_in_bytes(64), Some(68));
    assert_eq!(GgmlDType::Q4K.storage_size_in_bytes(257), Some(288));
    assert_eq!(GgmlDType::F32.storage_size_in_bytes(3), Some(12));
    for n in 0..1000usize {
        let t = GgmlDType::Q4_1;
        assert_eq!(t.storage_size_in_bytes(n), Some((n + 31) / 32 * 20));
    }
    assert_eq!(GgmlDType::F32.storage_size_in_bytes(usize::MAX), None);
}

#[test]
fn backend_unavailable_is_told_apart() {
    assert!(Error::BackendUnavailable(Backend::Metal).is_backend_unavailable());
    assert!(!Error::DeviceTransferFailure.is_backend_unavailable());
}
