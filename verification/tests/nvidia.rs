use gpu_probe::nvidia::{cuda_host_from, device_gpu, gpus_from, DeviceReading, MemoryReading};
use gpu_probe::{ArchTarget, ComputeCapability, CudaHost, CudaVersion, Vendor};

fn reading(name: Option<&str>, total: Option<u64>, capability: Option<(i32, i32)>) -> DeviceReading {
    DeviceReading {
        name: name.map(|n| n.to_string()),
        memory: total.map(|t| MemoryReading { total: t, free: t / 4, used: t - t / 4 }),
        capability,
    }
}

#[test]
fn a_device_reports_its_memory_and_capability() {
    let gpu = device_gpu(reading(Some("NVIDIA GeForce RTX 4090"), Some(24 << 30), Some((8, 9))))
        .expect("memory was read");
    assert_eq!(gpu.name, "NVIDIA GeForce RTX 4090");
    assert_eq!(gpu.vendor, Vendor::Nvidia);
    assert_eq!(gpu.total_bytes, 24 << 30);
    assert_eq!(gpu.free_bytes, Some(6 << 30));
    assert_eq!(gpu.used_bytes, Some(18 << 30));
    assert_eq!(gpu.arch_target, Some(ArchTarget::Sm(ComputeCapability::new(8, 9))));
}

#[test]
fn a_device_without_memory_is_skipped_and_a_nameless_one_is_named() {
    assert_eq!(device_gpu(reading(Some("x"), None, Some((8, 9)))), None);
    let gpu = device_gpu(reading(None, Some(1024), None)).expect("memory was read");
    assert_eq!(gpu.name, "NVIDIA GPU");
    assert_eq!(gpu.arch_target, None);
    let negative = device_gpu(reading(None, Some(1024), Some((-1, 0)))).expect("memory was read");
    assert_eq!(negative.arch_target, None);
}

#[test]
fn devices_that_could_not_be_opened_are_skipped() {
    let gpus = gpus_from(vec![
        None,
        Some(reading(Some("a"), Some(8), None)),
        Some(reading(Some("b"), None, None)),
        Some(reading(Some("c"), Some(16), Some((9, 0)))),
    ]);
    assert_eq!(gpus.len(), 2);
    assert_eq!(gpus[0].name, "a");
    assert_eq!(gpus[1].name, "c");
    assert_eq!(gpus[1].total_bytes, 16);
}

#[test]
fn cuda_host_splits_the_driver_version() {
    assert_eq!(
        cuda_host_from(Some((8, 6)), Some(12090)),
        Some(CudaHost {
            compute_capability: ComputeCapability::new(8, 6),
            driver_version: CudaVersion::new(12, 9),
        })
    );
    assert_eq!(
        cuda_host_from(Some((9, 0)), Some(13000)),
        Some(CudaHost {
            compute_capability: ComputeCapability::new(9, 0),
            driver_version: CudaVersion::new(13, 0),
        })
    );
    assert_eq!(cuda_host_from(None, Some(12090)), None);
    assert_eq!(cuda_host_from(Some((8, 6)), None), None);
    assert_eq!(cuda_host_from(Some((8, 6)), Some(-12090)), None);
}

#[test]
fn unusable_capabilities_and_drivers_give_no_cuda_host() {
    assert_eq!(cuda_host_from(Some((0, 0)), Some(12090)), None);
    assert_eq!(cuda_host_from(Some((8, 6)), Some(999)), None);
    assert_eq!(cuda_host_from(Some((8, 6)), Some(0)), None);
    assert!(cuda_host_from(Some((8, 6)), Some(1000)).is_some());
}

#[test]
fn only_coherent_memory_figures_are_reported() {
    let none = DeviceReading {
        name: Some("x".to_string()),
        memory: Some(MemoryReading { total: 0, free: 0, used: 0 }),
        capability: None,
    };
    assert_eq!(device_gpu(none), None);
    let odd = DeviceReading {
        name: Some(String::new()),
        memory: Some(MemoryReading { total: 8, free: 9, used: 10 }),
        capability: None,
    };
    let gpu = device_gpu(odd).expect("memory was read");
    assert_eq!(gpu.name, "NVIDIA GPU");
    assert_eq!(gpu.free_bytes, None);
    assert_eq!(gpu.used_bytes, None);
}
