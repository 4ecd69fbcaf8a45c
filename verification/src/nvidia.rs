//! NVIDIA detection from NVML (`libnvidia-ml`), which `nvml-wrapper` loads at
//! runtime from the installed driver. Querying the driver is the caller's;
//! what its answers make of each device and of the host is here.
use vstd::prelude::*;
use crate::{well_reported, ArchTarget, ComputeCapability, CudaHost, CudaVersion, GpuInfo, GpuView, Vendor};
use crate::text::push_str;

verus! {

broadcast use vstd::string::group_string_axioms;

/// What NVML reported for one device's memory (`memory_info`).
#[derive(Debug, Clone, Copy, PartialEq, Eq, Structural)]
pub struct MemoryReading {
    /// Total installed framebuffer memory, in bytes.
    pub total: u64,
    /// Unallocated framebuffer memory, in bytes.
    pub free: u64,
    /// Allocated framebuffer memory, in bytes.
    pub used: u64,
}

/// What NVML answered for one device it could open: each query's result, or
/// `None` where the query failed.
#[derive(Debug)]
pub struct DeviceReading {
    /// The device name (`name`).
    pub name: Option<String>,
    /// Its memory (`memory_info`).
    pub memory: Option<MemoryReading>,
    /// Its CUDA compute capability as major and minor (`cuda_compute_capability`).
    pub capability: Option<(i32, i32)>,
}

/// A compute capability NVML reported, when both parts fit `u32`.
pub open spec fn capability_of(c: Option<(i32, i32)>) -> Option<ComputeCapability> {
    match c {
        Some((major, minor)) => if major >= 0 && minor >= 0 {
            Some(ComputeCapability { major: major as u32, minor: minor as u32 })
        } else {
            None
        },
        None => None,
    }
}

fn capability_from(c: Option<(i32, i32)>) -> (r: Option<ComputeCapability>)
    ensures
        r == capability_of(c),
{
    match c {
        Some((major, minor)) => if major >= 0 && minor >= 0 {
            Some(ComputeCapability::new(major as u32, minor as u32))
        } else {
            None
        },
        None => None,
    }
}

/// The GPU NVML describes: named as NVML names it (`NVIDIA GPU` when it
/// could not, or gave an empty name), with its memory, and its compute
/// capability as the target. No GPU when its memory could not be read or is
/// reported as none; a free or used figure beyond the total is not reported.
pub open spec fn device_gpu_of(
    name: Option<Seq<char>>,
    memory: Option<MemoryReading>,
    capability: Option<(i32, i32)>,
) -> Option<GpuView> {
    match memory {
        Some(m) => if m.total == 0 {
            None
        } else {
            Some(
                GpuView {
                    name: match name {
                        Some(n) => if n.len() > 0 {
                            n
                        } else {
                            "NVIDIA GPU"@
                        },
                        None => "NVIDIA GPU"@,
                    },
                    vendor: Vendor::Nvidia,
                    total_bytes: m.total,
                    free_bytes: if m.free <= m.total {
                        Some(m.free)
                    } else {
                        None
                    },
                    used_bytes: if m.used <= m.total {
                        Some(m.used)
                    } else {
                        None
                    },
                    arch_target: match capability_of(capability) {
                        Some(c) => Some(ArchTarget::Sm(c)),
                        None => None,
                    },
                },
            )
        },
        None => None,
    }
}

impl DeviceReading {
    /// What this reading says about the device.
    pub open spec fn gpu(self) -> Option<GpuView> {
        device_gpu_of(
            match self.name {
                Some(n) => Some(n@),
                None => None,
            },
            self.memory,
            self.capability,
        )
    }
}

/// The [`GpuInfo`] for one device, or `None` when NVML could not report its
/// memory or reported none.
pub fn device_gpu(reading: DeviceReading) -> (r: Option<GpuInfo>)
    ensures
        match r {
            Some(g) => reading.gpu() == Some(g@),
            None => reading.gpu() is None,
        },
        r matches Some(g) ==> well_reported(g@),
{
    proof {
        reveal_strlit("NVIDIA GPU");
    }
    let memory = match reading.memory {
        Some(m) => m,
        None => return None,
    };
    if memory.total == 0 {
        return None;
    }
    let name = match reading.name {
        Some(n) => if !n.as_str().is_empty() {
            n
        } else {
            let mut s = String::new();
            push_str(&mut s, "NVIDIA GPU");
            s
        },
        None => {
            let mut s = String::new();
            push_str(&mut s, "NVIDIA GPU");
            s
        },
    };
    let arch = match capability_from(reading.capability) {
        Some(c) => Some(ArchTarget::Sm(c)),
        None => None,
    };
    Some(
        GpuInfo {
            name,
            vendor: Vendor::Nvidia,
            total_bytes: memory.total,
            free_bytes: if memory.free <= memory.total {
                Some(memory.free)
            } else {
                None
            },
            used_bytes: if memory.used <= memory.total {
                Some(memory.used)
            } else {
                None
            },
            arch_target: arch,
        },
    )
}

/// The GPUs NVML reports, in device order, from what it answered for each
/// index (`None` where the device could not be opened): devices it could not
/// open or read the memory of are skipped.
pub open spec fn gpus_of(readings: Seq<Option<DeviceReading>>) -> Seq<GpuView>
    decreases readings.len(),
{
    if readings.len() == 0 {
        seq![]
    } else {
        let rest = gpus_of(readings.drop_last());
        match readings.last() {
            Some(r) => match r.gpu() {
                Some(g) => rest.push(g),
                None => rest,
            },
            None => rest,
        }
    }
}

/// The NVIDIA GPUs, from NVML's answers for each device index in turn.
pub fn gpus_from(readings: Vec<Option<DeviceReading>>) -> (r: Vec<GpuInfo>)
    ensures
        r@.len() == gpus_of(readings@).len(),
        forall|k: int| 0 <= k < r@.len() ==> #[trigger] r@[k]@ == gpus_of(readings@)[k],
        forall|k: int| 0 <= k < r@.len() ==> well_reported(#[trigger] r@[k]@),
{
    let ghost all = readings@;
    let mut rest = readings;
    let mut out: Vec<GpuInfo> = Vec::new();
    let n = rest.len();
    let mut i: usize = 0;
    assert(all.take(0) =~= Seq::<Option<DeviceReading>>::empty());
    while rest.len() > 0
        invariant
            n == all.len(),
            i + rest@.len() == n,
            rest@ == all.skip(i as int),
            out@.len() == gpus_of(all.take(i as int)).len(),
            forall|k: int| 0 <= k < out@.len() ==> #[trigger] out@[k]@ == gpus_of(all.take(i as int))[k],
            forall|k: int| 0 <= k < out@.len() ==> well_reported(#[trigger] out@[k]@),
        decreases rest@.len(),
    {
        let reading = rest.remove(0);
        assert(reading == all[i as int]);
        assert(all.take(i + 1).drop_last() =~= all.take(i as int));
        assert(all.take(i + 1).last() == all[i as int]);
        assert(rest@ =~= all.skip(i + 1));
        let ghost before = gpus_of(all.take(i as int));
        match reading {
            Some(r) => {
                let ghost rv = r;
                match device_gpu(r) {
                    Some(g) => {
                        out.push(g);
                        assert(gpus_of(all.take(i + 1)) == before.push(rv.gpu()->0));
                    },
                    None => {},
                }
            },
            None => {},
        }
        i = i + 1;
    }
    assert(all.take(n as int) =~= all);
    out
}

/// `a / b` as integer division truncating toward zero computes it, for `b > 0`.
pub open spec fn div_trunc(a: int, b: int) -> int {
    if a >= 0 {
        a / b
    } else {
        -((-a) / b)
    }
}

/// The remainder that goes with [`div_trunc`]: it has the sign of `a`.
pub open spec fn rem_trunc(a: int, b: int) -> int {
    a - b * div_trunc(a, b)
}

/// `nvml_wrapper::cuda_driver_version_major`: the major CUDA version in a
/// driver version as NVML reports it (`12090` for 12.9), which the crate
/// computes as `version / 1000`.
#[verifier::external_body]
fn driver_version_major(version: i32) -> (r: i32)
    ensures
        r as int == div_trunc(version as int, 1000),
{
    nvml_wrapper::cuda_driver_version_major(version)
}

/// `nvml_wrapper::cuda_driver_version_minor`: the minor CUDA version in a
/// driver version as NVML reports it, which the crate computes as
/// `(version % 1000) / 10`.
#[verifier::external_body]
fn driver_version_minor(version: i32) -> (r: i32)
    ensures
        r as int == div_trunc(rem_trunc(version as int, 1000), 10),
{
    nvml_wrapper::cuda_driver_version_minor(version)
}

/// Host-wide CUDA properties from device 0's compute capability and the
/// driver's CUDA version as NVML reports them (`12090` for 12.9): `None` when
/// either is unknown or unusable — a part that is negative, or a major of `0`,
/// which no real device or driver reports.
pub open spec fn cuda_host_of(capability: Option<(i32, i32)>, driver: Option<i32>) -> Option<
    CudaHost,
> {
    match (capability_of(capability), driver) {
        (Some(c), Some(v)) => {
            let major = div_trunc(v as int, 1000);
            let minor = div_trunc(rem_trunc(v as int, 1000), 10);
            if c.major > 0 && major > 0 && minor >= 0 {
                Some(
                    CudaHost {
                        compute_capability: c,
                        driver_version: CudaVersion { major: major as u32, minor: minor as u32 },
                    },
                )
            } else {
                None
            }
        },
        _ => None,
    }
}

/// Host-wide CUDA properties from NVML's answers: device 0's compute
/// capability and `sys_cuda_driver_version`, each `None` when the query
/// failed. `None` when either is missing or a value is not usable.
pub fn cuda_host_from(capability: Option<(i32, i32)>, driver: Option<i32>) -> (r: Option<CudaHost>)
    ensures
        r == cuda_host_of(capability, driver),
        r matches Some(h) ==> h.compute_capability.major > 0 && h.driver_version.major > 0,
{
    let c = match capability_from(capability) {
        Some(c) => c,
        None => return None,
    };
    let v = match driver {
        Some(v) => v,
        None => return None,
    };
    let major = driver_version_major(v);
    let minor = driver_version_minor(v);
    if c.major > 0 && major > 0 && minor >= 0 {
        Some(
            CudaHost {
                compute_capability: c,
                driver_version: CudaVersion::new(major as u32, minor as u32),
            },
        )
    } else {
        None
    }
}

/// NVML writes a CUDA driver version `major.minor` as `major * 1000 + minor *
/// 10` (`12090` is 12.9): the host reports exactly that major and minor,
/// with the capability device 0 reported, when both majors are above `0`.
pub proof fn driver_versions_read_as_major_and_minor(
    cap_major: i32,
    cap_minor: i32,
    major: i32,
    minor: i32,
    rest: i32,
)
    requires
        cap_major > 0,
        cap_minor >= 0,
        major > 0,
        0 <= minor < 100,
        0 <= rest < 10,
        major * 1000 + minor * 10 + rest <= i32::MAX,
    ensures
        cuda_host_of(Some((cap_major, cap_minor)), Some((major * 1000 + minor * 10 + rest) as i32))
            == Some(
            CudaHost {
                compute_capability: ComputeCapability {
                    major: cap_major as u32,
                    minor: cap_minor as u32,
                },
                driver_version: CudaVersion { major: major as u32, minor: minor as u32 },
            },
        ),
{
    let v = major * 1000 + minor * 10 + rest;
    assert(v / 1000 == major) by (nonlinear_arith)
        requires
            v == major * 1000 + minor * 10 + rest,
            0 <= minor < 100,
            0 <= rest < 10,
    ;
    assert(v % 1000 == minor * 10 + rest) by (nonlinear_arith)
        requires
            v == major * 1000 + minor * 10 + rest,
            0 <= minor < 100,
            0 <= rest < 10,
            major > 0,
    ;
    assert((minor * 10 + rest) / 10 == minor) by (nonlinear_arith)
        requires
            0 <= rest < 10,
    ;
}

} // verus!
