# gpu_probe

Cross-platform GPU memory (VRAM) detection: which GPUs a host has, how much
memory each holds and uses, which architecture a prebuilt artifact must
target to run on it, and which CUDA, ROCm, oneAPI and Vulkan runtimes are
installed.

## Layout

- `src/` is the library, verified with Verus. It holds every parser and rule
  of the probes — DRM and KFD sysfs attributes, `system_profiler` and
  `vm_stat` reports, NVML answers, ICD manifests, install layouts — stated
  over character sequences and proved against that statement, together with
  the types the probes report and their rendering and ordering.
  - `text.rs`: the string primitives the parsers share (trimming, splitting,
    lines, words, integer parsing, decimal rendering), each specified as the
    `str` method it stands for.
  - `drm.rs`, `kfd.rs`, `intel.rs`: Linux AMD and Intel cards.
  - `metal.rs`: macOS.
  - `nvidia.rs`: NVML answers, and the host's CUDA properties.
  - `rocm.rs`, `oneapi.rs`, `vulkan.rs`: host toolchains.
  - `order.rs`: the orderings of the version types.
- `app/` does the reading: it lists directories, reads files and links, runs
  the macOS tools, queries NVML, and hands what it read to the library.
  `detect()`, `cuda_host()`, `rocm_host()`, `oneapi_host()` and
  `vulkan_host()` live there.
- `tests/` exercises the library on concrete inputs.
