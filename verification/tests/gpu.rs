//! GPU discovery and preflight checks.

use tei_manager::gpu::{
    compiled_compute_cap, compute_cap_compatible, cuda_runtime_preflight, meminfo_available_kib,
    parse_host_driver, parse_nvidia_smi, parse_required_cuda, preflight, GpuInfo, HostDriver,
};

#[test]
fn test_gpu_info_validation() {
    let info = GpuInfo {
        indices: vec![0, 1],
        cuda_visible_devices: "0,1".to_string(),
        devices: vec![],
    };

    assert_eq!(info.count(), 2);
    assert!(info.is_valid_gpu_id(0));
    assert!(info.is_valid_gpu_id(1));
    assert!(!info.is_valid_gpu_id(2));
    assert!(!info.is_valid_gpu_id(99));
}

#[test]
fn test_get_cuda_device() {
    let info = GpuInfo {
        indices: vec![0, 1],
        cuda_visible_devices: "0,1".to_string(),
        devices: vec![],
    };

    assert_eq!(info.get_cuda_device(0), Some("0".to_string()));
    assert_eq!(info.get_cuda_device(1), Some("1".to_string()));
    assert_eq!(info.get_cuda_device(2), None);
}

#[test]
fn test_empty_gpu_info() {
    let info = GpuInfo::default();

    assert_eq!(info.count(), 0);
    assert!(!info.is_valid_gpu_id(0));
    assert_eq!(info.get_cuda_device(0), None);
}

const SMI: &str = "0, NVIDIA GeForce RTX 5090, 12.0, 32607, 27662\n1, NVIDIA A100-SXM4-80GB, 8.0, 81920, 80000\n";

#[test]
fn test_parse_nvidia_smi() {
    let info = parse_nvidia_smi(SMI);
    assert_eq!(info.indices, vec![0, 1]);
    assert_eq!(info.cuda_visible_devices, "0,1");
    assert_eq!(info.devices[0].compute_cap, Some((12, 0)));
    assert_eq!(info.devices[0].memory_free_mib, Some(27662));
    assert_eq!(info.devices[1].name, "NVIDIA A100-SXM4-80GB");
    assert_eq!(info.free_vram_mib(Some(1)), Some(80000));
    assert_eq!(info.free_vram_mib(None), Some(27662)); // smallest wins
    assert_eq!(info.free_vram_mib(Some(7)), None);
}

#[test]
fn test_parse_nvidia_smi_tolerates_garbage() {
    let info = parse_nvidia_smi("garbage\n3, Weird GPU, [N/A], [N/A], [N/A]\n");
    assert_eq!(info.indices, vec![3]);
    assert_eq!(info.devices[0].compute_cap, None);
    assert_eq!(info.free_vram_mib(None), None);
    assert!(parse_nvidia_smi("").devices.is_empty());
}

/// nvidia-smi output on a Grace unified-memory box (DGX Spark GB10)
const SMI_UNIFIED: &str = "0, NVIDIA GB10, 12.1, [N/A], [N/A]\n";
/// 40 GiB MemAvailable
const MEMINFO: &str = "MemTotal:       131072000 kB\nMemFree:        10485760 kB\nMemAvailable:   41943040 kB\nBuffers:          123456 kB\n";

#[test]
fn test_meminfo_available_kib() {
    assert_eq!(meminfo_available_kib(MEMINFO), Some(41_943_040));
    // Missing MemAvailable
    assert_eq!(
        meminfo_available_kib("MemTotal:       131072000 kB\nMemFree: 1 kB\n"),
        None
    );
    // Garbage value / garbage content / empty
    assert_eq!(meminfo_available_kib("MemAvailable:   lots kB\n"), None);
    assert_eq!(meminfo_available_kib("complete garbage\n\x00\x01"), None);
    assert_eq!(meminfo_available_kib(""), None);
}

#[test]
fn test_free_vram_mib_or_unified() {
    // Unified-memory box: no GPU reports VRAM → 25% of MemAvailable
    // (41943040 KiB = 40960 MiB → 10240 MiB)
    let unified = parse_nvidia_smi(SMI_UNIFIED);
    assert_eq!(
        unified.free_vram_mib_with_meminfo(None, Some(MEMINFO)),
        Some(10240)
    );
    assert_eq!(
        unified.free_vram_mib_with_meminfo(Some(0), Some(MEMINFO)),
        Some(10240)
    );
    // No meminfo, or meminfo without MemAvailable → None
    assert_eq!(unified.free_vram_mib_with_meminfo(None, None), None);
    assert_eq!(
        unified.free_vram_mib_with_meminfo(None, Some("MemFree: 1 kB\n")),
        None
    );

    // GPU-less host: never consults meminfo
    assert_eq!(
        GpuInfo::default().free_vram_mib_with_meminfo(None, Some(MEMINFO)),
        None
    );

    // GPUs with real VRAM: unchanged behavior, meminfo ignored
    let discrete = parse_nvidia_smi(SMI);
    assert_eq!(
        discrete.free_vram_mib_with_meminfo(None, Some(MEMINFO)),
        Some(27662)
    );
    assert_eq!(
        discrete.free_vram_mib_with_meminfo(Some(1), Some(MEMINFO)),
        Some(80000)
    );

    // Mixed: some GPU reports VRAM, so a device without memory does not
    // trigger the unified path
    let mixed = parse_nvidia_smi("0, Weird, 12.1, [N/A], [N/A]\n1, A100, 8.0, 81920, 80000\n");
    assert_eq!(
        mixed.free_vram_mib_with_meminfo(Some(0), Some(MEMINFO)),
        None
    );
}

#[test]
fn test_compiled_compute_cap() {
    assert_eq!(compiled_compute_cap(""), Some(80));
    assert_eq!(compiled_compute_cap("89-"), Some(89));
    assert_eq!(compiled_compute_cap("hopper-"), Some(90));
    assert_eq!(compiled_compute_cap("120-"), Some(120));
    assert_eq!(compiled_compute_cap("121-"), Some(121));
    assert_eq!(compiled_compute_cap("cpu-"), None);
    assert_eq!(compiled_compute_cap("75-"), Some(75));
    assert_eq!(compiled_compute_cap("weird-"), None);
}

#[test]
fn test_compute_cap_compatible() {
    assert!(compute_cap_compatible(80, (8, 0)));
    assert!(compute_cap_compatible(80, (8, 6)));
    assert!(compute_cap_compatible(80, (8, 9))); // 4090 on the default image
    assert!(!compute_cap_compatible(89, (8, 6))); // ada image on A100-class
    assert!(!compute_cap_compatible(80, (12, 0))); // the 5090 failure
    assert!(!compute_cap_compatible(120, (8, 9)));
    assert!(compute_cap_compatible(120, (12, 0)));
    assert!(compute_cap_compatible(120, (12, 1))); // same major, newer minor
    assert!(!compute_cap_compatible(80, (9, 0)));
}

#[test]
fn test_preflight_messages() {
    let no_host = HostDriver::default();
    let info = parse_nvidia_smi(SMI);
    let msgs = preflight(&info, Some(""), &no_host, None);
    assert_eq!(msgs.len(), 1, "{msgs:?}");
    assert!(msgs[0].contains("GPU 0"));
    assert!(msgs[0].contains("12.0"));
    assert!(msgs[0].contains("sm_80"));
    assert!(msgs[0].contains("-blackwell"));

    let msgs = preflight(&info, Some("120-"), &no_host, None);
    assert_eq!(msgs.len(), 1);
    assert!(msgs[0].contains("GPU 1"));

    assert!(preflight(&info, Some("cpu-"), &no_host, None).is_empty());
    assert!(preflight(&info, None, &no_host, None).is_empty());
    assert!(preflight(&GpuInfo::default(), Some(""), &no_host, None).is_empty());
}

const BANNER: &str = "\
+-----------------------------------------------------------------------------------------+
| NVIDIA-SMI 570.195.03             Driver Version: 570.195.03     CUDA Version: 12.8     |
|-----------------------------------------+------------------------+----------------------+
";

#[test]
fn test_parse_host_driver_banner() {
    let host = parse_host_driver(BANNER);
    assert_eq!(host.driver_version.as_deref(), Some("570.195.03"));
    assert_eq!(host.cuda_version, Some((12, 8)));
}

#[test]
fn test_parse_host_driver_query_format() {
    // `nvidia-smi -q` uses `label : value` lines
    let host = parse_host_driver(
        "Driver Version                            : 570.195.03\n\
         CUDA Version                              : 12.8\n",
    );
    assert_eq!(host.driver_version.as_deref(), Some("570.195.03"));
    assert_eq!(host.cuda_version, Some((12, 8)));
}

#[test]
fn test_parse_host_driver_missing_or_na() {
    let host = parse_host_driver("");
    assert_eq!(host, HostDriver::default());

    let host = parse_host_driver("| Driver Version: 570.195.03  CUDA Version: [N/A]  |");
    assert_eq!(host.driver_version.as_deref(), Some("570.195.03"));
    assert_eq!(host.cuda_version, None);

    assert_eq!(parse_host_driver("total garbage"), HostDriver::default());
}

#[test]
fn test_parse_required_cuda() {
    // Real-world multi-clause value from a CUDA base image
    let require = "cuda>=12.9 brand=unknown,driver>=470,driver<471 \
                   brand=tesla,driver>=535,driver<536 brand=nvidia,driver>=550,driver<551";
    assert_eq!(parse_required_cuda(require), Some((12, 9)));
    // The cuda term does not have to come first
    assert_eq!(
        parse_required_cuda("brand=tesla,driver>=535,cuda>=13.0"),
        Some((13, 0))
    );
    assert_eq!(parse_required_cuda(""), None);
    assert_eq!(parse_required_cuda("brand=unknown,driver>=535"), None);
    assert_eq!(parse_required_cuda("cuda>=garbage"), None);
}

#[test]
fn test_cuda_version_ordering() {
    // Tuple ordering matches CUDA version semantics
    assert!((12, 8) < (12, 9));
    assert!((12, 9) == (12, 9));
    assert!((13, 0) > (12, 9));
    assert!((12, 10) < (13, 0));
}

#[test]
fn test_cuda_runtime_preflight_messages() {
    let host = parse_host_driver(BANNER);

    // The real incident: driver 570 (CUDA 12.8) under a CUDA 12.9 image
    let msg = cuda_runtime_preflight(&host, Some((12, 9))).expect("must flag mismatch");
    assert!(msg.contains("570.195.03"), "{msg}");
    assert!(msg.contains("supports CUDA 12.8"), "{msg}");
    assert!(msg.contains("requires 12.9"), "{msg}");
    assert!(msg.contains("fall back to CPU"), "{msg}");
    assert!(msg.contains("driver CUDA >= 12.9"), "{msg}");

    // Exact match and newer host are fine
    assert_eq!(cuda_runtime_preflight(&host, Some((12, 8))), None);
    assert_eq!(cuda_runtime_preflight(&host, Some((12, 7))), None);

    // Unknown on either side → no check
    assert_eq!(cuda_runtime_preflight(&host, None), None);
    assert_eq!(
        cuda_runtime_preflight(&HostDriver::default(), Some((12, 9))),
        None
    );

    // Driver version unknown but CUDA version known: still flagged
    let cuda_only = HostDriver {
        driver_version: None,
        cuda_version: Some((12, 8)),
    };
    let msg = cuda_runtime_preflight(&cuda_only, Some((12, 9))).unwrap();
    assert!(msg.contains("(unknown version)"), "{msg}");

    // Wired into preflight(): compute-cap and CUDA problems both reported
    let info = parse_nvidia_smi(SMI);
    let msgs = preflight(&info, Some(""), &host, Some((12, 9)));
    assert_eq!(msgs.len(), 2, "{msgs:?}");
    assert!(msgs[1].contains("fall back to CPU"));
}

#[test]
fn fields_that_are_not_available_are_left_out() {
    let host = parse_host_driver("| Driver Version: [N/A]  CUDA Version: 12.8  |");
    assert_eq!(host, HostDriver { driver_version: None, cuda_version: Some((12, 8)) });
}

#[test]
fn lines_are_read_on_their_own() {
    let texts = [
        "0, NVIDIA A100, 8.0, 40960, 40000",
        "bad line",
        "",
        "1, NVIDIA L4, 8.9, 23034, 22000\r\n",
        "2, Tesla T4\r",
        "3\n\nnot a number, x\n4, B",
    ];
    for a in texts {
        for b in texts {
            let both = parse_nvidia_smi(&format!("{a}\n{b}"));
            let (first, second) = (parse_nvidia_smi(a), parse_nvidia_smi(b));
            assert_eq!(both.devices, [first.devices, second.devices].concat());
            assert_eq!(both.indices, [first.indices, second.indices].concat());
        }
    }
}
