use amdgpu_control::gpu::{clock_table_file, is_amd_device_exec};
use amdgpu_control::gpu::current_clock;
use amdgpu_control::gpu::find_card;
use amdgpu_control::gpu::{
    discover_gpus, discover_gpus_in, preferred_gpu_index, AmdGpu, Capabilities, CardEntry,
    ClockRange, ClockState, DeviceProbe, GpuChoice, HwmonCandidate,
};

const OVERDRIVE: &str = "OD_SCLK:\n0: 500Mhz\n1: 2500Mhz\nOD_MCLK:\n0: 96Mhz\n1: 1200Mhz\nOD_VDDGFX_OFFSET:\n-50mV\nOD_RANGE:\nSCLK: 300Mhz 3000Mhz\nMCLK: 90Mhz 1400Mhz\nVDDGFX_OFFSET: -100mV 0mV";

const PROFILES: &str =
    "PROFILE_INDEX(NAME)\n 0 BOOTUP_DEFAULT*:\n 1 3D_FULL_SCREEN :\n 2 POWER_SAVING :";

fn entry(name: &str, pci: &str, vendor: &str, driver: &str) -> CardEntry {
    CardEntry {
        name: name.to_string(),
        device_target: Some(format!("/tmp/fixture/devices/{pci}")),
        vendor_text: vendor.to_string(),
        driver_target: Some(format!("/tmp/fixture/drivers/{driver}")),
    }
}

fn caps(score: usize) -> Capabilities {
    Capabilities {
        performance: score > 0,
        workload_profiles: score > 1,
        core_clock: score > 2,
        memory_clock: score > 3,
        voltage: score > 4,
        power_limit: score > 5,
        fan: score > 6,
    }
}

#[test]
fn parses_clocks_telemetry_power_and_fan() {
    assert_eq!(
        AmdGpu::clock_states("sclk", "0: 500Mhz\n1: 2400Mhz *"),
        vec![
            ClockState { index: 0, mhz: 500, active: false },
            ClockState { index: 1, mhz: 2400, active: true },
        ]
    );
}

#[test]
fn parses_firmware_profiles_and_overdrive_ranges() {
    let profiles = AmdGpu::power_profiles(PROFILES);
    assert_eq!(profiles.len(), 3);
    assert_eq!(profiles[1].name, "3D_FULL_SCREEN");
    assert!(profiles[0].active);
    assert_eq!(
        AmdGpu::overdrive_clock_range("sclk", OVERDRIVE),
        Some(ClockRange {
            current_minimum: 500,
            current_maximum: 2500,
            allowed_minimum: 300,
            allowed_maximum: 3000,
        })
    );
    assert_eq!(
        AmdGpu::overdrive_clock_range("mclk", OVERDRIVE)
            .map(|range| (range.current_minimum, range.current_maximum)),
        Some((96, 1200))
    );
    assert_eq!(AmdGpu::voltage_offset(OVERDRIVE), Some((-50, -100, 0)));
}

#[test]
fn discovery_filters_vendor_driver_and_sorts_card_numbers() {
    let entries = vec![
        entry("card10", "0000:10:00.0", "0x1002", "amdgpu"),
        entry("card2", "0000:02:00.0", "0x1002", "amdgpu"),
        entry("card1", "0000:00:02.0", "0x8086", "i915"),
    ];
    let found = discover_gpus_in("/tmp/fixture/drm", Some(&entries));
    let resolved = |gpu: &AmdGpu| {
        let card = gpu.card_path().rsplit('/').next().unwrap().to_string();
        let target = entries.iter().find(|e| e.name == card).unwrap().device_target.clone();
        gpu.pci_id(target.as_deref())
    };
    assert_eq!(found.iter().map(resolved).collect::<Vec<_>>(), ["0000:02:00.0", "0000:10:00.0"]);
}

#[test]
fn reads_clock_tables_line_by_line() {
    let states = AmdGpu::clock_states("mclk", "0: 96Mhz *\r\n1: 1000Mhz\nS: 19Mhz\nbogus\n2: x");
    assert_eq!(
        states,
        vec![
            ClockState { index: 0, mhz: 96, active: true },
            ClockState { index: 1, mhz: 1000, active: false },
            ClockState { index: -1, mhz: 19, active: false },
        ]
    );
    assert!(AmdGpu::clock_states("fclk", "0: 96Mhz *").is_empty());
}

#[test]
fn memory_minimum_falls_back_to_the_allowed_one() {
    let text = "OD_MCLK:\n1: 1200Mhz\nOD_RANGE:\nMCLK: 90Mhz 1400Mhz";
    assert_eq!(
        AmdGpu::overdrive_clock_range("mclk", text),
        Some(ClockRange {
            current_minimum: 90,
            current_maximum: 1200,
            allowed_minimum: 90,
            allowed_maximum: 1400,
        })
    );
    assert_eq!(AmdGpu::overdrive_clock_range("sclk", text), None);
    assert_eq!(AmdGpu::overdrive_clock_range("vclk", OVERDRIVE), None);
    assert_eq!(AmdGpu::voltage_offset("OD_RANGE:\nSCLK: 300Mhz 3000Mhz"), None);
}

#[test]
fn paths_names_and_levels() {
    let gpu = AmdGpu::new("/sys/class/drm/card1");
    assert_eq!(gpu.card_path(), "/sys/class/drm/card1");
    assert_eq!(gpu.device_path(), "/sys/class/drm/card1/device");
    assert_eq!(gpu.device_file("vendor"), "/sys/class/drm/card1/device/vendor");
    assert_eq!(gpu.pci_id(Some("/sys/devices/pci0000:00/0000:03:00.0")), "0000:03:00.0");
    assert_eq!(gpu.pci_id(None), "card1");
    assert_eq!(AmdGpu::name("AMD Radeon RX 7900 XTX", "0x744c"), "AMD Radeon RX 7900 XTX");
    assert_eq!(AmdGpu::name("", "0x744c"), "AMD Radeon (744C)");
    assert_eq!(AmdGpu::name("", ""), "AMD Radeon");
    assert_eq!(AmdGpu::performance_level(""), "auto");
    assert_eq!(AmdGpu::performance_level("manual"), "manual");
}

#[test]
fn control_files_are_found_directly_or_in_hwmon() {
    let gpu = AmdGpu::new("/sys/class/drm/card0");
    assert_eq!(
        gpu.control_path("pwm1", true, Some("/h/hwmon3"), true).as_deref(),
        Some("/sys/class/drm/card0/device/pwm1")
    );
    assert_eq!(
        gpu.control_path("pwm1", false, Some("/h/hwmon3"), true).as_deref(),
        Some("/h/hwmon3/pwm1")
    );
    assert_eq!(gpu.control_path("pwm1", false, Some("/h/hwmon3"), false), None);
    assert_eq!(gpu.control_path("pwm1", false, None, true), None);
    let candidates = vec![
        HwmonCandidate { dir_name: "hwmon5".to_string(), name_text: "amdgpu".to_string() },
        HwmonCandidate { dir_name: "hwmon1".to_string(), name_text: "k10temp".to_string() },
        HwmonCandidate { dir_name: "hwmon2".to_string(), name_text: "amdgpu".to_string() },
    ];
    assert_eq!(
        gpu.hwmon_path(Some(&candidates)).as_deref(),
        Some("/sys/class/drm/card0/device/hwmon/hwmon2")
    );
    assert_eq!(gpu.hwmon_path(None), None);
}

#[test]
fn capabilities_follow_the_probe_and_the_tables() {
    let probe = DeviceProbe {
        performance_control: true,
        profile_control: true,
        power_cap_control: true,
        pwm_control: true,
        pwm_enable_control: false,
        power_limit_readable: true,
        fan_readable: true,
    };
    let full = AmdGpu::capabilities(&probe, PROFILES, OVERDRIVE);
    assert_eq!(
        full,
        Capabilities {
            performance: true,
            workload_profiles: true,
            core_clock: true,
            memory_clock: true,
            voltage: true,
            power_limit: true,
            fan: false,
        }
    );
    assert_eq!(full.score(), 6);
    let bare = AmdGpu::capabilities(&probe, "", "");
    assert!(!bare.workload_profiles && !bare.core_clock && !bare.memory_clock && !bare.voltage);
    assert_eq!(Capabilities::default().score(), 0);
}

#[test]
fn prefers_the_saved_card_then_the_most_capable() {
    let gpus = vec![
        GpuChoice { pci_id: "0000:15:00.0".to_string(), capabilities: caps(2) },
        GpuChoice { pci_id: "0000:03:00.0".to_string(), capabilities: caps(6) },
        GpuChoice { pci_id: "0000:04:00.0".to_string(), capabilities: caps(6) },
    ];
    assert_eq!(preferred_gpu_index(&gpus, Some("0000:15:00.0")), 0);
    assert_eq!(preferred_gpu_index(&gpus, Some("0000:99:00.0")), 2);
    assert_eq!(preferred_gpu_index(&gpus, None), 2);
    assert_eq!(preferred_gpu_index(&Vec::new(), None), 0);
}

#[test]
fn discovery_needs_a_listing() {
    assert!(discover_gpus(None).is_empty());
    let entries = vec![
        entry("card0", "0000:03:00.0", "0x1002", "amdgpu"),
        entry("card0-DP-1", "0000:03:00.0", "0x1002", "amdgpu"),
        entry("card3", "0000:05:00.0", "0x1002", "radeon"),
    ];
    let found = discover_gpus(Some(&entries));
    assert_eq!(found.len(), 1);
    assert_eq!(found[0].card_path(), "/sys/class/drm/card0");
}

#[test]
fn finds_a_card_by_its_address() {
    let gpus = vec![
        GpuChoice { pci_id: "0000:15:00.0".to_string(), capabilities: caps(1) },
        GpuChoice { pci_id: "0000:03:00.0".to_string(), capabilities: caps(1) },
    ];
    assert_eq!(find_card(&gpus, "0000:03:00.0"), Some(1));
    assert_eq!(find_card(&gpus, "0000:04:00.0"), None);
}

#[test]
fn the_vendor_id_is_compared_in_lower_case() {
    let entries = vec![entry("card4", "0000:04:00.0", "0X1002", "amdgpu")];
    assert_eq!(discover_gpus(Some(&entries)).len(), 1);
}

#[test]
fn telemetry_clocks_fall_back_to_the_active_level() {
    let states = AmdGpu::clock_states("sclk", "0: 500Mhz\n1: 2400Mhz *\n2: 2600Mhz *");
    assert_eq!(current_clock(Some(1800), &states), Some(1800));
    assert_eq!(current_clock(None, &states), Some(2400));
    assert_eq!(current_clock(None, &Vec::new()), None);
}

#[test]
fn clock_tables_are_read_only_for_known_domains() {
    assert_eq!(clock_table_file("sclk").as_deref(), Some("pp_dpm_sclk"));
    assert_eq!(clock_table_file("mclk").as_deref(), Some("pp_dpm_mclk"));
    assert_eq!(clock_table_file("fclk"), None);
}

#[test]
fn ascii_case_is_mapped_in_names_and_vendors() {
    assert_eq!(AmdGpu::name("", "0x73bf"), "AMD Radeon (73BF)");
    assert!(is_amd_device_exec(&entry("card0", "0000:03:00.0", "0x1002", "amdgpu")));
    assert!(!is_amd_device_exec(&entry("card0", "0000:03:00.0", "0x10de", "amdgpu")));
}
