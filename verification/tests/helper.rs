use amdgpu_control::gpu::CardEntry;
use amdgpu_control::helper::{
    check_request, control_is_allowed, exit_report, locate_control, locate_device, signed,
    unsigned, valid_pci_id, valid_value, write_control, ControlProbe, ControlSite, DrmCard,
    HelperError, HelperOutcome, HwmonDir,
};

fn card(name: &str, pci: &str, vendor: &str, driver: &str, direct: bool) -> DrmCard {
    DrmCard {
        entry: CardEntry {
            name: name.to_string(),
            device_target: Some(format!("/sys/devices/pci0000:00/{pci}")),
            vendor_text: vendor.to_string(),
            driver_target: Some(format!("/sys/bus/pci/drivers/{driver}")),
        },
        control: ControlProbe { direct_is_file: direct, hwmon: Some(Vec::new()) },
    }
}

#[test]
fn validates_control_values() {
    assert!(valid_value("power_dpm_force_performance_level", "manual"));
    assert!(valid_value("pp_od_clk_voltage", "s 1 2500"));
    assert!(valid_value("pp_od_clk_voltage", "vo -50"));
    assert!(valid_value("pwm1", "255"));
    assert!(!valid_value("pwm1", "256"));
    assert!(!valid_value("pp_od_clk_voltage", "../../shadow"));
    assert!(!valid_value("power1_cap", "10W"));
}

#[test]
fn validates_pci_addresses() {
    assert!(valid_pci_id("0000:03:00.0"));
    assert!(!valid_pci_id("../../../tmp"));
}

#[test]
fn locates_only_an_amdgpu_device_and_writes_an_allowlisted_control() {
    let cards = vec![card("card0", "0000:03:00.0", "0x1002", "amdgpu", true)];
    assert_eq!(
        write_control("power_dpm_force_performance_level", "high", "0000:03:00.0", Some(&cards)),
        Ok((0, ControlSite::Direct))
    );
    assert!(write_control("../../etc/shadow", "high", "0000:03:00.0", Some(&cards)).is_err());
}

#[test]
fn accepts_every_overdrive_command_shape() {
    assert!(valid_value("pp_od_clk_voltage", "c"));
    assert!(valid_value("pp_od_clk_voltage", "r"));
    assert!(valid_value("pp_od_clk_voltage", "m 1 1200"));
    assert!(valid_value("pp_od_clk_voltage", "s 0 500 900"));
    assert!(valid_value("pp_od_clk_voltage", "vc 2 2000 1100"));
    assert!(valid_value("pp_od_clk_voltage", "  s   1\t2500 "));
    assert!(!valid_value("pp_od_clk_voltage", "vc 3 2000 1100"));
    assert!(!valid_value("pp_od_clk_voltage", "s -1 500"));
    assert!(!valid_value("pp_od_clk_voltage", "vo 5 5"));
    assert!(!valid_value("pp_od_clk_voltage", ""));
    assert!(!valid_value("pp_od_clk_voltage", "x 1 2"));
}

#[test]
fn checks_the_other_controls() {
    assert!(valid_value("pp_power_profile_mode", "3"));
    assert!(!valid_value("pp_power_profile_mode", "-3"));
    assert!(valid_value("power1_cap", "9999000000"));
    assert!(!valid_value("power1_cap", "10000000000"));
    assert!(valid_value("pwm1", "0"));
    assert!(valid_value("pwm1", "+12"));
    assert!(!valid_value("pwm1", "70000"));
    assert!(valid_value("pwm1_enable", "2"));
    assert!(!valid_value("pwm1_enable", "3"));
    assert!(valid_value("power_dpm_force_performance_level", "profile_peak"));
    assert!(!valid_value("power_dpm_force_performance_level", "turbo"));
    assert!(!valid_value("fan1_target", "1"));
}

#[test]
fn numbers_are_digits_with_an_optional_sign() {
    assert!(unsigned("0123"));
    assert!(!unsigned(""));
    assert!(!unsigned("-1"));
    assert!(signed("-50"));
    assert!(signed("50"));
    assert!(!signed("-"));
    assert!(!signed("--5"));
}

#[test]
fn pci_addresses_need_hex_digits_and_separators() {
    assert!(valid_pci_id("0000:0a:1F.7"));
    assert!(!valid_pci_id("0000:03:00:0"));
    assert!(!valid_pci_id("0000:03:00.00"));
    assert!(!valid_pci_id("0000:0g:00.0"));
}

#[test]
fn allows_only_the_listed_controls() {
    for control in [
        "power_dpm_force_performance_level",
        "pp_power_profile_mode",
        "pp_od_clk_voltage",
        "power1_cap",
        "pwm1",
        "pwm1_enable",
    ] {
        assert!(control_is_allowed(control));
    }
    assert!(!control_is_allowed("../../etc/shadow"));
}

#[test]
fn refuses_requests_in_order() {
    assert_eq!(check_request("pwm1", "999", "bad"), Err(HelperError::ValueRejected));
    assert_eq!(check_request("pwm1", "9", "bad"), Err(HelperError::InvalidPci));
    assert_eq!(check_request("pwm1", "9", "0000:03:00.0"), Ok(()));
}

#[test]
fn locates_the_device_of_the_address() {
    let cards = vec![
        card("renderD128", "0000:03:00.0", "0x1002", "amdgpu", true),
        card("card1", "0000:00:02.0", "0x8086", "i915", true),
        card("card0", "0000:03:00.0", "0x1002", "amdgpu", true),
    ];
    assert_eq!(locate_device("0000:03:00.0", Some(&cards)), Ok(2));
    assert_eq!(locate_device("0000:00:02.0", Some(&cards)), Err(HelperError::NotAmdgpu));
    assert_eq!(locate_device("0000:09:00.0", Some(&cards)), Err(HelperError::GpuNotFound));
    assert_eq!(locate_device("0000:03:00.0", None), Err(HelperError::DrmMissing));
    assert_eq!(locate_device("nope", Some(&cards)), Err(HelperError::InvalidPci));
}

#[test]
fn finds_the_control_directly_or_in_an_amdgpu_hwmon() {
    let direct = ControlProbe { direct_is_file: true, hwmon: None };
    assert_eq!(locate_control(&direct), Ok(ControlSite::Direct));
    let hwmon = ControlProbe {
        direct_is_file: false,
        hwmon: Some(vec![
            HwmonDir { name_text: "k10temp".to_string(), has_control: true },
            HwmonDir { name_text: "amdgpu".to_string(), has_control: false },
            HwmonDir { name_text: "amdgpu".to_string(), has_control: true },
        ]),
    };
    assert_eq!(locate_control(&hwmon), Ok(ControlSite::Hwmon(2)));
    let missing = ControlProbe { direct_is_file: false, hwmon: None };
    assert_eq!(locate_control(&missing), Err(HelperError::ControlMissing));
}

#[test]
fn reports_each_outcome_with_its_exit_status() {
    assert_eq!(exit_report(&HelperOutcome::Written), (0, None));
    let (code, message) = exit_report(&HelperOutcome::Usage);
    assert_eq!(code, 64);
    assert_eq!(message.as_deref(), Some("uso: amdgpu-control-helper <pci> <controle> <valor>"));
    let (code, message) = exit_report(&HelperOutcome::PermissionDenied);
    assert_eq!(code, 77);
    assert_eq!(message.as_deref(), Some("este ajuste precisa de autorização do Polkit"));
    let (code, message) = exit_report(&HelperOutcome::Refused(HelperError::ValueRejected));
    assert_eq!(code, 1);
    assert_eq!(message.as_deref(), Some("valor não permitido"));
    let (code, message) = exit_report(&HelperOutcome::Failed("disk on fire".to_string()));
    assert_eq!((code, message.as_deref()), (1, Some("disk on fire")));
}
