use amdgpu_control::gpu::{ClockRange, PowerProfile};
use amdgpu_control::writer::{
    apply_changes, choose_helper, decimal_string, failure_message, prefixed_decimal,
    pwm_from_percent, set_control_step, Control, ControlError, ControlEvent, ControlStep,
    ControlWrite, GpuSnapshot, PendingChanges,
};

fn writes(plan: &[ControlWrite]) -> Vec<(&'static str, String)> {
    plan.iter().map(|w| (w.control.as_str(), w.value.clone())).collect()
}

fn owned(items: &[(&'static str, &str)]) -> Vec<(&'static str, String)> {
    items.iter().map(|(c, v)| (*c, v.to_string())).collect()
}

#[test]
fn control_file_names() {
    assert_eq!(Control::Performance.as_str(), "power_dpm_force_performance_level");
    assert_eq!(Control::WorkloadProfile.as_str(), "pp_power_profile_mode");
    assert_eq!(Control::Overdrive.as_str(), "pp_od_clk_voltage");
    assert_eq!(Control::PowerLimit.as_str(), "power1_cap");
    assert_eq!(Control::FanPwm.as_str(), "pwm1");
    assert_eq!(Control::FanMode.as_str(), "pwm1_enable");
}

#[test]
fn error_messages() {
    assert_eq!(
        ControlError::HelperMissing.message(),
        "O helper amdgpu-control-helper não está instalado."
    );
    assert_eq!(
        ControlError::PkexecMissing.message(),
        "O pkexec não está instalado; não foi possível solicitar autorização."
    );
    assert_eq!(
        ControlError::Unsupported.message(),
        "Este controle não é oferecido pelo driver atual."
    );
    assert_eq!(ControlError::Rejected("nope".to_string()).message(), "nope");
    assert_eq!(
        ControlError::Spawn("No such file".to_string()).message(),
        "Não foi possível executar o helper: No such file"
    );
    assert_eq!(failure_message("  denied\n"), "denied");
    assert_eq!(failure_message(" \n"), "A alteração foi cancelada ou rejeitada pelo driver.");
}

#[test]
fn a_write_asks_for_authorization_only_on_status_77() {
    assert!(matches!(
        set_control_step(ControlEvent::ControlChecked { available: false }),
        ControlStep::Done(Err(ControlError::Unsupported))
    ));
    assert!(matches!(
        set_control_step(ControlEvent::ControlChecked { available: true }),
        ControlStep::LocateHelper
    ));
    assert!(matches!(
        set_control_step(ControlEvent::HelperLocated { found: false }),
        ControlStep::Done(Err(ControlError::HelperMissing))
    ));
    assert!(matches!(
        set_control_step(ControlEvent::HelperLocated { found: true }),
        ControlStep::RunHelper
    ));
    assert!(matches!(
        set_control_step(ControlEvent::HelperFinished {
            success: true,
            exit_code: Some(0),
            stderr: String::new()
        }),
        ControlStep::Done(Ok(()))
    ));
    assert!(matches!(
        set_control_step(ControlEvent::HelperFinished {
            success: false,
            exit_code: Some(77),
            stderr: String::new()
        }),
        ControlStep::CheckPkexec
    ));
    match set_control_step(ControlEvent::HelperFinished {
        success: false,
        exit_code: Some(1),
        stderr: "valor não permitido\n".to_string(),
    }) {
        ControlStep::Done(Err(ControlError::Rejected(m))) => assert_eq!(m, "valor não permitido"),
        _ => panic!("expected a rejection"),
    }
    assert!(matches!(
        set_control_step(ControlEvent::PkexecChecked { present: false }),
        ControlStep::Done(Err(ControlError::PkexecMissing))
    ));
    assert!(matches!(
        set_control_step(ControlEvent::PkexecChecked { present: true }),
        ControlStep::RunPkexec
    ));
    match set_control_step(ControlEvent::PkexecFinished { success: false, stderr: String::new() }) {
        ControlStep::Done(Err(ControlError::Rejected(m))) => {
            assert_eq!(m, "A alteração foi cancelada ou rejeitada pelo driver.")
        }
        _ => panic!("expected a rejection"),
    }
    assert!(matches!(
        set_control_step(ControlEvent::SpawnFailed { error: "x".to_string() }),
        ControlStep::Done(Err(ControlError::Spawn(_)))
    ));
}

#[test]
fn fan_percent_becomes_a_duty() {
    assert_eq!(pwm_from_percent(0), 0);
    assert_eq!(pwm_from_percent(50), 128);
    assert_eq!(pwm_from_percent(100), 255);
    assert_eq!(pwm_from_percent(-5), 0);
    assert_eq!(pwm_from_percent(180), 255);
    assert_eq!(pwm_from_percent(1), 3);
}

#[test]
fn numbers_print_as_to_string_does() {
    assert_eq!(decimal_string(0), "0");
    assert_eq!(decimal_string(-50), "-50");
    assert_eq!(decimal_string(i64::MIN), i64::MIN.to_string());
    assert_eq!(prefixed_decimal("s 1 ", 2500), "s 1 2500");
}

#[test]
fn applying_writes_overdrive_first_then_the_rest() {
    let pending = PendingChanges {
        performance: Some("high".to_string()),
        profile: Some(1),
        power_watts: Some(250),
        fan_automatic: Some(false),
        fan_percent: Some(50),
        sclk_min: Some(500),
        sclk_max: Some(2500),
        mclk_max: None,
        voltage_offset: Some(-50),
    };
    assert!(!pending.is_empty());
    assert!(PendingChanges::default().is_empty());
    assert_eq!(
        writes(&apply_changes(&pending)),
        owned(&[
            ("power_dpm_force_performance_level", "manual"),
            ("pp_od_clk_voltage", "s 0 500"),
            ("pp_od_clk_voltage", "s 1 2500"),
            ("pp_od_clk_voltage", "vo -50"),
            ("pp_od_clk_voltage", "c"),
            ("power_dpm_force_performance_level", "high"),
            ("pp_power_profile_mode", "1"),
            ("power1_cap", "250000000"),
            ("pwm1_enable", "1"),
            ("pwm1_enable", "1"),
            ("pwm1", "128"),
        ])
    );
    let only_fan = PendingChanges { fan_automatic: Some(true), ..PendingChanges::default() };
    assert_eq!(writes(&apply_changes(&only_fan)), owned(&[("pwm1_enable", "2")]));
    assert!(apply_changes(&PendingChanges::default()).is_empty());
}

#[test]
fn snapshots_capture_the_current_state() {
    let profiles = vec![
        PowerProfile { index: 0, name: "BOOTUP_DEFAULT".to_string(), active: false },
        PowerProfile { index: 4, name: "VR".to_string(), active: true },
    ];
    let sclk = ClockRange {
        current_minimum: 500,
        current_maximum: 2500,
        allowed_minimum: 300,
        allowed_maximum: 3000,
    };
    let snapshot: GpuSnapshot = GpuSnapshot::capture(
        "manual",
        &profiles,
        Some(265),
        Some((false, 50)),
        Some(sclk),
        None,
        Some((-50, -100, 0)),
    );
    assert_eq!(snapshot.performance, "manual");
    assert_eq!(snapshot.profile, Some(4));
    assert_eq!(snapshot.power_watts, Some(265));
    assert_eq!((snapshot.fan_automatic, snapshot.fan_percent), (Some(false), Some(50)));
    assert_eq!((snapshot.sclk_min, snapshot.sclk_max), (Some(500), Some(2500)));
    assert_eq!(snapshot.mclk_max, None);
    assert_eq!(snapshot.voltage_offset, Some(-50));
    let none_active = GpuSnapshot::capture("auto", &Vec::new(), None, None, None, None, None);
    assert_eq!(none_active.profile, None);
}

#[test]
fn the_helper_is_looked_for_in_order() {
    assert_eq!(
        choose_helper(Some(("/opt/h", true)), Some(("/usr/bin/h", true)), true).as_deref(),
        Some("/opt/h")
    );
    assert_eq!(
        choose_helper(Some(("/opt/h", false)), Some(("/usr/bin/h", true)), true).as_deref(),
        Some("/usr/bin/h")
    );
    assert_eq!(
        choose_helper(None, Some(("/usr/bin/h", false)), true).as_deref(),
        Some("/usr/libexec/amdgpu-control-helper")
    );
    assert_eq!(choose_helper(None, None, false), None);
}
