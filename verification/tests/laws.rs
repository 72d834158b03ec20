use amdgpu_control::gpu::{preferred_gpu_index, Capabilities, GpuChoice};
use amdgpu_control::helper::{control_is_allowed, valid_value};
use amdgpu_control::plans::{reset_controls, restore_snapshot, ResetFacts};
use amdgpu_control::settings::{set_selected_gpu, SettingsFile};
use amdgpu_control::writer::{
    apply_changes, decimal_string, pwm_from_percent, Control, ControlWrite, GpuSnapshot,
    PendingChanges,
};

fn accepted(plan: &[ControlWrite]) -> bool {
    plan.iter().all(|w| control_is_allowed(w.control.as_str()) && valid_value(w.control.as_str(), &w.value))
}

#[test]
fn every_control_name_is_one_the_helper_allows() {
    for c in [
        Control::Performance,
        Control::WorkloadProfile,
        Control::Overdrive,
        Control::PowerLimit,
        Control::FanPwm,
        Control::FanMode,
    ] {
        assert!(control_is_allowed(c.as_str()));
    }
}

#[test]
fn every_fan_speed_becomes_an_accepted_duty() {
    for percent in [-1000, -1, 0, 1, 33, 50, 99, 100, 101, i32::MAX] {
        assert!(valid_value("pwm1", &decimal_string(pwm_from_percent(percent) as i64)));
    }
}

#[test]
fn planned_writes_in_range_pass_the_helper() {
    let pending = PendingChanges {
        performance: Some("manual".to_string()),
        profile: Some(3),
        power_watts: Some(9999),
        fan_automatic: Some(false),
        fan_percent: Some(-7),
        sclk_min: Some(0),
        sclk_max: Some(2500),
        mclk_max: Some(1200),
        voltage_offset: Some(i32::MIN),
    };
    assert!(accepted(&apply_changes(&pending)));
    let snapshot = GpuSnapshot {
        performance: "profile_peak".to_string(),
        profile: Some(0),
        power_watts: Some(0),
        fan_automatic: Some(false),
        fan_percent: Some(200),
        sclk_min: Some(300),
        sclk_max: Some(3000),
        mclk_max: None,
        voltage_offset: Some(-100),
    };
    assert!(accepted(&restore_snapshot(&snapshot, true)));
    let facts = ResetFacts {
        has_overdrive: true,
        power_default_microwatts: Some(9_999_999_999),
        has_fan_mode: true,
        has_workload_profile: true,
        has_performance: true,
    };
    assert!(accepted(&reset_controls(&facts)));
}

#[test]
fn a_saved_selection_is_the_card_selected_next() {
    let gpus = vec![
        GpuChoice { pci_id: "0000:15:00.0".to_string(), capabilities: Capabilities::default() },
        GpuChoice {
            pci_id: "0000:03:00.0".to_string(),
            capabilities: Capabilities { performance: true, ..Capabilities::default() },
        },
    ];
    let mut settings = SettingsFile::new();
    assert_eq!(preferred_gpu_index(&gpus, settings.app.selected_gpu.as_deref()), 1);
    set_selected_gpu(&mut settings, "0000:15:00.0");
    assert_eq!(preferred_gpu_index(&gpus, settings.app.selected_gpu.as_deref()), 0);
}
