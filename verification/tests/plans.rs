use amdgpu_control::plans::restore_ranges_are_ordered;
use amdgpu_control::gpu::ClockRange;
use amdgpu_control::plans::{
    reset_controls, restore_settings, restore_snapshot, Guard, Mark, PlannedWrite,
    ResetFacts, RestoreFacts, RestoreProgress,
};
use amdgpu_control::settings::DeviceSettings;
use amdgpu_control::writer::{ControlWrite, GpuSnapshot};

fn writes(plan: &[ControlWrite]) -> Vec<(&'static str, String)> {
    plan.iter().map(|w| (w.control.as_str(), w.value.clone())).collect()
}

fn planned(plan: &[PlannedWrite]) -> Vec<(&'static str, String, Guard, Mark)> {
    plan.iter()
        .map(|p| (p.write.control.as_str(), p.write.value.clone(), p.guard, p.mark))
        .collect()
}

fn owned(items: &[(&'static str, &str)]) -> Vec<(&'static str, String)> {
    items.iter().map(|(c, v)| (*c, v.to_string())).collect()
}

fn snapshot() -> GpuSnapshot {
    GpuSnapshot {
        performance: "auto".to_string(),
        profile: Some(0),
        power_watts: Some(265),
        fan_automatic: Some(false),
        fan_percent: Some(100),
        sclk_min: Some(500),
        sclk_max: None,
        mclk_max: Some(1200),
        voltage_offset: None,
    }
}

#[test]
fn rolls_back_to_a_snapshot() {
    assert_eq!(
        writes(&restore_snapshot(&snapshot(), true)),
        owned(&[
            ("power_dpm_force_performance_level", "manual"),
            ("pp_od_clk_voltage", "r"),
            ("pp_od_clk_voltage", "s 0 500"),
            ("pp_od_clk_voltage", "m 1 1200"),
            ("pp_od_clk_voltage", "c"),
            ("pp_power_profile_mode", "0"),
            ("power1_cap", "265000000"),
            ("pwm1_enable", "1"),
            ("pwm1", "255"),
            ("power_dpm_force_performance_level", "auto"),
        ])
    );
    let mut automatic = snapshot();
    automatic.fan_automatic = Some(true);
    assert_eq!(
        writes(&restore_snapshot(&automatic, false)),
        owned(&[
            ("pp_power_profile_mode", "0"),
            ("power1_cap", "265000000"),
            ("pwm1_enable", "2"),
            ("power_dpm_force_performance_level", "auto"),
        ])
    );
}

#[test]
fn resets_what_the_card_offers() {
    let facts = ResetFacts {
        has_overdrive: true,
        power_default_microwatts: Some(250_000_000),
        has_fan_mode: true,
        has_workload_profile: true,
        has_performance: true,
    };
    assert_eq!(
        writes(&reset_controls(&facts)),
        owned(&[
            ("pp_od_clk_voltage", "r"),
            ("pp_od_clk_voltage", "c"),
            ("power1_cap", "250000000"),
            ("pwm1_enable", "2"),
            ("pp_power_profile_mode", "0"),
            ("power_dpm_force_performance_level", "auto"),
        ])
    );
    let nothing = ResetFacts {
        has_overdrive: false,
        power_default_microwatts: None,
        has_fan_mode: false,
        has_workload_profile: false,
        has_performance: false,
    };
    assert!(reset_controls(&nothing).is_empty());
}

#[test]
fn restores_saved_settings_clamped_to_the_card() {
    let values = DeviceSettings {
        performance: Some("high".to_string()),
        profile: Some(7),
        power_watts: Some(400),
        fan_automatic: Some(false),
        fan_percent: Some(50),
        sclk_min: Some(100),
        sclk_max: Some(50),
        mclk_max: Some(5000),
        voltage_offset: Some(-300),
    };
    let facts = RestoreFacts {
        profile_indices: vec![0, 1, 7],
        power_range_watts: Some((200, 300)),
        sclk_range: Some(ClockRange {
            current_minimum: 500,
            current_maximum: 2500,
            allowed_minimum: 300,
            allowed_maximum: 3000,
        }),
        mclk_range: Some(ClockRange {
            current_minimum: 96,
            current_maximum: 1200,
            allowed_minimum: 90,
            allowed_maximum: 1400,
        }),
        voltage: Some((-50, -100, 0)),
    };
    let plan = restore_settings(&values, &facts);
    let always = Guard::Always;
    assert_eq!(
        planned(&plan),
        vec![
            ("pp_power_profile_mode", "7".to_string(), always, Mark::Nothing),
            ("power1_cap", "300000000".to_string(), always, Mark::Nothing),
            ("pwm1_enable", "1".to_string(), always, Mark::FanMode),
            ("pwm1", "128".to_string(), Guard::AfterFanMode, Mark::Nothing),
            ("power_dpm_force_performance_level", "manual".to_string(), always, Mark::Nothing),
            ("pp_od_clk_voltage", "s 0 300".to_string(), always, Mark::OverdrivePoint),
            ("pp_od_clk_voltage", "s 1 300".to_string(), always, Mark::OverdrivePoint),
            ("power_dpm_force_performance_level", "manual".to_string(), always, Mark::Nothing),
            ("pp_od_clk_voltage", "m 1 1400".to_string(), always, Mark::OverdrivePoint),
            ("power_dpm_force_performance_level", "manual".to_string(), always, Mark::Nothing),
            ("pp_od_clk_voltage", "vo -100".to_string(), always, Mark::OverdrivePoint),
            ("pp_od_clk_voltage", "c".to_string(), Guard::AfterOverdrive, Mark::Nothing),
            ("power_dpm_force_performance_level", "high".to_string(), always, Mark::Nothing),
        ]
    );
}

#[test]
fn unknown_profiles_and_levels_are_not_restored() {
    let values = DeviceSettings {
        performance: Some("turbo".to_string()),
        profile: Some(9),
        ..DeviceSettings::default()
    };
    let facts = RestoreFacts {
        profile_indices: vec![0, 1],
        power_range_watts: None,
        sclk_range: None,
        mclk_range: None,
        voltage: None,
    };
    assert_eq!(
        planned(&restore_settings(&values, &facts)),
        vec![("pp_od_clk_voltage", "c".to_string(), Guard::AfterOverdrive, Mark::Nothing)]
    );
}

#[test]
fn guarded_writes_wait_for_what_they_need() {
    let mut progress = RestoreProgress::new();
    assert!(progress.allows(Guard::Always));
    assert!(!progress.allows(Guard::AfterFanMode));
    assert!(!progress.allows(Guard::AfterOverdrive));
    progress.record(Mark::FanMode, false);
    assert!(!progress.allows(Guard::AfterFanMode));
    progress.record(Mark::FanMode, true);
    assert!(progress.allows(Guard::AfterFanMode));
    progress.record(Mark::OverdrivePoint, false);
    assert!(!progress.allows(Guard::AfterOverdrive));
    progress.record(Mark::OverdrivePoint, true);
    progress.record(Mark::OverdrivePoint, false);
    assert!(progress.allows(Guard::AfterOverdrive));
}

#[test]
fn backwards_ranges_are_noticed_before_restoring() {
    let values = DeviceSettings { power_watts: Some(250), ..DeviceSettings::default() };
    let mut facts = RestoreFacts {
        profile_indices: Vec::new(),
        power_range_watts: Some((300, 200)),
        sclk_range: None,
        mclk_range: None,
        voltage: Some((0, 10, -10)),
    };
    assert!(!restore_ranges_are_ordered(&values, &facts));
    facts.power_range_watts = Some((200, 300));
    assert!(restore_ranges_are_ordered(&values, &facts));
    assert!(restore_ranges_are_ordered(&DeviceSettings::default(), &facts));
}
