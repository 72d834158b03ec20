use amdgpu_control::settings::{
    app_settings_empty,
    clear_device, load, save, set_selected_gpu, settings_path, update_device, AppSettings,
    DeviceEntry, DeviceSettings, SettingsFile,
};
use amdgpu_control::writer::PendingChanges;

fn entry(pci: &str, power: Option<i32>) -> DeviceEntry {
    DeviceEntry {
        pci_id: pci.to_string(),
        settings: DeviceSettings { power_watts: power, ..DeviceSettings::default() },
    }
}

#[test]
fn legacy_settings_without_selection_load_as_they_are() {
    let read = SettingsFile {
        app: AppSettings::default(),
        devices: vec![DeviceEntry {
            pci_id: "0000:03:00.0".to_string(),
            settings: DeviceSettings {
                performance: Some("high".to_string()),
                power_watts: Some(290),
                ..DeviceSettings::default()
            },
        }],
    };
    let mut value = load(Some(read));
    assert_eq!(value.device("0000:03:00.0").unwrap().power_watts, Some(290));
    set_selected_gpu(&mut value, "0000:03:00.0");
    assert_eq!(value.app.selected_gpu.as_deref(), Some("0000:03:00.0"));
    assert_eq!(value.device("0000:03:00.0").unwrap().performance.as_deref(), Some("high"));
}

#[test]
fn unreadable_settings_load_empty() {
    let value = load(None);
    assert_eq!(value.app, AppSettings::default());
    assert!(value.devices.is_empty());
    let defaults = SettingsFile::default();
    assert!(defaults.devices.is_empty() && defaults.app.selected_gpu.is_none());
}

#[test]
fn a_repeated_card_keeps_its_last_entry() {
    let read = SettingsFile {
        app: AppSettings::default(),
        devices: vec![
            entry("0000:03:00.0", Some(200)),
            entry("0000:04:00.0", Some(100)),
            entry("0000:03:00.0", Some(250)),
        ],
    };
    let value = load(Some(read));
    assert_eq!(value.devices.len(), 2);
    assert_eq!(value.device("0000:03:00.0").unwrap().power_watts, Some(250));
    assert_eq!(value.device("0000:04:00.0").unwrap().power_watts, Some(100));
}

#[test]
fn updates_merge_pending_changes_into_saved_ones() {
    let mut value = SettingsFile::new();
    let first = PendingChanges { profile: Some(1), fan_percent: Some(40), ..PendingChanges::default() };
    update_device(&mut value, "0000:03:00.0", &first);
    let second = PendingChanges {
        performance: Some("high".to_string()),
        sclk_max: Some(2600),
        ..PendingChanges::default()
    };
    update_device(&mut value, "0000:03:00.0", &second);
    let saved = value.device("0000:03:00.0").unwrap();
    assert_eq!(saved.profile, Some(1));
    assert_eq!(saved.fan_percent, Some(40));
    assert_eq!(saved.sclk_max, Some(2600));
    assert_eq!(saved.performance.as_deref(), Some("manual"));
    assert_eq!(value.devices.len(), 1);
}

#[test]
fn clearing_forgets_only_that_card() {
    let mut value = load(Some(SettingsFile {
        app: AppSettings { selected_gpu: Some("0000:04:00.0".to_string()) },
        devices: vec![entry("0000:03:00.0", Some(200)), entry("0000:04:00.0", Some(100))],
    }));
    clear_device(&mut value, "0000:03:00.0");
    assert!(value.device("0000:03:00.0").is_none());
    assert_eq!(value.device("0000:04:00.0").unwrap().power_watts, Some(100));
    clear_device(&mut value, "0000:09:00.0");
    assert_eq!(value.devices.len(), 1);
    assert_eq!(value.app.selected_gpu.as_deref(), Some("0000:04:00.0"));
}

#[test]
fn settings_live_in_the_configuration_directory() {
    assert_eq!(
        settings_path(Some("/cfg"), Some("/home/ana")),
        "/cfg/amdgpu-control/settings.json"
    );
    assert_eq!(
        settings_path(None, Some("/home/ana")),
        "/home/ana/.config/amdgpu-control/settings.json"
    );
    assert_eq!(settings_path(None, None), ".config/amdgpu-control/settings.json");
}

#[test]
fn saving_writes_a_temporary_file_then_renames_it() {
    let plan = save(None, Some("/home/ana/"), b"{}");
    assert_eq!(plan.directory, "/home/ana/.config/amdgpu-control");
    assert_eq!(plan.temporary, "/home/ana/.config/amdgpu-control/settings.tmp");
    assert_eq!(plan.target, "/home/ana/.config/amdgpu-control/settings.json");
    assert_eq!(plan.contents, b"{}\n".to_vec());
}

#[test]
fn empty_application_settings_are_left_out() {
    assert!(app_settings_empty(&AppSettings::default()));
    assert!(!app_settings_empty(&AppSettings { selected_gpu: Some("0000:03:00.0".to_string()) }));
}

#[test]
fn the_temporary_file_is_not_the_settings_file() {
    let plan = save(Some(""), None, b"");
    assert_eq!(plan.temporary, "amdgpu-control/settings.tmp");
    assert_eq!(plan.target, "amdgpu-control/settings.json");
    assert_ne!(plan.temporary, plan.target);
}
