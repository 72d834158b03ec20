use amdgpu_control::gpu::PowerProfile;
use amdgpu_control::tray::{
    performance_at, performance_index, profile_label, snapshot_for, AmdTray, TrayCard,
    TrayGpu, TrayProfile, TraySnapshot,
};

fn profile(index: u32, name: &str, active: bool) -> PowerProfile {
    PowerProfile { index, name: name.to_string(), active }
}

fn tray_with(profiles: Vec<TrayProfile>, gpus: usize, selected: usize) -> AmdTray {
    let mut snapshot = TraySnapshot::default();
    snapshot.gpus = (0..gpus)
        .map(|i| TrayGpu { pci_id: format!("0000:0{i}:00.0"), label: format!("GPU {i}") })
        .collect();
    snapshot.selected_gpu = selected;
    snapshot.profiles = profiles;
    AmdTray { snapshot }
}

#[test]
fn labels_known_and_unknown_profiles() {
    assert_eq!(profile_label("BOOTUP_DEFAULT"), "Padrão");
    assert_eq!(profile_label("3D_FULL_SCREEN"), "Jogo em tela cheia");
    assert_eq!(profile_label("POWER_SAVING"), "Economia de energia");
    assert_eq!(profile_label("VIDEO"), "Vídeo");
    assert_eq!(profile_label("VR"), "Realidade virtual");
    assert_eq!(profile_label("COMPUTE"), "Computação");
    assert_eq!(profile_label("CUSTOM"), "Personalizado");
    assert_eq!(profile_label("WINDOW_3D"), "Jogo em janela");
    assert_eq!(profile_label("CAPPED_POWER_SAVING"), "capped power saving");
}

#[test]
fn the_default_snapshot_shows_the_application() {
    let snapshot = TraySnapshot::default();
    assert_eq!(snapshot.gpu_title, "AMDGPU Control");
    assert_eq!(snapshot.tooltip, "Monitoramento da GPU AMD");
    assert_eq!(snapshot.performance, "auto");
    assert!(snapshot.gpus.is_empty() && snapshot.profiles.is_empty());
    assert_eq!(snapshot.selected_gpu, 0);
}

#[test]
fn snapshots_list_every_card_and_the_selected_ones_state() {
    let cards = vec![
        TrayCard { pci_id: "0000:15:00.0".to_string(), name: "AMD Radeon (164E)".to_string() },
        TrayCard { pci_id: "0000:03:00.0".to_string(), name: "RX 7900 XTX".to_string() },
    ];
    let profiles = vec![profile(0, "BOOTUP_DEFAULT", false), profile(1, "VR", true)];
    let snapshot = snapshot_for(&cards, 1, "Uso 42% · 51 °C · 123.0 W", "high", &profiles);
    assert_eq!(snapshot.gpu_title, "RX 7900 XTX");
    assert_eq!(snapshot.tooltip, "Uso 42% · 51 °C · 123.0 W");
    assert_eq!(snapshot.gpus[0].label, "AMD Radeon (164E) · 0000:15:00.0");
    assert_eq!(snapshot.gpus[1].pci_id, "0000:03:00.0");
    assert_eq!(snapshot.selected_gpu, 1);
    assert_eq!(snapshot.performance, "high");
    assert_eq!(snapshot.profiles[1].label, "Realidade virtual");
    assert!(snapshot.profiles[1].active && !snapshot.profiles[0].active);
    let missing = snapshot_for(&cards, 2, "x", "low", &profiles);
    assert_eq!(missing.gpu_title, "AMDGPU Control");
    assert!(missing.gpus.is_empty());
}

#[test]
fn performance_menu_positions() {
    assert_eq!(performance_index("auto"), 0);
    assert_eq!(performance_index("low"), 1);
    assert_eq!(performance_index("high"), 2);
    assert_eq!(performance_index("manual"), 3);
    assert_eq!(performance_index("profile_peak"), 0);
    assert_eq!(performance_at(2), Some("high"));
    assert_eq!(performance_at(4), None);
}

#[test]
fn the_menu_starts_on_the_current_choices() {
    let tray = tray_with(
        vec![
            TrayProfile { index: 0, label: "Padrão".to_string(), active: false },
            TrayProfile { index: 5, label: "Vídeo".to_string(), active: true },
        ],
        2,
        7,
    );
    let menu = tray.menu();
    assert_eq!(menu.gpu_choice, Some(1));
    assert_eq!(menu.performance_choice, 0);
    assert_eq!(menu.profile_choice, Some(1));
    let single = tray_with(Vec::new(), 1, 0);
    let menu = single.menu();
    assert_eq!(menu.gpu_choice, None);
    assert_eq!(menu.profile_choice, None);
    assert_eq!(AmdTray::id(), "amdgpu-control");
    assert_eq!(AmdTray::icon_name(), "io.github.amdgpucontrol.Control-gpu-symbolic");
    assert_eq!(single.title(), "AMDGPU Control");
}

#[test]
fn choosing_in_the_menu_updates_the_tray() {
    let mut tray = tray_with(
        vec![
            TrayProfile { index: 0, label: "Padrão".to_string(), active: true },
            TrayProfile { index: 5, label: "Vídeo".to_string(), active: false },
            TrayProfile { index: 5, label: "Vídeo".to_string(), active: false },
        ],
        2,
        0,
    );
    assert_eq!(tray.select_gpu(1).as_deref(), Some("0000:01:00.0"));
    assert_eq!(tray.snapshot.selected_gpu, 1);
    assert_eq!(tray.select_gpu(2), None);
    assert_eq!(tray.snapshot.selected_gpu, 1);
    assert_eq!(tray.select_performance(3), Some("manual"));
    assert_eq!(tray.snapshot.performance, "manual");
    assert_eq!(tray.select_performance(9), None);
    assert_eq!(tray.select_profile(1), Some(5));
    let active: Vec<bool> = tray.snapshot.profiles.iter().map(|p| p.active).collect();
    assert_eq!(active, vec![false, true, true]);
    assert_eq!(tray.select_profile(3), None);
}
