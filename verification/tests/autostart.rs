use amdgpu_control::autostart::{is_enabled, set_enabled, user_autostart_path};

#[test]
fn enables_and_disables_the_session_autostart() {
    assert!(is_enabled(None));
    let disabled = set_enabled(false);
    assert!(!is_enabled(Some(&disabled)));
    let enabled = set_enabled(true);
    assert!(is_enabled(Some(&enabled)));
    assert!(enabled.contains("Exec=amdgpu-control --background"));
    assert!(enabled.contains("Hidden=false"));
}

#[test]
fn a_hidden_line_disables_in_any_case_and_spacing() {
    assert!(!is_enabled(Some("[Desktop Entry]\n  HIDDEN = True \n")));
    assert!(!is_enabled(Some("hidden=true")));
    assert!(is_enabled(Some("[Desktop Entry]\nHidden=false\n")));
    assert!(is_enabled(Some("X-Hidden=true\n")));
    assert!(is_enabled(Some("")));
}

#[test]
fn the_disabled_entry_is_short() {
    assert_eq!(set_enabled(false), "[Desktop Entry]\nType=Application\nHidden=true\n");
    assert!(set_enabled(true).ends_with("OnlyShowIn=GNOME;\nHidden=false\n"));
}

#[test]
fn the_entry_lives_in_the_autostart_directory() {
    assert_eq!(
        user_autostart_path(None, Some("/home/ana")),
        "/home/ana/.config/autostart/io.github.amdgpucontrol.Control.desktop"
    );
    assert_eq!(
        user_autostart_path(Some("/x"), Some("/home/ana")),
        "/x/autostart/io.github.amdgpucontrol.Control.desktop"
    );
    assert_eq!(
        user_autostart_path(None, None),
        ".config/autostart/io.github.amdgpucontrol.Control.desktop"
    );
}
