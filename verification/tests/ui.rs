use amdgpu_control::ui::{session_step, SessionAction, SessionEvent};
use amdgpu_control::ui::{session_notice, SessionKind, SessionOutcome};
use amdgpu_control::ui::switch_card;
use amdgpu_control::gpu::{Capabilities, ClockRange, PowerProfile};
use amdgpu_control::ui::{record_edit, tuning_rows, warning_title, ControlEdit};
use amdgpu_control::writer::PendingChanges;

fn caps() -> Capabilities {
    Capabilities {
        performance: true,
        workload_profiles: true,
        core_clock: true,
        memory_clock: false,
        voltage: true,
        power_limit: true,
        fan: true,
    }
}

#[test]
fn warnings_follow_what_the_card_offers() {
    let mut c = Capabilities::default();
    assert_eq!(warning_title(&c), None);
    c.power_limit = true;
    assert_eq!(warning_title(&c), Some("Ajustes de potência podem afetar a estabilidade."));
    c.memory_clock = true;
    assert_eq!(warning_title(&c), Some("Ajustes de clock podem causar instabilidade."));
    c.voltage = true;
    assert_eq!(warning_title(&c), Some("Overclock e undervolt podem causar instabilidade."));
    c.memory_clock = false;
    assert_eq!(warning_title(&c), Some("Ajustes de voltagem podem causar instabilidade."));
}

#[test]
fn rows_appear_only_for_offered_controls() {
    let profiles = vec![
        PowerProfile { index: 0, name: "BOOTUP_DEFAULT".to_string(), active: false },
        PowerProfile { index: 1, name: "3D_FULL_SCREEN".to_string(), active: true },
    ];
    let sclk = ClockRange {
        current_minimum: 500,
        current_maximum: 2500,
        allowed_minimum: 300,
        allowed_maximum: 3000,
    };
    let rows = tuning_rows(&caps(), "high", &profiles, Some(sclk), Some(sclk), Some((-50, -100, 0)));
    assert_eq!(rows.performance, Some(2));
    let p = rows.profiles.expect("profile row");
    assert_eq!(p.labels, vec!["Padrão".to_string(), "Jogo em tela cheia".to_string()]);
    assert_eq!(p.indices, vec![0, 1]);
    assert_eq!(p.selected, 1);
    assert!(rows.power_limit && rows.fan);
    let core = rows.core_clock.expect("core clock row");
    assert_eq!(core.subtitle, "Faixa do firmware: 300–3000 MHz");
    assert_eq!(core.range, sclk);
    assert!(rows.memory_clock.is_none());
    let v = rows.voltage.expect("voltage row");
    assert_eq!(v.subtitle, "Faixa permitida: -100 a 0 mV");
    assert_eq!((v.current, v.minimum, v.maximum), (-50, -100, 0));
    assert_eq!(rows.warning, Some("Overclock e undervolt podem causar instabilidade."));

    let none = tuning_rows(&Capabilities::default(), "auto", &profiles, None, None, None);
    assert!(none.performance.is_none() && none.profiles.is_none());
    assert!(none.core_clock.is_none() && none.voltage.is_none() && none.warning.is_none());
}

#[test]
fn edits_are_recorded_unless_the_page_is_rebuilding() {
    let indices = vec![0, 5];
    let mut pending = PendingChanges::default();
    assert!(!record_edit(&mut pending, ControlEdit::PowerWatts(200), &indices, true));
    assert!(pending.is_empty());
    assert!(record_edit(&mut pending, ControlEdit::Performance(1), &indices, false));
    assert_eq!(pending.performance.as_deref(), Some("low"));
    assert!(!record_edit(&mut pending, ControlEdit::Performance(4), &indices, false));
    assert!(record_edit(&mut pending, ControlEdit::Profile(1), &indices, false));
    assert_eq!(pending.profile, Some(5));
    assert!(!record_edit(&mut pending, ControlEdit::Profile(2), &indices, false));
    assert!(record_edit(&mut pending, ControlEdit::FanMode(1), &indices, false));
    assert_eq!(pending.fan_automatic, Some(false));
    assert!(record_edit(&mut pending, ControlEdit::FanMode(0), &indices, false));
    assert_eq!(pending.fan_automatic, Some(true));
    assert!(record_edit(&mut pending, ControlEdit::FanPercent(70), &indices, false));
    assert!(record_edit(&mut pending, ControlEdit::CoreClockMin(500), &indices, false));
    assert!(record_edit(&mut pending, ControlEdit::CoreClockMax(2600), &indices, false));
    assert!(record_edit(&mut pending, ControlEdit::MemoryClockMax(1300), &indices, false));
    assert!(record_edit(&mut pending, ControlEdit::VoltageOffset(-25), &indices, false));
    assert_eq!(
        (pending.fan_percent, pending.sclk_min, pending.sclk_max, pending.mclk_max, pending.voltage_offset),
        (Some(70), Some(500), Some(2600), Some(1300), Some(-25))
    );
}

#[test]
fn sessions_end_with_a_notice() {
    assert_eq!(
        session_notice(SessionKind::Apply, &SessionOutcome::ChangeFailed("x".to_string())),
        ("Ajustes desfeitos após uma falha: x".to_string(), 6)
    );
    assert_eq!(
        session_notice(SessionKind::Apply, &SessionOutcome::SaveFailed("disk".to_string())),
        ("Ajustes aplicados, mas não foi possível salvá-los: disk".to_string(), 6)
    );
    assert_eq!(
        session_notice(SessionKind::Apply, &SessionOutcome::Done),
        ("Alterações aplicadas".to_string(), 3)
    );
    assert_eq!(
        session_notice(SessionKind::Reset, &SessionOutcome::ChangeFailed("x".to_string())),
        ("Restauração desfeita após uma falha: x".to_string(), 6)
    );
    assert_eq!(
        session_notice(SessionKind::Reset, &SessionOutcome::SaveFailed("y".to_string())),
        ("Controles restaurados, mas o perfil salvo não foi apagado: y".to_string(), 6)
    );
    assert_eq!(
        session_notice(SessionKind::Reset, &SessionOutcome::Done),
        ("Controles restaurados para os padrões".to_string(), 3)
    );
}

#[test]
fn switching_cards_drops_pending_changes() {
    let mut pending = PendingChanges { profile: Some(2), ..PendingChanges::default() };
    assert_eq!(switch_card(0, 0, 2, &mut pending), None);
    assert_eq!(switch_card(0, 2, 2, &mut pending), None);
    assert_eq!(pending.profile, Some(2));
    assert_eq!(switch_card(0, 1, 2, &mut pending), Some(true));
    assert!(pending.is_empty());
    assert_eq!(switch_card(1, 0, 2, &mut pending), Some(false));
}

#[test]
fn a_card_without_controls_gets_no_group() {
    let none = tuning_rows(&Capabilities::default(), "auto", &Vec::new(), None, None, None);
    assert!(none.is_empty());
    let mut c = Capabilities::default();
    c.fan = true;
    assert!(!tuning_rows(&c, "auto", &Vec::new(), None, None, None).is_empty());
    c = Capabilities::default();
    c.core_clock = true;
    assert!(tuning_rows(&c, "auto", &Vec::new(), None, None, None).is_empty());
}

fn finish(action: SessionAction) -> (String, u32, bool, bool, bool) {
    match action {
        SessionAction::Finish { notice, seconds, clear_pending, rebuild, refresh } => {
            (notice, seconds, clear_pending, rebuild, refresh)
        }
        _ => panic!("expected the end of the session"),
    }
}

#[test]
fn sessions_roll_back_on_failure_and_store_on_success() {
    let apply = SessionKind::Apply;
    let reset = SessionKind::Reset;
    let start = |has_card, pending_empty| SessionEvent::Requested { has_card, pending_empty };
    assert!(matches!(session_step(apply, start(false, false)), SessionAction::Idle));
    assert!(matches!(session_step(apply, start(true, true)), SessionAction::Idle));
    assert!(matches!(session_step(apply, start(true, false)), SessionAction::Change));
    assert!(matches!(session_step(reset, start(true, true)), SessionAction::Change));
    assert!(matches!(session_step(reset, start(false, true)), SessionAction::Idle));
    match session_step(apply, SessionEvent::Changed { error: Some("x".to_string()) }) {
        SessionAction::RollBack { error } => assert_eq!(error, "x"),
        _ => panic!("expected a rollback"),
    }
    assert!(matches!(session_step(apply, SessionEvent::Changed { error: None }), SessionAction::Store));
    assert_eq!(
        finish(session_step(apply, SessionEvent::RolledBack { error: "x".to_string() })),
        ("Ajustes desfeitos após uma falha: x".to_string(), 6, false, true, false)
    );
    assert_eq!(
        finish(session_step(reset, SessionEvent::RolledBack { error: "x".to_string() })),
        ("Restauração desfeita após uma falha: x".to_string(), 6, false, false, false)
    );
    assert_eq!(
        finish(session_step(apply, SessionEvent::Stored { error: None })),
        ("Alterações aplicadas".to_string(), 3, true, true, true)
    );
    assert_eq!(
        finish(session_step(reset, SessionEvent::Stored { error: Some("disk".to_string()) })),
        ("Controles restaurados, mas o perfil salvo não foi apagado: disk".to_string(), 6, true, true, true)
    );
}
