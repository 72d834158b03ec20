//! The tuning page's decisions: which rows it shows for a card and with
//! what values, what an edit records among the pending changes, and which
//! warning it shows.

use vstd::prelude::*;
use crate::gpu::{
    active_position, find_active, lemma_saved_card_selected, preferred_index_spec, Capabilities,
    ClockRange, GpuChoice, PowerProfile,
};
use crate::settings::{opt_text, DeviceSettingsView, SettingsView};
use crate::text::decimal;
use crate::tray::{
    performance_at, performance_index, performance_index_spec, performance_value, profile_label,
    profile_label_spec, snapshot_spec, TrayCard,
};
use crate::writer::{decimal_string, PendingChanges};

verus! {

/// The warning shown above the tuning controls: about overclocking and
/// undervolting, voltage, clocks or power, after what the card offers.
pub open spec fn warning_spec(c: Capabilities) -> Option<Seq<char>> {
    let clock = c.core_clock || c.memory_clock;
    if clock && c.voltage {
        Some("Overclock e undervolt podem causar instabilidade."@)
    } else if c.voltage {
        Some("Ajustes de voltagem podem causar instabilidade."@)
    } else if clock {
        Some("Ajustes de clock podem causar instabilidade."@)
    } else if c.power_limit {
        Some("Ajustes de potência podem afetar a estabilidade."@)
    } else {
        None
    }
}

/// The warning for a card with these capabilities; none when it offers no
/// clock, voltage or power control.
pub fn warning_title(c: &Capabilities) -> (r: Option<&'static str>)
    ensures
        match r {
            Some(t) => warning_spec(*c) == Some(t@),
            None => warning_spec(*c) is None,
        },
        r is None <==> !(c.core_clock || c.memory_clock || c.voltage || c.power_limit),
{
    let clock = c.core_clock || c.memory_clock;
    if clock && c.voltage {
        Some("Overclock e undervolt podem causar instabilidade.")
    } else if c.voltage {
        Some("Ajustes de voltagem podem causar instabilidade.")
    } else if clock {
        Some("Ajustes de clock podem causar instabilidade.")
    } else if c.power_limit {
        Some("Ajustes de potência podem afetar a estabilidade.")
    } else {
        None
    }
}

/// The warning is contextual: it speaks of overclocking and undervolting
/// only for a card with both an overdrive clock and a voltage offset, of
/// voltage alone only for a card with a voltage offset and no overdrive
/// clock, of clocks only for a card with an overdrive clock and no voltage
/// offset, of power only for a card with a power limit and neither of the
/// others; a card with none of these gets no warning.
pub proof fn lemma_warning_contextual(c: Capabilities)
    ensures
        warning_spec(c) == Some("Overclock e undervolt podem causar instabilidade."@) <==> (
        c.core_clock || c.memory_clock) && c.voltage,
        warning_spec(c) == Some("Ajustes de voltagem podem causar instabilidade."@) <==> !(
        c.core_clock || c.memory_clock) && c.voltage,
        warning_spec(c) == Some("Ajustes de clock podem causar instabilidade."@) <==> (c.core_clock
            || c.memory_clock) && !c.voltage,
        warning_spec(c) == Some("Ajustes de potência podem afetar a estabilidade."@) <==> !(
        c.core_clock || c.memory_clock) && !c.voltage && c.power_limit,
        warning_spec(c) is None <==> !(c.core_clock || c.memory_clock || c.voltage
            || c.power_limit),
{
    reveal_strlit("Overclock e undervolt podem causar instabilidade.");
    reveal_strlit("Ajustes de voltagem podem causar instabilidade.");
    reveal_strlit("Ajustes de clock podem causar instabilidade.");
    reveal_strlit("Ajustes de potência podem afetar a estabilidade.");
    assert("Overclock e undervolt podem causar instabilidade."@.len() == 49);
    assert("Ajustes de voltagem podem causar instabilidade."@.len() == 47);
    assert("Ajustes de clock podem causar instabilidade."@.len() == 44);
}

/// The row of an overdrive clock: its subtitle, the range its spin buttons
/// allow and the values they start with.
pub struct ClockRow {
    pub subtitle: String,
    pub range: ClockRange,
}

/// `Faixa do firmware: <min>–<max> MHz`.
pub open spec fn clock_subtitle(r: ClockRange) -> Seq<char> {
    "Faixa do firmware: "@ + decimal(r.allowed_minimum as int) + "–"@ + decimal(
        r.allowed_maximum as int,
    ) + " MHz"@
}

/// The voltage offset row: its subtitle and the offset's current value and
/// allowed range, in mV.
pub struct VoltageRow {
    pub subtitle: String,
    pub current: i32,
    pub minimum: i32,
    pub maximum: i32,
}

/// `Faixa permitida: <min> a <max> mV`.
pub open spec fn voltage_subtitle(minimum: i32, maximum: i32) -> Seq<char> {
    "Faixa permitida: "@ + decimal(minimum as int) + " a "@ + decimal(maximum as int) + " mV"@
}

/// The workload profile row: the labels of its choices, the profile index
/// behind each, and the choice it starts on.
pub struct ProfileRow {
    pub labels: Vec<String>,
    pub indices: Vec<u32>,
    pub selected: usize,
}

/// The rows of the tuning page for one card. The power limit and fan rows
/// show their values in fractional units and are built by the caller when
/// `power_limit` or `fan` is set and the card reports the values.
pub struct TuningRows {
    /// The performance level row and the choice it starts on.
    pub performance: Option<usize>,
    pub profiles: Option<ProfileRow>,
    pub power_limit: bool,
    pub fan: bool,
    pub core_clock: Option<ClockRow>,
    pub memory_clock: Option<ClockRow>,
    pub voltage: Option<VoltageRow>,
    pub warning: Option<&'static str>,
}

/// The page has no row at all.
pub open spec fn rows_empty(r: TuningRows) -> bool {
    !(r.performance is Some || r.profiles is Some || r.power_limit || r.fan || r.core_clock is Some
        || r.memory_clock is Some || r.voltage is Some)
}

/// The card offers none of the tuning controls.
pub open spec fn offers_nothing(c: Capabilities) -> bool {
    !(c.performance || c.workload_profiles || c.power_limit || c.fan || c.core_clock
        || c.memory_clock || c.voltage)
}

impl TuningRows {
    /// Whether the page has no row at all; the page then shows no group
    /// of tuning controls.
    pub fn is_empty(&self) -> (r: bool)
        ensures
            r == rows_empty(*self),
    {
        self.performance.is_none() && self.profiles.is_none() && !self.power_limit && !self.fan
            && self.core_clock.is_none() && self.memory_clock.is_none() && self.voltage.is_none()
    }
}

fn clock_row(r: ClockRange) -> (row: ClockRow)
    ensures
        row.subtitle@ == clock_subtitle(r),
        row.range == r,
{
    let mut s = String::from_str("Faixa do firmware: ");
    let lo = decimal_string(r.allowed_minimum as i64);
    let hi = decimal_string(r.allowed_maximum as i64);
    s.append(lo.as_str());
    s.append("–");
    s.append(hi.as_str());
    s.append(" MHz");
    ClockRow { subtitle: s, range: r }
}

fn profile_row(profiles: &Vec<PowerProfile>) -> (row: ProfileRow)
    ensures
        row.labels@.map_values(|l: String| l@) == profiles@.map_values(
            |p: PowerProfile| profile_label_spec(p.name@),
        ),
        row.indices@ == profiles@.map_values(|p: PowerProfile| p.index),
        row.selected == match active_position(profiles@) {
            Some(k) => k,
            None => 0,
        },
{
    let mut labels: Vec<String> = Vec::new();
    let mut indices: Vec<u32> = Vec::new();
    let mut i: usize = 0;
    while i < profiles.len()
        invariant
            i <= profiles.len(),
            labels@.len() == i,
            indices@.len() == i,
            forall|k: int| 0 <= k < i ==> (#[trigger] labels@[k])@ == profile_label_spec(profiles@[k].name@),
            forall|k: int| 0 <= k < i ==> #[trigger] indices@[k] == profiles@[k].index,
        decreases profiles.len() - i,
    {
        labels.push(profile_label(profiles[i].name.as_str()));
        indices.push(profiles[i].index);
        i = i + 1;
    }
    assert(labels@.map_values(|l: String| l@) =~= profiles@.map_values(
        |p: PowerProfile| profile_label_spec(p.name@),
    ));
    assert(indices@ =~= profiles@.map_values(|p: PowerProfile| p.index));
    let selected = match find_active(profiles) {
        Some(k) => k,
        None => 0,
    };
    ProfileRow { labels, indices, selected }
}

/// The rows of the tuning page for a card with capabilities `c`, whose
/// performance level reads `level`, whose workload profiles are `profiles`,
/// whose overdrive clock ranges are `sclk` and `mclk` and whose voltage
/// offset is `voltage` (current, minimum, maximum). A row appears only for
/// a control the card offers and reports.
pub fn tuning_rows(
    c: &Capabilities,
    level: &str,
    profiles: &Vec<PowerProfile>,
    sclk: Option<ClockRange>,
    mclk: Option<ClockRange>,
    voltage: Option<(i32, i32, i32)>,
) -> (r: TuningRows)
    ensures
        r.performance == if c.performance {
            Some(performance_index_spec(level@))
        } else {
            None
        },
        c.workload_profiles <==> r.profiles is Some,
        r.profiles matches Some(p) ==> {
            &&& p.labels@.map_values(|l: String| l@) == profiles@.map_values(
                |p: PowerProfile| profile_label_spec(p.name@),
            )
            &&& p.indices@ == profiles@.map_values(|p: PowerProfile| p.index)
            &&& p.selected == match active_position(profiles@) {
                Some(k) => k,
                None => 0,
            }
        },
        r.power_limit == c.power_limit,
        r.fan == c.fan,
        offers_nothing(*c) ==> rows_empty(r),
        (c.core_clock && sclk is Some) <==> r.core_clock is Some,
        r.core_clock matches Some(row) ==> row.range == sclk->0 && row.subtitle@ == clock_subtitle(
            sclk->0,
        ),
        (c.memory_clock && mclk is Some) <==> r.memory_clock is Some,
        r.memory_clock matches Some(row) ==> row.range == mclk->0 && row.subtitle@
            == clock_subtitle(mclk->0),
        (c.voltage && voltage is Some) <==> r.voltage is Some,
        r.voltage matches Some(row) ==> voltage matches Some(v) && {
            &&& row.current == v.0
            &&& row.minimum == v.1
            &&& row.maximum == v.2
            &&& row.subtitle@ == voltage_subtitle(v.1, v.2)
        },
        match r.warning {
            Some(t) => warning_spec(*c) == Some(t@),
            None => warning_spec(*c) is None,
        },
{
    let performance = if c.performance {
        Some(performance_index(level))
    } else {
        None
    };
    let profile_choices = if c.workload_profiles {
        Some(profile_row(profiles))
    } else {
        None
    };
    let core_clock = match sclk {
        Some(range) if c.core_clock => Some(clock_row(range)),
        _ => None,
    };
    let memory_clock = match mclk {
        Some(range) if c.memory_clock => Some(clock_row(range)),
        _ => None,
    };
    let voltage_row = match voltage {
        Some((current, minimum, maximum)) if c.voltage => {
            let mut s = String::from_str("Faixa permitida: ");
            let lo = decimal_string(minimum as i64);
            let hi = decimal_string(maximum as i64);
            s.append(lo.as_str());
            s.append(" a ");
            s.append(hi.as_str());
            s.append(" mV");
            Some(VoltageRow { subtitle: s, current, minimum, maximum })
        },
        _ => None,
    };
    TuningRows {
        performance,
        profiles: profile_choices,
        power_limit: c.power_limit,
        fan: c.fan,
        core_clock,
        memory_clock,
        voltage: voltage_row,
        warning: warning_title(c),
    }
}

/// A change the user makes on the tuning page: a choice by its position in
/// a menu, or a number typed into a spin button (rounded to a whole
/// number).
pub enum ControlEdit {
    Performance(usize),
    Profile(usize),
    PowerWatts(i32),
    /// Position 0 is the automatic fan mode, any other the manual one.
    FanMode(usize),
    FanPercent(i32),
    CoreClockMin(i32),
    CoreClockMax(i32),
    MemoryClockMax(i32),
    VoltageOffset(i32),
}

/// The pending changes as values.
pub open spec fn pending_view(p: PendingChanges) -> DeviceSettingsView {
    DeviceSettingsView {
        performance: opt_text(p.performance),
        profile: p.profile,
        power_watts: p.power_watts,
        fan_automatic: p.fan_automatic,
        fan_percent: p.fan_percent,
        sclk_min: p.sclk_min,
        sclk_max: p.sclk_max,
        mclk_max: p.mclk_max,
        voltage_offset: p.voltage_offset,
    }
}

/// The pending changes after `edit`, or `None` when the edit names a menu
/// position past the end and records nothing. `profile_indices` are the
/// profile indices behind the workload profile menu.
pub open spec fn edit_spec(p: DeviceSettingsView, edit: ControlEdit, profile_indices: Seq<u32>) -> Option<
    DeviceSettingsView,
> {
    match edit {
        ControlEdit::Performance(i) => if i < 4 {
            Some(DeviceSettingsView { performance: Some(performance_value(i as int)), ..p })
        } else {
            None
        },
        ControlEdit::Profile(i) => if i < profile_indices.len() {
            Some(DeviceSettingsView { profile: Some(profile_indices[i as int]), ..p })
        } else {
            None
        },
        ControlEdit::PowerWatts(v) => Some(DeviceSettingsView { power_watts: Some(v), ..p }),
        ControlEdit::FanMode(i) => Some(DeviceSettingsView { fan_automatic: Some(i == 0), ..p }),
        ControlEdit::FanPercent(v) => Some(DeviceSettingsView { fan_percent: Some(v), ..p }),
        ControlEdit::CoreClockMin(v) => Some(DeviceSettingsView { sclk_min: Some(v), ..p }),
        ControlEdit::CoreClockMax(v) => Some(DeviceSettingsView { sclk_max: Some(v), ..p }),
        ControlEdit::MemoryClockMax(v) => Some(DeviceSettingsView { mclk_max: Some(v), ..p }),
        ControlEdit::VoltageOffset(v) => Some(DeviceSettingsView { voltage_offset: Some(v), ..p }),
    }
}

/// Records an edit among the pending changes and says whether it recorded
/// one. While the page is being rebuilt (`updating`) edits come from the
/// page itself and nothing is recorded.
pub fn record_edit(
    pending: &mut PendingChanges,
    edit: ControlEdit,
    profile_indices: &Vec<u32>,
    updating: bool,
) -> (recorded: bool)
    ensures
        updating ==> !recorded && pending_view(*final(pending)) == pending_view(*old(pending)),
        !updating ==> match edit_spec(pending_view(*old(pending)), edit, profile_indices@) {
            Some(n) => recorded && pending_view(*final(pending)) == n,
            None => !recorded && pending_view(*final(pending)) == pending_view(*old(pending)),
        },
{
    if updating {
        return false;
    }
    match edit {
        ControlEdit::Performance(i) => match performance_at(i) {
            Some(v) => {
                pending.performance = Some(String::from_str(v));
                true
            },
            None => false,
        },
        ControlEdit::Profile(i) => {
            if i < profile_indices.len() {
                pending.profile = Some(profile_indices[i]);
                true
            } else {
                false
            }
        },
        ControlEdit::PowerWatts(v) => {
            pending.power_watts = Some(v);
            true
        },
        ControlEdit::FanMode(i) => {
            pending.fan_automatic = Some(i == 0);
            true
        },
        ControlEdit::FanPercent(v) => {
            pending.fan_percent = Some(v);
            true
        },
        ControlEdit::CoreClockMin(v) => {
            pending.sclk_min = Some(v);
            true
        },
        ControlEdit::CoreClockMax(v) => {
            pending.sclk_max = Some(v);
            true
        },
        ControlEdit::MemoryClockMax(v) => {
            pending.mclk_max = Some(v);
            true
        },
        ControlEdit::VoltageOffset(v) => {
            pending.voltage_offset = Some(v);
            true
        },
    }
}

/// What the user asked of the tuning page.
#[derive(Clone, Copy, Debug, PartialEq, Eq, Structural)]
pub enum SessionKind {
    /// Apply the pending changes and save them.
    Apply,
    /// Reset the card to the driver's defaults and forget its saved settings.
    Reset,
}

/// How a session ended: a write failed (and the card was rolled back), the
/// card changed but the settings file could not be updated, or all went
/// well. The texts describe the errors.
pub enum SessionOutcome {
    ChangeFailed(String),
    SaveFailed(String),
    Done,
}

/// The notice shown when a session ends and how many seconds it stays.
pub open spec fn session_notice_spec(kind: SessionKind, outcome: SessionOutcome) -> (Seq<char>, u32) {
    match (kind, outcome) {
        (SessionKind::Apply, SessionOutcome::ChangeFailed(e)) => ("Ajustes desfeitos após uma falha: "@ + e@, 6),
        (SessionKind::Apply, SessionOutcome::SaveFailed(e)) => (
            "Ajustes aplicados, mas não foi possível salvá-los: "@ + e@,
            6,
        ),
        (SessionKind::Apply, SessionOutcome::Done) => ("Alterações aplicadas"@, 3),
        (SessionKind::Reset, SessionOutcome::ChangeFailed(e)) => (
            "Restauração desfeita após uma falha: "@ + e@,
            6,
        ),
        (SessionKind::Reset, SessionOutcome::SaveFailed(e)) => (
            "Controles restaurados, mas o perfil salvo não foi apagado: "@ + e@,
            6,
        ),
        (SessionKind::Reset, SessionOutcome::Done) => ("Controles restaurados para os padrões"@, 3),
    }
}

fn prefixed(prefix: &str, detail: &String) -> (r: String)
    ensures
        r@ == prefix@ + detail@,
{
    let mut out = String::from_str(prefix);
    out.append(detail.as_str());
    out
}

/// The notice shown when a session ends and how many seconds it stays.
pub fn session_notice(kind: SessionKind, outcome: &SessionOutcome) -> (r: (String, u32))
    ensures
        (r.0@, r.1) == session_notice_spec(kind, *outcome),
{
    match (kind, outcome) {
        (SessionKind::Apply, SessionOutcome::ChangeFailed(e)) => (prefixed("Ajustes desfeitos após uma falha: ", e), 6),
        (SessionKind::Apply, SessionOutcome::SaveFailed(e)) => (
            prefixed("Ajustes aplicados, mas não foi possível salvá-los: ", e),
            6,
        ),
        (SessionKind::Apply, SessionOutcome::Done) => (String::from_str("Alterações aplicadas"), 3),
        (SessionKind::Reset, SessionOutcome::ChangeFailed(e)) => (
            prefixed("Restauração desfeita após uma falha: ", e),
            6,
        ),
        (SessionKind::Reset, SessionOutcome::SaveFailed(e)) => (
            prefixed("Controles restaurados, mas o perfil salvo não foi apagado: ", e),
            6,
        ),
        (SessionKind::Reset, SessionOutcome::Done) => (
            String::from_str("Controles restaurados para os padrões"),
            3,
        ),
    }
}

/// What has just happened in an apply or reset session.
pub enum SessionEvent {
    /// The user asked for the session: whether a card is shown, and whether
    /// any change is pending.
    Requested { has_card: bool, pending_empty: bool },
    /// The change's writes ran; the error's text when one failed.
    Changed { error: Option<String> },
    /// The card was rolled back after the change failed with `error`.
    RolledBack { error: String },
    /// The settings file was updated (the changes saved, or the card's saved
    /// settings forgotten); the error's text when that failed.
    Stored { error: Option<String> },
}

/// What the window does next in a session.
pub enum SessionAction {
    /// Nothing: there is no card, or nothing to apply.
    Idle,
    /// Capture the card's state, then run the change's writes.
    Change,
    /// Run the writes back to the captured state, whatever comes of them.
    RollBack { error: String },
    /// Update the settings file.
    Store,
    /// Show `notice` for `seconds`; then, where set, drop the pending changes
    /// and disable applying, rebuild the controls, refresh the readings.
    Finish { notice: String, seconds: u32, clear_pending: bool, rebuild: bool, refresh: bool },
}

/// `SessionAction` as values.
pub enum SessionActionView {
    Idle,
    Change,
    RollBack(Seq<char>),
    Store,
    Finish(Seq<char>, u32, bool, bool, bool),
}

pub open spec fn session_action_view(a: SessionAction) -> SessionActionView {
    match a {
        SessionAction::Idle => SessionActionView::Idle,
        SessionAction::Change => SessionActionView::Change,
        SessionAction::RollBack { error } => SessionActionView::RollBack(error@),
        SessionAction::Store => SessionActionView::Store,
        SessionAction::Finish { notice, seconds, clear_pending, rebuild, refresh } =>
            SessionActionView::Finish(notice@, seconds, clear_pending, rebuild, refresh),
    }
}

/// The session's decisions: a session starts only with a card shown (and,
/// to apply, something pending); a failed change is rolled back and
/// reported, and only an applying session then rebuilds the controls; a
/// change that went through is stored, and the session then ends with its
/// notice, the pending changes dropped, the controls rebuilt and the
/// readings refreshed, whether storing worked or not.
pub open spec fn session_step_spec(kind: SessionKind, event: SessionEvent) -> SessionActionView {
    match event {
        SessionEvent::Requested { has_card, pending_empty } => if !has_card || (kind
            == SessionKind::Apply && pending_empty) {
            SessionActionView::Idle
        } else {
            SessionActionView::Change
        },
        SessionEvent::Changed { error } => match error {
            Some(e) => SessionActionView::RollBack(e@),
            None => SessionActionView::Store,
        },
        SessionEvent::RolledBack { error } => {
            let n = session_notice_spec(kind, SessionOutcome::ChangeFailed(error));
            SessionActionView::Finish(n.0, n.1, false, kind == SessionKind::Apply, false)
        },
        SessionEvent::Stored { error } => {
            let n = session_notice_spec(
                kind,
                match error {
                    Some(e) => SessionOutcome::SaveFailed(e),
                    None => SessionOutcome::Done,
                },
            );
            SessionActionView::Finish(n.0, n.1, true, true, true)
        },
    }
}

/// The next step of an apply or reset session after `event`.
pub fn session_step(kind: SessionKind, event: SessionEvent) -> (r: SessionAction)
    ensures
        session_action_view(r) == session_step_spec(kind, event),
{
    match event {
        SessionEvent::Requested { has_card, pending_empty } => {
            let apply = match kind {
                SessionKind::Apply => true,
                SessionKind::Reset => false,
            };
            if !has_card || (apply && pending_empty) {
                SessionAction::Idle
            } else {
                SessionAction::Change
            }
        },
        SessionEvent::Changed { error } => match error {
            Some(e) => SessionAction::RollBack { error: e },
            None => SessionAction::Store,
        },
        SessionEvent::RolledBack { error } => {
            let apply = match kind {
                SessionKind::Apply => true,
                SessionKind::Reset => false,
            };
            let (notice, seconds) = session_notice(kind, &SessionOutcome::ChangeFailed(error));
            SessionAction::Finish { notice, seconds, clear_pending: false, rebuild: apply, refresh: false }
        },
        SessionEvent::Stored { error } => {
            let outcome = match error {
                Some(e) => SessionOutcome::SaveFailed(e),
                None => SessionOutcome::Done,
            };
            let (notice, seconds) = session_notice(kind, &outcome);
            SessionAction::Finish { notice, seconds, clear_pending: true, rebuild: true, refresh: true }
        },
    }
}

/// Switching the window to card `r`, a position in the list that is not
/// the one shown: `switch_card` drops the pending changes, and once the
/// window saves the card's address as the selection (`set_selected_gpu`),
/// the card selected next, by the window, the tray or the next start, is
/// card `r` again, as long as no earlier card has the same address; the
/// tray's snapshot for `r` shows `r` selected, under its name.
pub proof fn lemma_card_switch(
    gs: Seq<GpuChoice>,
    cards: Seq<TrayCard>,
    r: usize,
    saved: SettingsView,
    tooltip: Seq<char>,
    performance: Seq<char>,
    profiles: Seq<PowerProfile>,
)
    requires
        r < gs.len(),
        cards.len() == gs.len(),
        forall|k: int| 0 <= k < r ==> (#[trigger] gs[k]).pci_id@ != gs[r as int].pci_id@,
        saved.selected_gpu == Some(gs[r as int].pci_id@),
    ensures
        preferred_index_spec(gs, saved.selected_gpu) == r,
        snapshot_spec(cards, r, tooltip, performance, profiles).selected_gpu == r,
        snapshot_spec(cards, r, tooltip, performance, profiles).gpu_title == cards[r as int].name@,
{
    lemma_saved_card_selected(gs, gs[r as int].pci_id@, r as int);
    let p = preferred_index_spec(gs, saved.selected_gpu);
    if p < r {
        assert(gs[p].pci_id@ != gs[r as int].pci_id@);
    }
}

/// Choosing the card at `requested` in the window's list of `count` cards
/// while the card at `current` is shown. Nothing happens for the shown card
/// or a position past the end (`None`); otherwise the pending changes are
/// dropped, and the result says whether there were any, which the window
/// then reports.
pub fn switch_card(current: usize, requested: usize, count: usize, pending: &mut PendingChanges) -> (r:
    Option<bool>)
    ensures
        match r {
            None => (requested >= count || requested == current) && pending_view(*final(pending))
                == pending_view(*old(pending)),
            Some(discarded) => {
                &&& requested < count
                &&& requested != current
                &&& discarded == !old(pending).is_empty_spec()
                &&& final(pending).is_empty_spec()
            },
        },
{
    if requested >= count || requested == current {
        return None;
    }
    let discarded = !pending.is_empty();
    *pending = PendingChanges {
        performance: None,
        profile: None,
        power_watts: None,
        fan_automatic: None,
        fan_percent: None,
        sclk_min: None,
        sclk_max: None,
        mclk_max: None,
        voltage_offset: None,
    };
    Some(discarded)
}

} // verus!
