//! Writing the driver's controls: their file names, the errors a write can
//! end in, the decisions of one write through the privileged helper, and
//! the sequences of writes that applying, restoring and resetting settings
//! perform.

use vstd::prelude::*;
use crate::gpu::{active_position, find_active, ClockRange, PowerProfile};
use crate::text::{chars_of, decimal, i64_decimal, string_from_chars, trim, trim_chars};

verus! {

/// A control file of the amdgpu driver.
#[derive(Clone, Copy, Debug, PartialEq, Eq, Structural)]
pub enum Control {
    Performance,
    WorkloadProfile,
    Overdrive,
    PowerLimit,
    FanPwm,
    FanMode,
}

/// The sysfs file name of a control.
pub open spec fn control_name(c: Control) -> Seq<char> {
    match c {
        Control::Performance => "power_dpm_force_performance_level"@,
        Control::WorkloadProfile => "pp_power_profile_mode"@,
        Control::Overdrive => "pp_od_clk_voltage"@,
        Control::PowerLimit => "power1_cap"@,
        Control::FanPwm => "pwm1"@,
        Control::FanMode => "pwm1_enable"@,
    }
}

impl Control {
    /// The sysfs file name of the control.
    pub fn as_str(self) -> (r: &'static str)
        ensures
            r@ == control_name(self),
    {
        match self {
            Control::Performance => "power_dpm_force_performance_level",
            Control::WorkloadProfile => "pp_power_profile_mode",
            Control::Overdrive => "pp_od_clk_voltage",
            Control::PowerLimit => "power1_cap",
            Control::FanPwm => "pwm1",
            Control::FanMode => "pwm1_enable",
        }
    }
}

/// Why a control could not be written.
#[derive(Clone, Debug)]
pub enum ControlError {
    HelperMissing,
    PkexecMissing,
    Unsupported,
    Rejected(String),
    /// The helper could not be started; the text describes the I/O error.
    Spawn(String),
}

pub open spec fn control_error_message(e: ControlError) -> Seq<char> {
    match e {
        ControlError::HelperMissing => "O helper amdgpu-control-helper não está instalado."@,
        ControlError::PkexecMissing => "O pkexec não está instalado; não foi possível solicitar autorização."@,
        ControlError::Unsupported => "Este controle não é oferecido pelo driver atual."@,
        ControlError::Rejected(detail) => detail@,
        ControlError::Spawn(detail) => "Não foi possível executar o helper: "@ + detail@,
    }
}

impl ControlError {
    /// The text shown for the error.
    pub fn message(&self) -> (r: String)
        ensures
            r@ == control_error_message(*self),
    {
        match self {
            ControlError::HelperMissing => String::from_str(
                "O helper amdgpu-control-helper não está instalado.",
            ),
            ControlError::PkexecMissing => String::from_str(
                "O pkexec não está instalado; não foi possível solicitar autorização.",
            ),
            ControlError::Unsupported => String::from_str(
                "Este controle não é oferecido pelo driver atual.",
            ),
            ControlError::Rejected(detail) => detail.clone(),
            ControlError::Spawn(detail) => {
                let mut out = String::from_str("Não foi possível executar o helper: ");
                out.append(detail.as_str());
                out
            },
        }
    }
}

/// The message for a helper run that failed: its trimmed standard error,
/// or a fixed sentence when that is empty.
pub open spec fn failure_message_spec(stderr: Seq<char>) -> Seq<char> {
    if trim(stderr).len() == 0 {
        "A alteração foi cancelada ou rejeitada pelo driver."@
    } else {
        trim(stderr)
    }
}

/// The message for a helper run that failed, from its standard error.
pub fn failure_message(stderr: &str) -> (r: String)
    ensures
        r@ == failure_message_spec(stderr@),
{
    let v = chars_of(stderr);
    let t = trim_chars(v.as_slice());
    if t.len() == 0 {
        String::from_str("A alteração foi cancelada ou rejeitada pelo driver.")
    } else {
        string_from_chars(t)
    }
}

/// The exit status by which the helper asks for authorization.
pub const NEEDS_AUTHORIZATION: i32 = 77;

/// What happened at the current stage of writing a control.
pub enum ControlEvent {
    /// Whether the card offers the control file at all.
    ControlChecked { available: bool },
    /// Whether an installed helper was found.
    HelperLocated { found: bool },
    /// The helper ran without elevation.
    HelperFinished { success: bool, exit_code: Option<i32>, stderr: String },
    /// Whether `pkexec` is installed.
    PkexecChecked { present: bool },
    /// The helper ran through `pkexec`.
    PkexecFinished { success: bool, stderr: String },
    /// A process could not be started.
    SpawnFailed { error: String },
}

/// What to do next while writing a control.
pub enum ControlStep {
    LocateHelper,
    RunHelper,
    CheckPkexec,
    RunPkexec,
    Done(Result<(), ControlError>),
}

/// The decision after each stage of a write: check the control, find the
/// helper, run it directly, and only when it asks for authorization (exit
/// status 77) run it again through `pkexec`.
pub open spec fn control_step_spec(event: ControlEvent) -> ControlStep {
    match event {
        ControlEvent::ControlChecked { available } => if available {
            ControlStep::LocateHelper
        } else {
            ControlStep::Done(Err(ControlError::Unsupported))
        },
        ControlEvent::HelperLocated { found } => if found {
            ControlStep::RunHelper
        } else {
            ControlStep::Done(Err(ControlError::HelperMissing))
        },
        ControlEvent::HelperFinished { success, exit_code, stderr } => if success {
            ControlStep::Done(Ok(()))
        } else if exit_code != Some(NEEDS_AUTHORIZATION) {
            ControlStep::Done(Err(ControlError::Rejected(stderr)))
        } else {
            ControlStep::CheckPkexec
        },
        ControlEvent::PkexecChecked { present } => if present {
            ControlStep::RunPkexec
        } else {
            ControlStep::Done(Err(ControlError::PkexecMissing))
        },
        ControlEvent::PkexecFinished { success, stderr } => if success {
            ControlStep::Done(Ok(()))
        } else {
            ControlStep::Done(Err(ControlError::Rejected(stderr)))
        },
        ControlEvent::SpawnFailed { error } => ControlStep::Done(Err(ControlError::Spawn(error))),
    }
}

/// The step that follows `event` when writing a control. A rejected run is
/// reported with `failure_message` of its standard error.
pub fn set_control_step(event: ControlEvent) -> (r: ControlStep)
    ensures
        match (event, r) {
            (ControlEvent::HelperFinished { success: false, exit_code, stderr }, ControlStep::Done(Err(ControlError::Rejected(m)))) =>
                exit_code != Some(NEEDS_AUTHORIZATION) && m@ == failure_message_spec(stderr@),
            (ControlEvent::HelperFinished { success: false, exit_code, .. }, ControlStep::CheckPkexec) =>
                exit_code == Some(NEEDS_AUTHORIZATION),
            (ControlEvent::HelperFinished { success: false, .. }, _) => false,
            (ControlEvent::PkexecFinished { success: false, stderr }, ControlStep::Done(Err(ControlError::Rejected(m)))) =>
                m@ == failure_message_spec(stderr@),
            (ControlEvent::PkexecFinished { success: false, .. }, _) => false,
            (e, s) => s == control_step_spec(e),
        },
{
    match event {
        ControlEvent::ControlChecked { available } => if available {
            ControlStep::LocateHelper
        } else {
            ControlStep::Done(Err(ControlError::Unsupported))
        },
        ControlEvent::HelperLocated { found } => if found {
            ControlStep::RunHelper
        } else {
            ControlStep::Done(Err(ControlError::HelperMissing))
        },
        ControlEvent::HelperFinished { success, exit_code, stderr } => if success {
            ControlStep::Done(Ok(()))
        } else {
            let needs_authorization = match exit_code {
                Some(code) => code == NEEDS_AUTHORIZATION,
                None => false,
            };
            if !needs_authorization {
                ControlStep::Done(Err(ControlError::Rejected(failure_message(stderr.as_str()))))
            } else {
                ControlStep::CheckPkexec
            }
        },
        ControlEvent::PkexecChecked { present } => if present {
            ControlStep::RunPkexec
        } else {
            ControlStep::Done(Err(ControlError::PkexecMissing))
        },
        ControlEvent::PkexecFinished { success, stderr } => if success {
            ControlStep::Done(Ok(()))
        } else {
            ControlStep::Done(Err(ControlError::Rejected(failure_message(stderr.as_str()))))
        },
        ControlEvent::SpawnFailed { error } => ControlStep::Done(Err(ControlError::Spawn(error))),
    }
}

/// One write of a value to a control file.
pub struct ControlWrite {
    pub control: Control,
    pub value: String,
}

pub open spec fn write_view(w: ControlWrite) -> (Control, Seq<char>) {
    (w.control, w.value@)
}

pub open spec fn writes_view(ws: Seq<ControlWrite>) -> Seq<(Control, Seq<char>)> {
    ws.map_values(|w: ControlWrite| write_view(w))
}

/// The PWM duty (0–255) for a fan speed in percent, clamped to 0–100 and
/// rounded to the nearest step.
pub open spec fn pwm_from_percent_spec(percent: int) -> int {
    let p = if percent < 0 {
        0
    } else if percent > 100 {
        100
    } else {
        percent
    };
    (p * 255 + 50) / 100
}

/// The PWM duty (0–255) for a fan speed in percent.
pub fn pwm_from_percent(percent: i32) -> (r: i32)
    ensures
        r == pwm_from_percent_spec(percent as int),
        0 <= r <= 255,
{
    let p = if percent < 0 {
        0
    } else if percent > 100 {
        100
    } else {
        percent
    };
    assert(0 <= (p * 255 + 50) / 100 <= 255) by (nonlinear_arith)
        requires
            0 <= p <= 100,
    ;
    (p * 255 + 50) / 100
}

/// `prefix` followed by the decimal digits of `v`.
pub fn prefixed_decimal(prefix: &str, v: i64) -> (r: String)
    ensures
        r@ == prefix@ + decimal(v as int),
{
    let digits = i64_decimal(v);
    let mut out = String::from_str(prefix);
    let tail = string_from_chars(digits.as_slice());
    out.append(tail.as_str());
    out
}

/// The microwatt value written to `power1_cap` for a limit in watts.
pub open spec fn microwatts(watts: int) -> int {
    watts * 1_000_000
}

fn push_write(plan: &mut Vec<ControlWrite>, control: Control, value: String)
    ensures
        writes_view(final(plan)@) == writes_view(old(plan)@).push((control, value@)),
{
    let ghost before = plan@;
    plan.push(ControlWrite { control, value });
    assert(writes_view(plan@) =~= writes_view(before).push((control, value@)));
}

/// The settings the user changed and has not applied yet.
#[derive(Clone, Debug, Default)]
pub struct PendingChanges {
    pub performance: Option<String>,
    pub profile: Option<u32>,
    pub power_watts: Option<i32>,
    pub fan_automatic: Option<bool>,
    pub fan_percent: Option<i32>,
    pub sclk_min: Option<i32>,
    pub sclk_max: Option<i32>,
    pub mclk_max: Option<i32>,
    pub voltage_offset: Option<i32>,
}

/// The state of a card's controls captured before changing them.
#[derive(Clone, Debug)]
pub struct GpuSnapshot {
    pub performance: String,
    pub profile: Option<u32>,
    pub power_watts: Option<i32>,
    pub fan_automatic: Option<bool>,
    pub fan_percent: Option<i32>,
    pub sclk_min: Option<i32>,
    pub sclk_max: Option<i32>,
    pub mclk_max: Option<i32>,
    pub voltage_offset: Option<i32>,
}

/// The index of the first active profile, if one is active.
pub open spec fn active_profile_index(ps: Seq<PowerProfile>) -> Option<u32> {
    match active_position(ps) {
        Some(k) => Some(ps[k].index),
        None => None,
    }
}

impl GpuSnapshot {
    /// The state of a card's controls: its performance level, the first
    /// active workload profile, the power limit in whole watts, the fan mode
    /// and speed (automatic, percent), the current overdrive clocks and the
    /// current voltage offset — each absent when the card does not report
    /// it.
    pub fn capture(
        performance: &str,
        profiles: &Vec<PowerProfile>,
        power_watts: Option<i32>,
        fan: Option<(bool, i32)>,
        sclk: Option<ClockRange>,
        mclk: Option<ClockRange>,
        voltage: Option<(i32, i32, i32)>,
    ) -> (r: GpuSnapshot)
        ensures
            r.performance@ == performance@,
            r.profile == active_profile_index(profiles@),
            r.power_watts == power_watts,
            r.fan_automatic == match fan {
                Some(f) => Some(f.0),
                None => None,
            },
            r.fan_percent == match fan {
                Some(f) => Some(f.1),
                None => None,
            },
            r.sclk_min == match sclk {
                Some(c) => Some(c.current_minimum),
                None => None,
            },
            r.sclk_max == match sclk {
                Some(c) => Some(c.current_maximum),
                None => None,
            },
            r.mclk_max == match mclk {
                Some(c) => Some(c.current_maximum),
                None => None,
            },
            r.voltage_offset == match voltage {
                Some(v) => Some(v.0),
                None => None,
            },
    {
        let profile = match find_active(profiles) {
            Some(k) => Some(profiles[k].index),
            None => None,
        };
        GpuSnapshot {
            performance: String::from_str(performance),
            profile,
            power_watts,
            fan_automatic: match fan {
                Some(f) => Some(f.0),
                None => None,
            },
            fan_percent: match fan {
                Some(f) => Some(f.1),
                None => None,
            },
            sclk_min: match sclk {
                Some(c) => Some(c.current_minimum),
                None => None,
            },
            sclk_max: match sclk {
                Some(c) => Some(c.current_maximum),
                None => None,
            },
            mclk_max: match mclk {
                Some(c) => Some(c.current_maximum),
                None => None,
            },
            voltage_offset: match voltage {
                Some(v) => Some(v.0),
                None => None,
            },
        }
    }
}

impl PendingChanges {
    pub open spec fn is_empty_spec(&self) -> bool {
        &&& self.performance is None
        &&& self.profile is None
        &&& self.power_watts is None
        &&& self.fan_automatic is None
        &&& self.fan_percent is None
        &&& self.sclk_min is None
        &&& self.sclk_max is None
        &&& self.mclk_max is None
        &&& self.voltage_offset is None
    }

    /// Whether nothing is pending.
    pub fn is_empty(&self) -> (r: bool)
        ensures
            r == self.is_empty_spec(),
    {
        self.performance.is_none() && self.profile.is_none() && self.power_watts.is_none()
            && self.fan_automatic.is_none() && self.fan_percent.is_none() && self.sclk_min.is_none()
            && self.sclk_max.is_none() && self.mclk_max.is_none() && self.voltage_offset.is_none()
    }
}

pub open spec fn opt_write(c: Control, v: Option<Seq<char>>) -> Seq<(Control, Seq<char>)> {
    match v {
        Some(v) => seq![(c, v)],
        None => seq![],
    }
}

pub open spec fn od_write(prefix: Seq<char>, v: Option<i32>) -> Seq<(Control, Seq<char>)> {
    match v {
        Some(v) => seq![(Control::Overdrive, prefix + decimal(v as int))],
        None => seq![],
    }
}

pub open spec fn fan_mode_value(automatic: bool) -> Seq<char> {
    if automatic {
        "2"@
    } else {
        "1"@
    }
}

/// The overdrive writes for the given clocks and voltage offset.
pub open spec fn od_point_writes(
    sclk_min: Option<i32>,
    sclk_max: Option<i32>,
    mclk_max: Option<i32>,
    voltage: Option<i32>,
) -> Seq<(Control, Seq<char>)> {
    od_write("s 0 "@, sclk_min) + od_write("s 1 "@, sclk_max) + od_write("m 1 "@, mclk_max)
        + od_write("vo "@, voltage)
}

/// The writes that apply pending changes, in order: overdrive changes
/// (under the manual performance level, committed with `c`), then the
/// performance level, the workload profile, the power limit and the fan.
pub open spec fn apply_plan_spec(p: PendingChanges) -> Seq<(Control, Seq<char>)> {
    let overdrive = p.sclk_min is Some || p.sclk_max is Some || p.mclk_max is Some
        || p.voltage_offset is Some;
    (if overdrive {
        seq![(Control::Performance, "manual"@)] + od_point_writes(
            p.sclk_min,
            p.sclk_max,
            p.mclk_max,
            p.voltage_offset,
        ) + seq![(Control::Overdrive, "c"@)]
    } else {
        seq![]
    }) + opt_write(
        Control::Performance,
        match p.performance {
            Some(v) => Some(v@),
            None => None,
        },
    ) + opt_write(
        Control::WorkloadProfile,
        match p.profile {
            Some(v) => Some(decimal(v as int)),
            None => None,
        },
    ) + opt_write(
        Control::PowerLimit,
        match p.power_watts {
            Some(v) => Some(decimal(microwatts(v as int))),
            None => None,
        },
    ) + opt_write(
        Control::FanMode,
        match p.fan_automatic {
            Some(a) => Some(fan_mode_value(a)),
            None => None,
        },
    ) + match p.fan_percent {
        Some(pc) => seq![
            (Control::FanMode, "1"@),
            (Control::FanPwm, decimal(pwm_from_percent_spec(pc as int))),
        ],
        None => seq![],
    }
}

fn push_od_write(plan: &mut Vec<ControlWrite>, prefix: &str, v: Option<i32>)
    ensures
        writes_view(final(plan)@) == writes_view(old(plan)@) + od_write(prefix@, v),
{
    let ghost before = writes_view(plan@);
    match v {
        Some(v) => {
            push_write(plan, Control::Overdrive, prefixed_decimal(prefix, v as i64));
            assert(before.push((Control::Overdrive, prefix@ + decimal(v as int))) =~= before
                + od_write(prefix@, Some(v)));
        },
        None => {
            assert(before =~= before + od_write(prefix@, None));
        },
    }
}

fn push_od_points(
    plan: &mut Vec<ControlWrite>,
    sclk_min: Option<i32>,
    sclk_max: Option<i32>,
    mclk_max: Option<i32>,
    voltage: Option<i32>,
)
    ensures
        writes_view(final(plan)@) == writes_view(old(plan)@) + od_point_writes(
            sclk_min,
            sclk_max,
            mclk_max,
            voltage,
        ),
{
    let ghost before = writes_view(plan@);
    push_od_write(plan, "s 0 ", sclk_min);
    push_od_write(plan, "s 1 ", sclk_max);
    push_od_write(plan, "m 1 ", mclk_max);
    push_od_write(plan, "vo ", voltage);
    assert(writes_view(plan@) =~= before + od_point_writes(sclk_min, sclk_max, mclk_max, voltage));
}

fn fan_mode_str(automatic: bool) -> (r: &'static str)
    ensures
        r@ == fan_mode_value(automatic),
{
    if automatic {
        "2"
    } else {
        "1"
    }
}

/// The decimal digits of `v` as a string.
pub fn decimal_string(v: i64) -> (r: String)
    ensures
        r@ == decimal(v as int),
{
    let digits = i64_decimal(v);
    string_from_chars(digits.as_slice())
}

fn push_opt(plan: &mut Vec<ControlWrite>, control: Control, v: Option<String>)
    ensures
        writes_view(final(plan)@) == writes_view(old(plan)@) + opt_write(
            control,
            match v {
                Some(s) => Some(s@),
                None => None,
            },
        ),
{
    let ghost before = writes_view(plan@);
    match v {
        Some(s) => {
            let ghost sv = s@;
            push_write(plan, control, s);
            assert(before.push((control, sv)) =~= before + opt_write(control, Some(sv)));
        },
        None => {
            assert(before =~= before + opt_write(control, None));
        },
    }
}

/// The overdrive part of `apply_plan_spec`.
pub open spec fn apply_overdrive_part(p: PendingChanges) -> Seq<(Control, Seq<char>)> {
    let overdrive = p.sclk_min is Some || p.sclk_max is Some || p.mclk_max is Some
        || p.voltage_offset is Some;
    if overdrive {
        seq![(Control::Performance, "manual"@)] + od_point_writes(
            p.sclk_min,
            p.sclk_max,
            p.mclk_max,
            p.voltage_offset,
        ) + seq![(Control::Overdrive, "c"@)]
    } else {
        seq![]
    }
}

fn push_apply_overdrive(plan: &mut Vec<ControlWrite>, pending: &PendingChanges)
    ensures
        writes_view(final(plan)@) == writes_view(old(plan)@) + apply_overdrive_part(*pending),
{
    let ghost before = writes_view(plan@);
    let overdrive = pending.sclk_min.is_some() || pending.sclk_max.is_some()
        || pending.mclk_max.is_some() || pending.voltage_offset.is_some();
    if overdrive {
        push_write(plan, Control::Performance, String::from_str("manual"));
        push_od_points(
            plan,
            pending.sclk_min,
            pending.sclk_max,
            pending.mclk_max,
            pending.voltage_offset,
        );
        push_write(plan, Control::Overdrive, String::from_str("c"));
        assert(writes_view(plan@) =~= before + apply_overdrive_part(*pending));
    } else {
        assert(writes_view(plan@) =~= before + apply_overdrive_part(*pending));
    }
}

/// The fan speed part of `apply_plan_spec`.
pub open spec fn apply_fan_percent_part(p: PendingChanges) -> Seq<(Control, Seq<char>)> {
    match p.fan_percent {
        Some(pc) => seq![
            (Control::FanMode, "1"@),
            (Control::FanPwm, decimal(pwm_from_percent_spec(pc as int))),
        ],
        None => seq![],
    }
}

fn push_fan_percent(plan: &mut Vec<ControlWrite>, fan_percent: Option<i32>)
    ensures
        writes_view(final(plan)@) == writes_view(old(plan)@) + match fan_percent {
            Some(pc) => seq![
                (Control::FanMode, "1"@),
                (Control::FanPwm, decimal(pwm_from_percent_spec(pc as int))),
            ],
            None => Seq::<(Control, Seq<char>)>::empty(),
        },
{
    let ghost before = writes_view(plan@);
    if let Some(pc) = fan_percent {
        push_write(plan, Control::FanMode, String::from_str("1"));
        push_write(plan, Control::FanPwm, decimal_string(pwm_from_percent(pc) as i64));
        assert(writes_view(plan@) =~= before + seq![
            (Control::FanMode, "1"@),
            (Control::FanPwm, decimal(pwm_from_percent_spec(pc as int))),
        ]);
    } else {
        assert(writes_view(plan@) =~= before + Seq::<(Control, Seq<char>)>::empty());
    }
}

/// The writes that apply `pending`; a run stops at the first write that
/// fails.
pub fn apply_changes(pending: &PendingChanges) -> (r: Vec<ControlWrite>)
    ensures
        writes_view(r@) == apply_plan_spec(*pending),
{
    let mut plan: Vec<ControlWrite> = Vec::new();
    assert(writes_view(plan@) =~= Seq::<(Control, Seq<char>)>::empty());
    push_apply_overdrive(&mut plan, pending);
    let ghost a = writes_view(plan@);
    push_opt(&mut plan, Control::Performance, pending.performance.clone());
    push_opt(
        &mut plan,
        Control::WorkloadProfile,
        match pending.profile {
            Some(v) => Some(decimal_string(v as i64)),
            None => None,
        },
    );
    push_opt(
        &mut plan,
        Control::PowerLimit,
        match pending.power_watts {
            Some(v) => Some(decimal_string((v as i64) * 1_000_000)),
            None => None,
        },
    );
    push_opt(
        &mut plan,
        Control::FanMode,
        match pending.fan_automatic {
            Some(a) => Some(String::from_str(fan_mode_str(a))),
            None => None,
        },
    );
    push_fan_percent(&mut plan, pending.fan_percent);
    proof {
        assert(writes_view(plan@) =~= apply_plan_spec(*pending));
    }
    plan
}

/// Where the helper is installed by the package.
pub const INSTALLED_HELPER: &'static str = "/usr/libexec/amdgpu-control-helper";

/// The helper to run: the one `AMDGPU_CONTROL_HELPER` names, else the one
/// beside the running program, else the installed one, whichever is first
/// found to be a file. Each candidate comes with whether it is a file.
pub fn choose_helper(
    configured: Option<(&str, bool)>,
    sibling: Option<(&str, bool)>,
    installed_is_file: bool,
) -> (r: Option<String>)
    ensures
        match r {
            Some(p) => match configured {
                Some((c, true)) => p@ == c@,
                _ => match sibling {
                    Some((s, true)) => p@ == s@,
                    _ => installed_is_file && p@ == INSTALLED_HELPER@,
                },
            },
            None => !(configured matches Some((_, true))) && !(sibling matches Some((_, true)))
                && !installed_is_file,
        },
{
    if let Some((path, true)) = configured {
        return Some(String::from_str(path));
    }
    if let Some((path, true)) = sibling {
        return Some(String::from_str(path));
    }
    if installed_is_file {
        Some(String::from_str(INSTALLED_HELPER))
    } else {
        None
    }
}

/// Some overdrive value (a clock or the voltage offset) is pending.
pub open spec fn overdrive_pending(p: PendingChanges) -> bool {
    p.sclk_min is Some || p.sclk_max is Some || p.mclk_max is Some || p.voltage_offset is Some
}

/// A write of an applying plan comes from a pending change: the control
/// it writes has a pending value behind it.
pub open spec fn write_from_pending(p: PendingChanges, w: (Control, Seq<char>)) -> bool {
    &&& w.0 == Control::Overdrive ==> overdrive_pending(p)
    &&& w.0 == Control::Performance ==> overdrive_pending(p) || p.performance is Some
    &&& w.0 == Control::WorkloadProfile ==> (p.profile matches Some(i) && w.1 == decimal(i as int))
    &&& w.0 == Control::PowerLimit ==> (p.power_watts matches Some(x) && w.1 == decimal(
        x as int * 1_000_000,
    ))
    &&& w.0 == Control::FanMode ==> p.fan_automatic is Some || p.fan_percent is Some
    &&& w.0 == Control::FanPwm ==> p.fan_percent is Some
}

proof fn lemma_contains_concat(a: Seq<(Control, Seq<char>)>, b: Seq<(Control, Seq<char>)>, x: (Control, Seq<char>))
    ensures
        a.contains(x) ==> (a + b).contains(x),
        b.contains(x) ==> (a + b).contains(x),
{
    if a.contains(x) {
        let i = choose|i: int| 0 <= i < a.len() && a[i] == x;
        assert((a + b)[i] == x);
    }
    if b.contains(x) {
        let i = choose|i: int| 0 <= i < b.len() && b[i] == x;
        assert((a + b)[a.len() + i] == x);
    }
}

proof fn lemma_all_concat(
    a: Seq<(Control, Seq<char>)>,
    b: Seq<(Control, Seq<char>)>,
    pred: spec_fn((Control, Seq<char>)) -> bool,
)
    requires
        forall|i: int| 0 <= i < a.len() ==> pred(#[trigger] a[i]),
        forall|i: int| 0 <= i < b.len() ==> pred(#[trigger] b[i]),
    ensures
        forall|i: int| 0 <= i < (a + b).len() ==> pred(#[trigger] (a + b)[i]),
{
    assert forall|i: int| 0 <= i < (a + b).len() implies pred(#[trigger] (a + b)[i]) by {
        if i < a.len() {
            assert((a + b)[i] == a[i]);
        } else {
            assert((a + b)[i] == b[i - a.len()]);
        }
    }
}

proof fn lemma_od_write_facts(prefix: Seq<char>, v: Option<i32>)
    ensures
        forall|i: int| 0 <= i < od_write(prefix, v).len() ==> (#[trigger] od_write(prefix, v)[i]).0
            == Control::Overdrive,
        v matches Some(x) ==> od_write(prefix, v).contains((Control::Overdrive, prefix + decimal(x as int))),
        od_write(prefix, v).len() == (if v is Some { 1int } else { 0 }),
{
    if let Some(x) = v {
        assert(od_write(prefix, v)[0] == (Control::Overdrive, prefix + decimal(x as int)));
    }
}

proof fn lemma_od_part_facts(p: PendingChanges)
    ensures
        ({
            let od = apply_overdrive_part(p);
            &&& !overdrive_pending(p) ==> od.len() == 0
            &&& overdrive_pending(p) ==> od.len() >= 2 && od[0] == (Control::Performance, "manual"@)
                && od[od.len() - 1] == (Control::Overdrive, "c"@)
            &&& forall|i: int| 0 < i < od.len() ==> (#[trigger] od[i]).0 == Control::Overdrive
            &&& p.sclk_min matches Some(v) ==> od.contains((Control::Overdrive, "s 0 "@ + decimal(v as int)))
            &&& p.sclk_max matches Some(v) ==> od.contains((Control::Overdrive, "s 1 "@ + decimal(v as int)))
            &&& p.mclk_max matches Some(v) ==> od.contains((Control::Overdrive, "m 1 "@ + decimal(v as int)))
            &&& p.voltage_offset matches Some(v) ==> od.contains(
                (Control::Overdrive, "vo "@ + decimal(v as int)),
            )
            &&& forall|i: int| 0 <= i < od.len() ==> write_from_pending(p, #[trigger] od[i])
        }),
{
    let od = apply_overdrive_part(p);
    let w1 = od_write("s 0 "@, p.sclk_min);
    let w2 = od_write("s 1 "@, p.sclk_max);
    let w3 = od_write("m 1 "@, p.mclk_max);
    let w4 = od_write("vo "@, p.voltage_offset);
    lemma_od_write_facts("s 0 "@, p.sclk_min);
    lemma_od_write_facts("s 1 "@, p.sclk_max);
    lemma_od_write_facts("m 1 "@, p.mclk_max);
    lemma_od_write_facts("vo "@, p.voltage_offset);
    let pts = od_point_writes(p.sclk_min, p.sclk_max, p.mclk_max, p.voltage_offset);
    assert(pts == w1 + w2 + w3 + w4);
    let is_od = |w: (Control, Seq<char>)| w.0 == Control::Overdrive;
    lemma_all_concat(w1, w2, is_od);
    lemma_all_concat(w1 + w2, w3, is_od);
    lemma_all_concat(w1 + w2 + w3, w4, is_od);
    assert(forall|i: int| 0 <= i < pts.len() ==> (#[trigger] pts[i]).0 == Control::Overdrive);
    if let Some(v) = p.sclk_min {
        let x = (Control::Overdrive, "s 0 "@ + decimal(v as int));
        lemma_contains_concat(w1, w2, x);
        lemma_contains_concat(w1 + w2, w3, x);
        lemma_contains_concat(w1 + w2 + w3, w4, x);
    }
    if let Some(v) = p.sclk_max {
        let x = (Control::Overdrive, "s 1 "@ + decimal(v as int));
        lemma_contains_concat(w1, w2, x);
        lemma_contains_concat(w1 + w2, w3, x);
        lemma_contains_concat(w1 + w2 + w3, w4, x);
    }
    if let Some(v) = p.mclk_max {
        let x = (Control::Overdrive, "m 1 "@ + decimal(v as int));
        lemma_contains_concat(w1 + w2, w3, x);
        lemma_contains_concat(w1 + w2 + w3, w4, x);
    }
    if let Some(v) = p.voltage_offset {
        let x = (Control::Overdrive, "vo "@ + decimal(v as int));
        lemma_contains_concat(w1 + w2 + w3, w4, x);
    }
    if overdrive_pending(p) {
        let head = seq![(Control::Performance, "manual"@)];
        let commit = seq![(Control::Overdrive, "c"@)];
        assert(od =~= head + pts + commit);
        assert forall|i: int| 0 < i < od.len() implies (#[trigger] od[i]).0 == Control::Overdrive by {
            if i < od.len() - 1 {
                assert(od[i] == pts[i - 1]);
            }
        }
        assert forall|x: (Control, Seq<char>)| pts.contains(x) implies od.contains(x) by {
            let i = choose|i: int| 0 <= i < pts.len() && pts[i] == x;
            assert(od[i + 1] == x);
        }
    } else {
        assert(od.len() == 0);
    }
}

/// The writes of an applying plan after its overdrive part and its
/// performance level.
spec fn apply_tail_part(p: PendingChanges) -> Seq<(Control, Seq<char>)> {
    opt_write(
        Control::WorkloadProfile,
        match p.profile {
            Some(v) => Some(decimal(v as int)),
            None => None,
        },
    ) + opt_write(
        Control::PowerLimit,
        match p.power_watts {
            Some(v) => Some(decimal(microwatts(v as int))),
            None => None,
        },
    ) + opt_write(
        Control::FanMode,
        match p.fan_automatic {
            Some(a) => Some(fan_mode_value(a)),
            None => None,
        },
    ) + apply_fan_percent_part(p)
}

proof fn lemma_tail_part_facts(p: PendingChanges)
    ensures
        ({
            let tail = apply_tail_part(p);
            &&& forall|i: int| 0 <= i < tail.len() ==> (#[trigger] tail[i]).0 != Control::Overdrive
                && tail[i].0 != Control::Performance && write_from_pending(p, tail[i])
            &&& p.profile matches Some(i) ==> tail.contains((Control::WorkloadProfile, decimal(i as int)))
            &&& p.power_watts matches Some(w) ==> tail.contains(
                (Control::PowerLimit, decimal(w as int * 1_000_000)),
            )
            &&& p.fan_automatic matches Some(a) ==> tail.contains(
                (Control::FanMode, if a { "2"@ } else { "1"@ }),
            )
            &&& p.fan_percent matches Some(pc) ==> tail.len() >= 2 && tail[tail.len() - 1] == (
                Control::FanPwm,
                decimal(pwm_from_percent_spec(pc as int)),
            ) && tail[tail.len() - 2] == (Control::FanMode, "1"@)
            &&& tail.len() == 0 <==> (p.profile is None && p.power_watts is None
                && p.fan_automatic is None && p.fan_percent is None)
        }),
{
    let prof = opt_write(
        Control::WorkloadProfile,
        match p.profile {
            Some(v) => Some(decimal(v as int)),
            None => None,
        },
    );
    let pow = opt_write(
        Control::PowerLimit,
        match p.power_watts {
            Some(v) => Some(decimal(microwatts(v as int))),
            None => None,
        },
    );
    let mode = opt_write(
        Control::FanMode,
        match p.fan_automatic {
            Some(a) => Some(fan_mode_value(a)),
            None => None,
        },
    );
    let fan = apply_fan_percent_part(p);
    let tail = apply_tail_part(p);
    assert(tail == prof + pow + mode + fan);
    let good = |w: (Control, Seq<char>)|
        w.0 != Control::Overdrive && w.0 != Control::Performance && write_from_pending(p, w);
    assert(forall|i: int| 0 <= i < prof.len() ==> good(#[trigger] prof[i]));
    assert(forall|i: int| 0 <= i < pow.len() ==> good(#[trigger] pow[i]));
    assert(forall|i: int| 0 <= i < mode.len() ==> good(#[trigger] mode[i]));
    assert(forall|i: int| 0 <= i < fan.len() ==> good(#[trigger] fan[i]));
    lemma_all_concat(prof, pow, good);
    lemma_all_concat(prof + pow, mode, good);
    lemma_all_concat(prof + pow + mode, fan, good);
    if let Some(i) = p.profile {
        let x = (Control::WorkloadProfile, decimal(i as int));
        assert(prof[0] == x);
        lemma_contains_concat(prof, pow, x);
        lemma_contains_concat(prof + pow, mode, x);
        lemma_contains_concat(prof + pow + mode, fan, x);
    }
    if let Some(w) = p.power_watts {
        let x = (Control::PowerLimit, decimal(w as int * 1_000_000));
        assert(pow[0] == x);
        lemma_contains_concat(prof, pow, x);
        lemma_contains_concat(prof + pow, mode, x);
        lemma_contains_concat(prof + pow + mode, fan, x);
    }
    if let Some(a) = p.fan_automatic {
        let x = (Control::FanMode, if a { "2"@ } else { "1"@ });
        assert(mode[0] == x);
        lemma_contains_concat(prof + pow, mode, x);
        lemma_contains_concat(prof + pow + mode, fan, x);
    }
    if p.fan_percent is Some {
        assert(tail[tail.len() - 1] == fan[1]);
        assert(tail[tail.len() - 2] == fan[0]);
    }
}

/// The performance level write of an applying plan.
spec fn apply_performance_part(p: PendingChanges) -> Seq<(Control, Seq<char>)> {
    opt_write(
        Control::Performance,
        match p.performance {
            Some(v) => Some(v@),
            None => None,
        },
    )
}

proof fn lemma_plan_parts(p: PendingChanges)
    ensures
        apply_plan_spec(p) == apply_overdrive_part(p) + apply_performance_part(p) + apply_tail_part(p),
        apply_plan_spec(p) == apply_overdrive_part(p) + (apply_performance_part(p) + apply_tail_part(p)),
        forall|i: int| 0 <= i < apply_performance_part(p).len() ==> (#[trigger] apply_performance_part(p)[i]).0
            == Control::Performance && write_from_pending(p, apply_performance_part(p)[i]),
        apply_performance_part(p).len() == (if p.performance is Some { 1int } else { 0 }),
{
    let od = apply_overdrive_part(p);
    let perf = apply_performance_part(p);
    let prof = opt_write(
        Control::WorkloadProfile,
        match p.profile {
            Some(v) => Some(decimal(v as int)),
            None => None,
        },
    );
    let pow = opt_write(
        Control::PowerLimit,
        match p.power_watts {
            Some(v) => Some(decimal(microwatts(v as int))),
            None => None,
        },
    );
    let mode = opt_write(
        Control::FanMode,
        match p.fan_automatic {
            Some(a) => Some(fan_mode_value(a)),
            None => None,
        },
    );
    let fan = apply_fan_percent_part(p);
    let tail = apply_tail_part(p);
    assert(apply_plan_spec(p) == od + perf + prof + pow + mode + fan);
    assert(tail == prof + pow + mode + fan);
    let base = od + perf;
    vstd::seq_lib::lemma_concat_associative(base, prof, pow);
    vstd::seq_lib::lemma_concat_associative(base, prof + pow, mode);
    vstd::seq_lib::lemma_concat_associative(base, prof + pow + mode, fan);
    assert(apply_plan_spec(p) == base + tail);
    vstd::seq_lib::lemma_concat_associative(od, perf, tail);
    if let Some(v) = p.performance {
        assert(perf[0] == (Control::Performance, v@));
    }
}

/// Applying pending overdrive values: with a clock or the voltage offset
/// pending, the plan starts with the manual performance level, writes each
/// pending clock and voltage offset, and then commits the overdrive table
/// with `c`, after which nothing more is written to it.
pub proof fn lemma_apply_writes_overdrive(p: PendingChanges)
    ensures
        ({
            let plan = apply_plan_spec(p);
            &&& overdrive_pending(p) ==> plan.len() > 0 && plan[0] == (Control::Performance, "manual"@)
            &&& p.sclk_min matches Some(v) ==> plan.contains((Control::Overdrive, "s 0 "@ + decimal(v as int)))
            &&& p.sclk_max matches Some(v) ==> plan.contains((Control::Overdrive, "s 1 "@ + decimal(v as int)))
            &&& p.mclk_max matches Some(v) ==> plan.contains((Control::Overdrive, "m 1 "@ + decimal(v as int)))
            &&& p.voltage_offset matches Some(v) ==> plan.contains(
                (Control::Overdrive, "vo "@ + decimal(v as int)),
            )
            &&& overdrive_pending(p) ==> exists|c: int|
                0 <= c < plan.len() && #[trigger] plan[c] == (Control::Overdrive, "c"@) && forall|j: int|
                    c < j < plan.len() ==> (#[trigger] plan[j]).0 != Control::Overdrive
        }),
{
    lemma_od_part_facts(p);
    lemma_tail_part_facts(p);
    lemma_plan_parts(p);
    let od = apply_overdrive_part(p);
    let perf = apply_performance_part(p);
    let tail = apply_tail_part(p);
    let rest = perf + tail;
    let plan = apply_plan_spec(p);
    if let Some(v) = p.sclk_min {
        lemma_contains_concat(od, rest, (Control::Overdrive, "s 0 "@ + decimal(v as int)));
    }
    if let Some(v) = p.sclk_max {
        lemma_contains_concat(od, rest, (Control::Overdrive, "s 1 "@ + decimal(v as int)));
    }
    if let Some(v) = p.mclk_max {
        lemma_contains_concat(od, rest, (Control::Overdrive, "m 1 "@ + decimal(v as int)));
    }
    if let Some(v) = p.voltage_offset {
        lemma_contains_concat(od, rest, (Control::Overdrive, "vo "@ + decimal(v as int)));
    }
    if overdrive_pending(p) {
        assert(plan[0] == od[0]);
        let c = od.len() - 1;
        assert(plan[c] == od[c]);
        assert forall|j: int| c < j < plan.len() implies (#[trigger] plan[j]).0 != Control::Overdrive by {
            assert(plan[j] == rest[j - od.len()]);
            if j - od.len() < perf.len() {
                assert(rest[j - od.len()] == perf[j - od.len()]);
            } else {
                assert(rest[j - od.len()] == tail[j - od.len() - perf.len()]);
            }
        }
    }
}

/// Applying the other pending changes: the pending performance level is
/// the last performance level written; the pending workload profile, power
/// limit (in microwatts) and fan mode are written; a pending fan speed is
/// written as a duty right after the manual fan mode.
pub proof fn lemma_apply_writes_settings(p: PendingChanges)
    ensures
        ({
            let plan = apply_plan_spec(p);
            &&& p.performance matches Some(v) ==> exists|j: int|
                0 <= j < plan.len() && #[trigger] plan[j] == (Control::Performance, v@) && forall|k: int|
                    j < k < plan.len() ==> (#[trigger] plan[k]).0 != Control::Performance
            &&& p.profile matches Some(i) ==> plan.contains((Control::WorkloadProfile, decimal(i as int)))
            &&& p.power_watts matches Some(w) ==> plan.contains(
                (Control::PowerLimit, decimal(w as int * 1_000_000)),
            )
            &&& p.fan_automatic matches Some(a) ==> plan.contains(
                (Control::FanMode, if a { "2"@ } else { "1"@ }),
            )
            &&& p.fan_percent matches Some(pc) ==> exists|j: int|
                0 < j < plan.len() && #[trigger] plan[j] == (Control::FanPwm, decimal(
                    pwm_from_percent_spec(pc as int),
                )) && plan[j - 1] == (Control::FanMode, "1"@)
        }),
{
    lemma_tail_part_facts(p);
    lemma_plan_parts(p);
    let od = apply_overdrive_part(p);
    let perf = apply_performance_part(p);
    let tail = apply_tail_part(p);
    let base = od + perf;
    let plan = apply_plan_spec(p);
    if let Some(v) = p.performance {
        let j = od.len() as int;
        assert(plan[j] == perf[0]);
        assert forall|k: int| j < k < plan.len() implies (#[trigger] plan[k]).0 != Control::Performance by {
            assert(plan[k] == tail[k - j - 1]);
        }
    }
    if let Some(i) = p.profile {
        lemma_contains_concat(base, tail, (Control::WorkloadProfile, decimal(i as int)));
    }
    if let Some(w) = p.power_watts {
        lemma_contains_concat(base, tail, (Control::PowerLimit, decimal(w as int * 1_000_000)));
    }
    if let Some(a) = p.fan_automatic {
        lemma_contains_concat(base, tail, (Control::FanMode, if a { "2"@ } else { "1"@ }));
    }
    if p.fan_percent is Some {
        let j = plan.len() - 1;
        assert(plan[j] == tail[tail.len() - 1]);
        assert(plan[j - 1] == tail[tail.len() - 2]);
    }
}

/// Applying pending changes writes nothing else: every write has a pending
/// change behind it, so the plan is empty exactly when nothing is pending.
pub proof fn lemma_apply_writes_only_pending(p: PendingChanges)
    ensures
        forall|j: int| 0 <= j < apply_plan_spec(p).len() ==> write_from_pending(p, #[trigger] apply_plan_spec(p)[j]),
        p.is_empty_spec() <==> apply_plan_spec(p).len() == 0,
{
    lemma_od_part_facts(p);
    lemma_tail_part_facts(p);
    lemma_plan_parts(p);
    let od = apply_overdrive_part(p);
    let perf = apply_performance_part(p);
    let tail = apply_tail_part(p);
    let from = |w: (Control, Seq<char>)| write_from_pending(p, w);
    lemma_all_concat(od, perf, from);
    lemma_all_concat(od + perf, tail, from);
}

/// A fan speed in percent becomes the duty step from 0 to 255 nearest to
/// that share of 255: speeds below 0 % give 0, above 100 % give 255, and a
/// higher speed never gives a lower duty.
pub proof fn lemma_pwm_nearest_duty(a: int, b: int)
    requires
        a <= b,
    ensures
        0 <= pwm_from_percent_spec(a) <= 255,
        a <= 0 ==> pwm_from_percent_spec(a) == 0,
        b >= 100 ==> pwm_from_percent_spec(b) == 255,
        0 <= a <= 100 ==> -50 <= 100 * pwm_from_percent_spec(a) - 255 * a <= 50,
        pwm_from_percent_spec(a) <= pwm_from_percent_spec(b),
{
    let pa = if a < 0 {
        0
    } else if a > 100 {
        100
    } else {
        a
    };
    let pb = if b < 0 {
        0
    } else if b > 100 {
        100
    } else {
        b
    };
    assert(0 <= (pa * 255 + 50) / 100 <= 255) by (nonlinear_arith)
        requires
            0 <= pa <= 100,
    ;
    assert((pa * 255 + 50) / 100 <= (pb * 255 + 50) / 100) by (nonlinear_arith)
        requires
            0 <= pa <= pb,
    ;
    let r = (pa * 255 + 50) / 100;
    assert(100 * r <= pa * 255 + 50 < 100 * r + 100) by (nonlinear_arith)
        requires
            r == (pa * 255 + 50) / 100,
            pa >= 0,
    ;
}

} // verus!
