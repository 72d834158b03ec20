//! The sequences of control writes that roll a card back to a snapshot,
//! reset it to the driver's defaults, and restore saved settings at start.

use vstd::prelude::*;
use crate::gpu::ClockRange;
use crate::settings::DeviceSettings;
use crate::tray::performance_value;
use crate::text::{chars_eq_str, chars_of, decimal};
use crate::writer::{
    decimal_string, fan_mode_value, microwatts, od_point_writes, opt_write,
    pwm_from_percent, pwm_from_percent_spec, writes_view, Control, ControlWrite, GpuSnapshot,
};

verus! {

fn push_write(plan: &mut Vec<ControlWrite>, control: Control, value: String)
    ensures
        writes_view(final(plan)@) == writes_view(old(plan)@).push((control, value@)),
{
    let ghost before = plan@;
    plan.push(ControlWrite { control, value });
    assert(writes_view(plan@) =~= writes_view(before).push((control, value@)));
}

fn push_od(plan: &mut Vec<ControlWrite>, prefix: &str, v: Option<i32>)
    ensures
        writes_view(final(plan)@) == writes_view(old(plan)@) + match v {
            Some(v) => seq![(Control::Overdrive, prefix@ + decimal(v as int))],
            None => Seq::<(Control, Seq<char>)>::empty(),
        },
{
    let ghost before = writes_view(plan@);
    if let Some(v) = v {
        push_write(plan, Control::Overdrive, crate::writer::prefixed_decimal(prefix, v as i64));
        assert(writes_view(plan@) =~= before + seq![(Control::Overdrive, prefix@ + decimal(v as int))]);
    } else {
        assert(writes_view(plan@) =~= before + Seq::<(Control, Seq<char>)>::empty());
    }
}

/// The overdrive part of a rollback: reset the table, write the captured
/// points, commit.
pub open spec fn restore_overdrive_part(s: GpuSnapshot, has_overdrive: bool) -> Seq<(Control, Seq<char>)> {
    if has_overdrive {
        seq![(Control::Performance, "manual"@), (Control::Overdrive, "r"@)] + od_point_writes(
            s.sclk_min,
            s.sclk_max,
            s.mclk_max,
            s.voltage_offset,
        ) + seq![(Control::Overdrive, "c"@)]
    } else {
        seq![]
    }
}

/// The fan part of a rollback: the captured mode, and in manual mode the
/// captured speed.
pub open spec fn restore_fan_part(s: GpuSnapshot) -> Seq<(Control, Seq<char>)> {
    match s.fan_automatic {
        Some(a) => seq![(Control::FanMode, fan_mode_value(a))] + if !a {
            match s.fan_percent {
                Some(p) => seq![(Control::FanPwm, decimal(pwm_from_percent_spec(p as int)))],
                None => seq![],
            }
        } else {
            seq![]
        },
        None => seq![],
    }
}

/// The writes that bring a card back to `snapshot`, in order; the
/// overdrive table only when the card has one.
pub open spec fn restore_plan_spec(s: GpuSnapshot, has_overdrive: bool) -> Seq<(Control, Seq<char>)> {
    restore_overdrive_part(s, has_overdrive) + opt_write(
        Control::WorkloadProfile,
        match s.profile {
            Some(v) => Some(decimal(v as int)),
            None => None,
        },
    ) + opt_write(
        Control::PowerLimit,
        match s.power_watts {
            Some(v) => Some(decimal(microwatts(v as int))),
            None => None,
        },
    ) + restore_fan_part(s) + seq![(Control::Performance, s.performance@)]
}

fn push_opt(plan: &mut Vec<ControlWrite>, control: Control, v: Option<String>)
    ensures
        writes_view(final(plan)@) == writes_view(old(plan)@) + opt_write(
            control,
            match v {
                Some(s) => Some(s@),
                None => None,
            },
        ),
{
    let ghost before = writes_view(plan@);
    match v {
        Some(s) => {
            let ghost sv = s@;
            push_write(plan, control, s);
            assert(before.push((control, sv)) =~= before + opt_write(control, Some(sv)));
        },
        None => {
            assert(before =~= before + opt_write(control, None));
        },
    }
}

fn push_restore_overdrive(plan: &mut Vec<ControlWrite>, s: &GpuSnapshot, has_overdrive: bool)
    ensures
        writes_view(final(plan)@) == writes_view(old(plan)@) + restore_overdrive_part(*s, has_overdrive),
{
    let ghost before = writes_view(plan@);
    if has_overdrive {
        push_write(plan, Control::Performance, String::from_str("manual"));
        push_write(plan, Control::Overdrive, String::from_str("r"));
        let ghost mid = writes_view(plan@);
        push_od(plan, "s 0 ", s.sclk_min);
        push_od(plan, "s 1 ", s.sclk_max);
        push_od(plan, "m 1 ", s.mclk_max);
        push_od(plan, "vo ", s.voltage_offset);
        assert(writes_view(plan@) =~= mid + od_point_writes(s.sclk_min, s.sclk_max, s.mclk_max, s.voltage_offset));
        push_write(plan, Control::Overdrive, String::from_str("c"));
    }
    assert(writes_view(plan@) =~= before + restore_overdrive_part(*s, has_overdrive));
}

fn push_restore_fan(plan: &mut Vec<ControlWrite>, s: &GpuSnapshot)
    ensures
        writes_view(final(plan)@) == writes_view(old(plan)@) + restore_fan_part(*s),
{
    let ghost before = writes_view(plan@);
    if let Some(a) = s.fan_automatic {
        push_write(plan, Control::FanMode, String::from_str(if a { "2" } else { "1" }));
        if !a {
            if let Some(p) = s.fan_percent {
                push_write(plan, Control::FanPwm, decimal_string(pwm_from_percent(p) as i64));
            }
        }
    }
    assert(writes_view(plan@) =~= before + restore_fan_part(*s));
}

/// The writes that bring a card back to `snapshot` after a failed change;
/// `has_overdrive` says whether the card has `pp_od_clk_voltage`. A run
/// stops at the first write that fails.
pub fn restore_snapshot(snapshot: &GpuSnapshot, has_overdrive: bool) -> (r: Vec<ControlWrite>)
    ensures
        writes_view(r@) == restore_plan_spec(*snapshot, has_overdrive),
{
    let mut plan: Vec<ControlWrite> = Vec::new();
    assert(writes_view(plan@) =~= Seq::<(Control, Seq<char>)>::empty());
    push_restore_overdrive(&mut plan, snapshot, has_overdrive);
    push_opt(
        &mut plan,
        Control::WorkloadProfile,
        match snapshot.profile {
            Some(v) => Some(decimal_string(v as i64)),
            None => None,
        },
    );
    push_opt(
        &mut plan,
        Control::PowerLimit,
        match snapshot.power_watts {
            Some(v) => Some(decimal_string((v as i64) * 1_000_000)),
            None => None,
        },
    );
    push_restore_fan(&mut plan, snapshot);
    push_write(&mut plan, Control::Performance, snapshot.performance.clone());
    assert(writes_view(plan@) =~= restore_plan_spec(*snapshot, has_overdrive));
    plan
}

/// What the reset needs to know about a card: whether it has the overdrive
/// table, its default power limit in microwatts (when it has a power
/// limit), and whether it has the fan mode, workload profile and
/// performance level controls.
pub struct ResetFacts {
    pub has_overdrive: bool,
    pub power_default_microwatts: Option<i64>,
    pub has_fan_mode: bool,
    pub has_workload_profile: bool,
    pub has_performance: bool,
}

/// The writes that return a card to the driver's defaults, in order.
pub open spec fn reset_plan_spec(f: ResetFacts) -> Seq<(Control, Seq<char>)> {
    (if f.has_overdrive {
        seq![(Control::Overdrive, "r"@), (Control::Overdrive, "c"@)]
    } else {
        seq![]
    }) + opt_write(
        Control::PowerLimit,
        match f.power_default_microwatts {
            Some(v) => Some(decimal(v as int)),
            None => None,
        },
    ) + (if f.has_fan_mode {
        seq![(Control::FanMode, "2"@)]
    } else {
        seq![]
    }) + (if f.has_workload_profile {
        seq![(Control::WorkloadProfile, "0"@)]
    } else {
        seq![]
    }) + (if f.has_performance {
        seq![(Control::Performance, "auto"@)]
    } else {
        seq![]
    })
}

/// The writes that return a card to the driver's defaults; a run stops at
/// the first write that fails.
pub fn reset_controls(facts: &ResetFacts) -> (r: Vec<ControlWrite>)
    ensures
        writes_view(r@) == reset_plan_spec(*facts),
{
    let mut plan: Vec<ControlWrite> = Vec::new();
    let ghost p0 = writes_view(plan@);
    if facts.has_overdrive {
        push_write(&mut plan, Control::Overdrive, String::from_str("r"));
        push_write(&mut plan, Control::Overdrive, String::from_str("c"));
    }
    let ghost p1 = writes_view(plan@);
    push_opt(
        &mut plan,
        Control::PowerLimit,
        match facts.power_default_microwatts {
            Some(v) => Some(decimal_string(v)),
            None => None,
        },
    );
    let ghost p2 = writes_view(plan@);
    if facts.has_fan_mode {
        push_write(&mut plan, Control::FanMode, String::from_str("2"));
    }
    let ghost p3 = writes_view(plan@);
    if facts.has_workload_profile {
        push_write(&mut plan, Control::WorkloadProfile, String::from_str("0"));
    }
    let ghost p4 = writes_view(plan@);
    if facts.has_performance {
        push_write(&mut plan, Control::Performance, String::from_str("auto"));
    }
    proof {
        assert(p0 =~= Seq::<(Control, Seq<char>)>::empty());
        assert(p1 =~= p0 + (if facts.has_overdrive {
            seq![(Control::Overdrive, "r"@), (Control::Overdrive, "c"@)]
        } else {
            seq![]
        }));
        assert(p3 =~= p2 + (if facts.has_fan_mode {
            seq![(Control::FanMode, "2"@)]
        } else {
            seq![]
        }));
        assert(p4 =~= p3 + (if facts.has_workload_profile {
            seq![(Control::WorkloadProfile, "0"@)]
        } else {
            seq![]
        }));
        assert(writes_view(plan@) =~= p4 + (if facts.has_performance {
            seq![(Control::Performance, "auto"@)]
        } else {
            seq![]
        }));
        assert(writes_view(plan@) =~= reset_plan_spec(*facts));
    }
    plan
}

/// When a planned write runs.
#[derive(Clone, Copy, Debug, PartialEq, Eq, Structural)]
pub enum Guard {
    /// Always.
    Always,
    /// Only if the fan mode write succeeded.
    AfterFanMode,
    /// Only if at least one overdrive point write succeeded.
    AfterOverdrive,
}

/// What the success of a planned write tells later guarded writes.
#[derive(Clone, Copy, Debug, PartialEq, Eq, Structural)]
pub enum Mark {
    Nothing,
    FanMode,
    OverdrivePoint,
}

/// A write of a restore plan with its condition and what its success means.
pub struct PlannedWrite {
    pub write: ControlWrite,
    pub guard: Guard,
    pub mark: Mark,
}

pub open spec fn planned_view(w: PlannedWrite) -> (Control, Seq<char>, Guard, Mark) {
    (w.write.control, w.write.value@, w.guard, w.mark)
}

pub open spec fn plan_view(ws: Seq<PlannedWrite>) -> Seq<(Control, Seq<char>, Guard, Mark)> {
    ws.map_values(|w: PlannedWrite| planned_view(w))
}

pub open spec fn clamp(v: int, lo: int, hi: int) -> int {
    if v < lo {
        lo
    } else if v > hi {
        hi
    } else {
        v
    }
}

/// What restoring saved settings needs to know about a card: the indices of
/// its workload profiles, its power limit range in whole watts (when it has
/// a power limit), its core and memory clock overdrive ranges and its
/// voltage offset range.
pub struct RestoreFacts {
    pub profile_indices: Vec<u32>,
    pub power_range_watts: Option<(i32, i32)>,
    pub sclk_range: Option<ClockRange>,
    pub mclk_range: Option<ClockRange>,
    pub voltage: Option<(i32, i32, i32)>,
}

/// The saved values would be clamped into ranges that run backwards, where
/// `clamp` panics.
pub open spec fn restore_ranges_ordered(v: DeviceSettings, f: RestoreFacts) -> bool {
    &&& v.power_watts is Some ==> match f.power_range_watts {
        Some((lo, hi)) => lo <= hi,
        None => true,
    }
    &&& v.sclk_min is Some && v.sclk_max is Some ==> match f.sclk_range {
        Some(r) => r.allowed_minimum <= r.allowed_maximum,
        None => true,
    }
    &&& v.mclk_max is Some ==> match f.mclk_range {
        Some(r) => r.allowed_minimum <= r.allowed_maximum,
        None => true,
    }
    &&& v.voltage_offset is Some ==> match f.voltage {
        Some((_, lo, hi)) => lo <= hi,
        None => true,
    }
}

pub open spec fn step(c: Control, v: Seq<char>, g: Guard, m: Mark) -> Seq<(Control, Seq<char>, Guard, Mark)> {
    seq![(c, v, g, m)]
}

/// The fan part of restoring: the mode, and the speed only after the mode
/// was set to manual successfully.
pub open spec fn restore_settings_fan(v: DeviceSettings) -> Seq<(Control, Seq<char>, Guard, Mark)> {
    match v.fan_automatic {
        Some(a) => step(Control::FanMode, fan_mode_value(a), Guard::Always, Mark::FanMode) + if !a {
            match v.fan_percent {
                Some(p) => step(
                    Control::FanPwm,
                    decimal(pwm_from_percent_spec(p as int)),
                    Guard::AfterFanMode,
                    Mark::Nothing,
                ),
                None => seq![],
            }
        } else {
            seq![]
        },
        None => seq![],
    }
}

/// The overdrive part of restoring: the saved clocks and offset clamped to
/// what the card allows, each under the manual performance level, then a
/// commit if any of them was accepted.
pub open spec fn restore_settings_overdrive(v: DeviceSettings, f: RestoreFacts) -> Seq<
    (Control, Seq<char>, Guard, Mark),
> {
    let manual = step(Control::Performance, "manual"@, Guard::Always, Mark::Nothing);
    let core = match (f.sclk_range, v.sclk_min, v.sclk_max) {
        (Some(r), Some(lo), Some(hi)) => {
            let minimum = clamp(lo as int, r.allowed_minimum as int, r.allowed_maximum as int);
            let maximum = clamp(hi as int, minimum, r.allowed_maximum as int);
            manual + step(Control::Overdrive, "s 0 "@ + decimal(minimum), Guard::Always, Mark::OverdrivePoint)
                + step(Control::Overdrive, "s 1 "@ + decimal(maximum), Guard::Always, Mark::OverdrivePoint)
        },
        _ => seq![],
    };
    let memory = match (v.mclk_max, f.mclk_range) {
        (Some(hi), Some(r)) => manual + step(
            Control::Overdrive,
            "m 1 "@ + decimal(clamp(hi as int, r.allowed_minimum as int, r.allowed_maximum as int)),
            Guard::Always,
            Mark::OverdrivePoint,
        ),
        _ => seq![],
    };
    let voltage = match (v.voltage_offset, f.voltage) {
        (Some(o), Some((_, lo, hi))) => manual + step(
            Control::Overdrive,
            "vo "@ + decimal(clamp(o as int, lo as int, hi as int)),
            Guard::Always,
            Mark::OverdrivePoint,
        ),
        _ => seq![],
    };
    core + memory + voltage + step(Control::Overdrive, "c"@, Guard::AfterOverdrive, Mark::Nothing)
}

/// The saved performance levels that are restored.
pub open spec fn restorable_performance(p: Seq<char>) -> bool {
    p == "auto"@ || p == "low"@ || p == "high"@ || p == "manual"@
}

/// The writes that restore a card's saved settings at start, in order,
/// each with its condition: the workload profile if the card lists it, the
/// power limit clamped to the card's range, the fan, the overdrive values,
/// and a known performance level. Unlike the other plans, a failed write
/// does not stop the run.
pub open spec fn restore_settings_spec(v: DeviceSettings, f: RestoreFacts) -> Seq<
    (Control, Seq<char>, Guard, Mark),
> {
    let profile = match v.profile {
        Some(p) => if f.profile_indices@.contains(p) {
            step(Control::WorkloadProfile, decimal(p as int), Guard::Always, Mark::Nothing)
        } else {
            seq![]
        },
        None => seq![],
    };
    let power = match (v.power_watts, f.power_range_watts) {
        (Some(w), Some((lo, hi))) => step(
            Control::PowerLimit,
            decimal(microwatts(clamp(w as int, lo as int, hi as int))),
            Guard::Always,
            Mark::Nothing,
        ),
        _ => seq![],
    };
    let performance = match v.performance {
        Some(p) => if restorable_performance(p@) {
            step(Control::Performance, p@, Guard::Always, Mark::Nothing)
        } else {
            seq![]
        },
        None => seq![],
    };
    profile + power + restore_settings_fan(v) + restore_settings_overdrive(v, f) + performance
}

fn clamp_i32(v: i32, lo: i32, hi: i32) -> (r: i32)
    requires
        lo <= hi,
    ensures
        r == clamp(v as int, lo as int, hi as int),
        lo <= r <= hi,
{
    if v < lo {
        lo
    } else if v > hi {
        hi
    } else {
        v
    }
}

fn push_step(plan: &mut Vec<PlannedWrite>, control: Control, value: String, guard: Guard, mark: Mark)
    ensures
        plan_view(final(plan)@) == plan_view(old(plan)@) + step(control, value@, guard, mark),
{
    let ghost before = plan@;
    plan.push(PlannedWrite { write: ControlWrite { control, value }, guard, mark });
    assert(plan_view(plan@) =~= plan_view(before) + step(control, value@, guard, mark));
}

fn contains_u32(v: &Vec<u32>, x: u32) -> (r: bool)
    ensures
        r == v@.contains(x),
{
    let mut i: usize = 0;
    while i < v.len()
        invariant
            i <= v.len(),
            forall|j: int| 0 <= j < i ==> v@[j] != x,
        decreases v.len() - i,
    {
        if v[i] == x {
            return true;
        }
        i = i + 1;
    }
    false
}

fn push_restore_overdrive_settings(plan: &mut Vec<PlannedWrite>, v: &DeviceSettings, f: &RestoreFacts)
    requires
        restore_ranges_ordered(*v, *f),
    ensures
        plan_view(final(plan)@) == plan_view(old(plan)@) + restore_settings_overdrive(*v, *f),
{
    let ghost p0 = plan_view(plan@);
    let ghost manual = step(Control::Performance, "manual"@, Guard::Always, Mark::Nothing);
    match (&f.sclk_range, v.sclk_min, v.sclk_max) {
        (Some(r), Some(lo), Some(hi)) => {
            let minimum = clamp_i32(lo, r.allowed_minimum, r.allowed_maximum);
            let maximum = clamp_i32(hi, minimum, r.allowed_maximum);
            push_step(plan, Control::Performance, String::from_str("manual"), Guard::Always, Mark::Nothing);
            push_step(
                plan,
                Control::Overdrive,
                crate::writer::prefixed_decimal("s 0 ", minimum as i64),
                Guard::Always,
                Mark::OverdrivePoint,
            );
            push_step(
                plan,
                Control::Overdrive,
                crate::writer::prefixed_decimal("s 1 ", maximum as i64),
                Guard::Always,
                Mark::OverdrivePoint,
            );
        },
        _ => {},
    }
    let ghost p1 = plan_view(plan@);
    match (v.mclk_max, &f.mclk_range) {
        (Some(hi), Some(r)) => {
            let maximum = clamp_i32(hi, r.allowed_minimum, r.allowed_maximum);
            push_step(plan, Control::Performance, String::from_str("manual"), Guard::Always, Mark::Nothing);
            push_step(
                plan,
                Control::Overdrive,
                crate::writer::prefixed_decimal("m 1 ", maximum as i64),
                Guard::Always,
                Mark::OverdrivePoint,
            );
        },
        _ => {},
    }
    match (v.voltage_offset, &f.voltage) {
        (Some(o), Some((_, lo, hi))) => {
            let offset = clamp_i32(o, *lo, *hi);
            push_step(plan, Control::Performance, String::from_str("manual"), Guard::Always, Mark::Nothing);
            push_step(
                plan,
                Control::Overdrive,
                crate::writer::prefixed_decimal("vo ", offset as i64),
                Guard::Always,
                Mark::OverdrivePoint,
            );
        },
        _ => {},
    }
    push_step(plan, Control::Overdrive, String::from_str("c"), Guard::AfterOverdrive, Mark::Nothing);
    proof {
        let core = match (f.sclk_range, v.sclk_min, v.sclk_max) {
            (Some(r), Some(lo), Some(hi)) => {
                let minimum = clamp(lo as int, r.allowed_minimum as int, r.allowed_maximum as int);
                let maximum = clamp(hi as int, minimum, r.allowed_maximum as int);
                manual + step(Control::Overdrive, "s 0 "@ + decimal(minimum), Guard::Always, Mark::OverdrivePoint)
                    + step(Control::Overdrive, "s 1 "@ + decimal(maximum), Guard::Always, Mark::OverdrivePoint)
            },
            _ => seq![],
        };
        assert(p1 =~= p0 + core);
        assert(plan_view(plan@) =~= p0 + restore_settings_overdrive(*v, *f));
    }
}

/// The guarded writes that restore `values` on a card described by
/// `facts`.
pub fn restore_settings(values: &DeviceSettings, facts: &RestoreFacts) -> (r: Vec<PlannedWrite>)
    requires
        restore_ranges_ordered(*values, *facts),
    ensures
        plan_view(r@) == restore_settings_spec(*values, *facts),
{
    let mut plan: Vec<PlannedWrite> = Vec::new();
    let ghost p0 = plan_view(plan@);
    if let Some(p) = values.profile {
        if contains_u32(&facts.profile_indices, p) {
            push_step(&mut plan, Control::WorkloadProfile, decimal_string(p as i64), Guard::Always, Mark::Nothing);
        }
    }
    match (values.power_watts, facts.power_range_watts) {
        (Some(w), Some((lo, hi))) => {
            let watts = clamp_i32(w, lo, hi);
            push_step(
                &mut plan,
                Control::PowerLimit,
                decimal_string((watts as i64) * 1_000_000),
                Guard::Always,
                Mark::Nothing,
            );
        },
        _ => {},
    }
    let ghost p2 = plan_view(plan@);
    if let Some(a) = values.fan_automatic {
        push_step(&mut plan, Control::FanMode, String::from_str(if a { "2" } else { "1" }), Guard::Always, Mark::FanMode);
        if !a {
            if let Some(pc) = values.fan_percent {
                push_step(
                    &mut plan,
                    Control::FanPwm,
                    decimal_string(pwm_from_percent(pc) as i64),
                    Guard::AfterFanMode,
                    Mark::Nothing,
                );
            }
        }
    }
    let ghost p3 = plan_view(plan@);
    push_restore_overdrive_settings(&mut plan, values, facts);
    if let Some(p) = &values.performance {
        let c = chars_of(p.as_str());
        let c = c.as_slice();
        if chars_eq_str(c, "auto") || chars_eq_str(c, "low") || chars_eq_str(c, "high") || chars_eq_str(c, "manual") {
            push_step(&mut plan, Control::Performance, p.clone(), Guard::Always, Mark::Nothing);
        }
    }
    proof {
        assert(p0 =~= Seq::<(Control, Seq<char>, Guard, Mark)>::empty());
        assert(p3 =~= p2 + restore_settings_fan(*values));
        assert(plan_view(plan@) =~= restore_settings_spec(*values, *facts));
    }
    plan
}

/// What the results of the writes run so far mean for the guarded ones.
#[derive(Clone, Copy, Debug, PartialEq, Eq, Structural)]
pub struct RestoreProgress {
    pub fan_mode_set: bool,
    pub overdrive_changed: bool,
}

impl RestoreProgress {
    /// Nothing has run yet.
    pub fn new() -> (r: RestoreProgress)
        ensures
            !r.fan_mode_set && !r.overdrive_changed,
    {
        RestoreProgress { fan_mode_set: false, overdrive_changed: false }
    }

    /// Whether a write with this guard runs now.
    pub fn allows(&self, guard: Guard) -> (r: bool)
        ensures
            r == match guard {
                Guard::Always => true,
                Guard::AfterFanMode => self.fan_mode_set,
                Guard::AfterOverdrive => self.overdrive_changed,
            },
    {
        match guard {
            Guard::Always => true,
            Guard::AfterFanMode => self.fan_mode_set,
            Guard::AfterOverdrive => self.overdrive_changed,
        }
    }

    /// Takes note of a write with this mark that ran and succeeded (`ok`)
    /// or failed.
    pub fn record(&mut self, mark: Mark, ok: bool)
        ensures
            final(self).fan_mode_set == if mark == Mark::FanMode {
                ok
            } else {
                old(self).fan_mode_set
            },
            final(self).overdrive_changed == (old(self).overdrive_changed || (mark
                == Mark::OverdrivePoint && ok)),
    {
        match mark {
            Mark::FanMode => {
                self.fan_mode_set = ok;
            },
            Mark::OverdrivePoint => {
                self.overdrive_changed = self.overdrive_changed || ok;
            },
            Mark::Nothing => {},
        }
    }
}

/// Whether the card's ranges that restoring `values` clamps into run
/// forwards (`restore_ranges_ordered`), so that `restore_settings` may be
/// called.
pub fn restore_ranges_are_ordered(values: &DeviceSettings, facts: &RestoreFacts) -> (r: bool)
    ensures
        r == restore_ranges_ordered(*values, *facts),
{
    let power = match (values.power_watts, facts.power_range_watts) {
        (Some(_), Some((lo, hi))) => lo <= hi,
        _ => true,
    };
    let core = match (values.sclk_min, values.sclk_max, facts.sclk_range) {
        (Some(_), Some(_), Some(r)) => r.allowed_minimum <= r.allowed_maximum,
        _ => true,
    };
    let memory = match (values.mclk_max, facts.mclk_range) {
        (Some(_), Some(r)) => r.allowed_minimum <= r.allowed_maximum,
        _ => true,
    };
    let voltage = match (values.voltage_offset, facts.voltage) {
        (Some(_), Some((_, lo, hi))) => lo <= hi,
        _ => true,
    };
    power && core && memory && voltage
}

/// A saved performance level is restored exactly when it is one of the four
/// levels the menus offer, and then as the last write of the plan, run in
/// any case, after the overdrive writes that may set `manual`.
pub proof fn lemma_restore_menu_levels(v: DeviceSettings, f: RestoreFacts)
    ensures
        forall|i: int|
            0 <= i < 4 ==> restorable_performance(#[trigger] performance_value(i)),
        restorable_performance(
            match v.performance {
                Some(p) => p@,
                None => seq![],
            },
        ) ==> exists|i: int|
            0 <= i < 4 && performance_value(i) == match v.performance {
                Some(p) => p@,
                None => seq![],
            },
        match v.performance {
            Some(p) => (exists|i: int| 0 <= i < 4 && #[trigger] performance_value(i) == p@) ==> {
                let plan = restore_settings_spec(v, f);
                &&& plan.len() > 0
                &&& plan.last() == (Control::Performance, p@, Guard::Always, Mark::Nothing)
            },
            None => true,
        },
{
    reveal_strlit("auto");
    reveal_strlit("low");
    reveal_strlit("high");
    reveal_strlit("manual");
    assert(performance_value(0) == "auto"@);
    assert(performance_value(1) == "low"@);
    assert(performance_value(2) == "high"@);
    assert(performance_value(3) == "manual"@);
    if let Some(p) = v.performance {
        if exists|i: int| 0 <= i < 4 && #[trigger] performance_value(i) == p@ {
            let i = choose|i: int| 0 <= i < 4 && #[trigger] performance_value(i) == p@;
            assert(restorable_performance(p@));
        }
    }
}


proof fn lemma_in_concat<A>(a: Seq<A>, b: Seq<A>, x: A)
    ensures
        a.contains(x) ==> (a + b).contains(x),
        b.contains(x) ==> (a + b).contains(x),
{
    if a.contains(x) {
        let i = choose|i: int| 0 <= i < a.len() && a[i] == x;
        assert((a + b)[i] == x);
    }
    if b.contains(x) {
        let i = choose|i: int| 0 <= i < b.len() && b[i] == x;
        assert((a + b)[a.len() + i] == x);
    }
}

/// `x` is `v` brought into `lo..=hi`: `v` itself when it lies there, else
/// the bound it passed.
pub open spec fn brought_into(x: int, v: int, lo: int, hi: int) -> bool {
    &&& lo <= x <= hi
    &&& v < lo ==> x == lo
    &&& v > hi ==> x == hi
    &&& lo <= v <= hi ==> x == v
}

proof fn lemma_clamp_brings_into(v: int, lo: int, hi: int)
    requires
        lo <= hi,
    ensures
        brought_into(clamp(v, lo, hi), v, lo, hi),
{
}

/// Restoring saved settings puts each saved value that the card can take
/// back on the card, brought into the card's range: the workload profile
/// when the card lists it, the power limit (in microwatts), the core clock
/// minimum and maximum (the maximum no lower than the minimum), the memory
/// clock maximum and the voltage offset, each under the manual performance
/// level; the fan mode, and the fan speed after a manual fan mode.
pub proof fn lemma_restore_settings_on_card(v: DeviceSettings, f: RestoreFacts)
    requires
        restore_ranges_ordered(v, f),
    ensures
        ({
            let plan = restore_settings_spec(v, f);
            &&& v.profile matches Some(i) ==> (f.profile_indices@.contains(i) <==> plan.contains(
                (Control::WorkloadProfile, decimal(i as int), Guard::Always, Mark::Nothing),
            ))
            &&& (v.power_watts, f.power_range_watts) matches (Some(w), Some((lo, hi))) ==> exists|x: int|
                brought_into(x, w as int, lo as int, hi as int) && #[trigger] plan.contains(
                    (Control::PowerLimit, decimal(x * 1_000_000), Guard::Always, Mark::Nothing),
                )
            &&& (v.sclk_min, v.sclk_max, f.sclk_range) matches (Some(a), Some(b), Some(r)) ==> exists|
                x: int,
                y: int,
            |
                brought_into(x, a as int, r.allowed_minimum as int, r.allowed_maximum as int)
                    && brought_into(y, b as int, x, r.allowed_maximum as int) && #[trigger] plan.contains(
                    (Control::Overdrive, "s 0 "@ + decimal(x), Guard::Always, Mark::OverdrivePoint),
                ) && #[trigger] plan.contains(
                    (Control::Overdrive, "s 1 "@ + decimal(y), Guard::Always, Mark::OverdrivePoint),
                )
            &&& (v.mclk_max, f.mclk_range) matches (Some(b), Some(r)) ==> exists|x: int|
                brought_into(x, b as int, r.allowed_minimum as int, r.allowed_maximum as int)
                    && #[trigger] plan.contains(
                    (Control::Overdrive, "m 1 "@ + decimal(x), Guard::Always, Mark::OverdrivePoint),
                )
            &&& (v.voltage_offset, f.voltage) matches (Some(o), Some((_, lo, hi))) ==> exists|x: int|
                brought_into(x, o as int, lo as int, hi as int) && #[trigger] plan.contains(
                    (Control::Overdrive, "vo "@ + decimal(x), Guard::Always, Mark::OverdrivePoint),
                )
            &&& (v.sclk_min is Some && v.sclk_max is Some && f.sclk_range is Some) || (v.mclk_max is Some
                && f.mclk_range is Some) || (v.voltage_offset is Some && f.voltage is Some)
                ==> plan.contains((Control::Performance, "manual"@, Guard::Always, Mark::Nothing))
            &&& v.fan_automatic matches Some(a) ==> plan.contains(
                (Control::FanMode, if a { "2"@ } else { "1"@ }, Guard::Always, Mark::FanMode),
            )
            &&& (v.fan_automatic, v.fan_percent) matches (Some(false), Some(pc)) ==> plan.contains(
                (
                    Control::FanPwm,
                    decimal(pwm_from_percent_spec(pc as int)),
                    Guard::AfterFanMode,
                    Mark::Nothing,
                ),
            )
            &&& plan.contains((Control::Overdrive, "c"@, Guard::AfterOverdrive, Mark::Nothing))
        }),
{
    let profile = match v.profile {
        Some(p) => if f.profile_indices@.contains(p) {
            step(Control::WorkloadProfile, decimal(p as int), Guard::Always, Mark::Nothing)
        } else {
            seq![]
        },
        None => seq![],
    };
    let power = match (v.power_watts, f.power_range_watts) {
        (Some(w), Some((lo, hi))) => step(
            Control::PowerLimit,
            decimal(microwatts(clamp(w as int, lo as int, hi as int))),
            Guard::Always,
            Mark::Nothing,
        ),
        _ => seq![],
    };
    let performance = match v.performance {
        Some(p) => if restorable_performance(p@) {
            step(Control::Performance, p@, Guard::Always, Mark::Nothing)
        } else {
            seq![]
        },
        None => seq![],
    };
    let fan = restore_settings_fan(v);
    let od = restore_settings_overdrive(v, f);
    let plan = restore_settings_spec(v, f);
    assert(plan == profile + power + fan + od + performance);
    lemma_restore_parts_in_plan(profile, power, fan, od, performance);
    lemma_restore_overdrive_on_card(v, f);
    assert(od.contains((Control::Overdrive, "c"@, Guard::AfterOverdrive, Mark::Nothing)));
    if (v.sclk_min is Some && v.sclk_max is Some && f.sclk_range is Some) || (v.mclk_max is Some
        && f.mclk_range is Some) || (v.voltage_offset is Some && f.voltage is Some) {
        assert(od.contains((Control::Performance, "manual"@, Guard::Always, Mark::Nothing)));
    }
    if let Some(i) = v.profile {
        let x = (Control::WorkloadProfile, decimal(i as int), Guard::Always, Mark::Nothing);
        if f.profile_indices@.contains(i) {
            assert(profile[0] == x);
            assert(profile.contains(x));
        } else {
            assert(profile.len() == 0);
            assert forall|k: int| 0 <= k < plan.len() implies plan[k] != x by {
                lemma_no_profile_write(profile, power, fan, od, performance, k);
            }
        }
    }
    if let (Some(w), Some((lo, hi))) = (v.power_watts, f.power_range_watts) {
        let x = clamp(w as int, lo as int, hi as int);
        lemma_clamp_brings_into(w as int, lo as int, hi as int);
        assert(power[0] == (Control::PowerLimit, decimal(x * 1_000_000), Guard::Always, Mark::Nothing));
        assert(power.contains((Control::PowerLimit, decimal(x * 1_000_000), Guard::Always, Mark::Nothing)));
        assert(plan.contains((Control::PowerLimit, decimal(x * 1_000_000), Guard::Always, Mark::Nothing)));
    }
    if let Some(a) = v.fan_automatic {
        assert(fan[0] == (Control::FanMode, if a { "2"@ } else { "1"@ }, Guard::Always, Mark::FanMode));
        assert(fan.contains((Control::FanMode, if a { "2"@ } else { "1"@ }, Guard::Always, Mark::FanMode)));
        if !a {
            if let Some(pc) = v.fan_percent {
                assert(fan[1] == (
                    Control::FanPwm,
                    decimal(pwm_from_percent_spec(pc as int)),
                    Guard::AfterFanMode,
                    Mark::Nothing,
                ));
                assert(fan.contains((
                    Control::FanPwm,
                    decimal(pwm_from_percent_spec(pc as int)),
                    Guard::AfterFanMode,
                    Mark::Nothing,
                )));
            }
        }
    }
}

/// Whatever one of the five parts of a restore plan holds, the plan holds.
proof fn lemma_restore_parts_in_plan<A>(a: Seq<A>, b: Seq<A>, c: Seq<A>, d: Seq<A>, e: Seq<A>)
    ensures
        forall|x: A| #[trigger] a.contains(x) ==> (a + b + c + d + e).contains(x),
        forall|x: A| #[trigger] b.contains(x) ==> (a + b + c + d + e).contains(x),
        forall|x: A| #[trigger] c.contains(x) ==> (a + b + c + d + e).contains(x),
        forall|x: A| #[trigger] d.contains(x) ==> (a + b + c + d + e).contains(x),
{
    assert forall|x: A| a.contains(x) || b.contains(x) || c.contains(x) || d.contains(x) implies (a + b + c + d
        + e).contains(x) by {
        lemma_in_concat(a, b, x);
        lemma_in_concat(a + b, c, x);
        lemma_in_concat(a + b + c, d, x);
        lemma_in_concat(a + b + c + d, e, x);
    }
}

proof fn lemma_no_profile_write(
    a: Seq<(Control, Seq<char>, Guard, Mark)>,
    b: Seq<(Control, Seq<char>, Guard, Mark)>,
    c: Seq<(Control, Seq<char>, Guard, Mark)>,
    d: Seq<(Control, Seq<char>, Guard, Mark)>,
    e: Seq<(Control, Seq<char>, Guard, Mark)>,
    k: int,
)
    requires
        forall|i: int| 0 <= i < a.len() ==> (#[trigger] a[i]).0 != Control::WorkloadProfile,
        forall|i: int| 0 <= i < b.len() ==> (#[trigger] b[i]).0 != Control::WorkloadProfile,
        forall|i: int| 0 <= i < c.len() ==> (#[trigger] c[i]).0 != Control::WorkloadProfile,
        forall|i: int| 0 <= i < d.len() ==> (#[trigger] d[i]).0 != Control::WorkloadProfile,
        forall|i: int| 0 <= i < e.len() ==> (#[trigger] e[i]).0 != Control::WorkloadProfile,
        0 <= k < (a + b + c + d + e).len(),
    ensures
        (a + b + c + d + e)[k].0 != Control::WorkloadProfile,
{
    let ab = a + b;
    let abc = ab + c;
    let abcd = abc + d;
    if k >= abcd.len() {
        assert((abcd + e)[k] == e[k - abcd.len()]);
    } else {
        assert((abcd + e)[k] == abcd[k]);
        if k >= abc.len() {
            assert(abcd[k] == d[k - abc.len()]);
        } else {
            assert(abcd[k] == abc[k]);
            if k >= ab.len() {
                assert(abc[k] == c[k - ab.len()]);
            } else {
                assert(abc[k] == ab[k]);
                if k >= a.len() {
                    assert(ab[k] == b[k - a.len()]);
                } else {
                    assert(ab[k] == a[k]);
                }
            }
        }
    }
}

proof fn lemma_restore_overdrive_on_card(v: DeviceSettings, f: RestoreFacts)
    requires
        restore_ranges_ordered(v, f),
    ensures
        ({
            let od = restore_settings_overdrive(v, f);
            &&& forall|i: int| 0 <= i < od.len() ==> (#[trigger] od[i]).0 == Control::Overdrive || od[i].0
                == Control::Performance
            &&& (v.sclk_min, v.sclk_max, f.sclk_range) matches (Some(a), Some(b), Some(r)) ==> exists|
                x: int,
                y: int,
            |
                brought_into(x, a as int, r.allowed_minimum as int, r.allowed_maximum as int)
                    && brought_into(y, b as int, x, r.allowed_maximum as int) && #[trigger] od.contains(
                    (Control::Overdrive, "s 0 "@ + decimal(x), Guard::Always, Mark::OverdrivePoint),
                ) && #[trigger] od.contains(
                    (Control::Overdrive, "s 1 "@ + decimal(y), Guard::Always, Mark::OverdrivePoint),
                )
            &&& (v.mclk_max, f.mclk_range) matches (Some(b), Some(r)) ==> exists|x: int|
                brought_into(x, b as int, r.allowed_minimum as int, r.allowed_maximum as int)
                    && #[trigger] od.contains(
                    (Control::Overdrive, "m 1 "@ + decimal(x), Guard::Always, Mark::OverdrivePoint),
                )
            &&& (v.voltage_offset, f.voltage) matches (Some(o), Some((_, lo, hi))) ==> exists|x: int|
                brought_into(x, o as int, lo as int, hi as int) && #[trigger] od.contains(
                    (Control::Overdrive, "vo "@ + decimal(x), Guard::Always, Mark::OverdrivePoint),
                )
            &&& (v.sclk_min is Some && v.sclk_max is Some && f.sclk_range is Some) || (v.mclk_max is Some
                && f.mclk_range is Some) || (v.voltage_offset is Some && f.voltage is Some)
                ==> od.contains((Control::Performance, "manual"@, Guard::Always, Mark::Nothing))
            &&& od.contains((Control::Overdrive, "c"@, Guard::AfterOverdrive, Mark::Nothing))
        }),
{
    let manual = step(Control::Performance, "manual"@, Guard::Always, Mark::Nothing);
    let mw = (Control::Performance, "manual"@, Guard::Always, Mark::Nothing);
    let core = match (f.sclk_range, v.sclk_min, v.sclk_max) {
        (Some(r), Some(lo), Some(hi)) => {
            let minimum = clamp(lo as int, r.allowed_minimum as int, r.allowed_maximum as int);
            let maximum = clamp(hi as int, minimum, r.allowed_maximum as int);
            manual + step(Control::Overdrive, "s 0 "@ + decimal(minimum), Guard::Always, Mark::OverdrivePoint)
                + step(Control::Overdrive, "s 1 "@ + decimal(maximum), Guard::Always, Mark::OverdrivePoint)
        },
        _ => seq![],
    };
    let memory = match (v.mclk_max, f.mclk_range) {
        (Some(hi), Some(r)) => manual + step(
            Control::Overdrive,
            "m 1 "@ + decimal(clamp(hi as int, r.allowed_minimum as int, r.allowed_maximum as int)),
            Guard::Always,
            Mark::OverdrivePoint,
        ),
        _ => seq![],
    };
    let voltage = match (v.voltage_offset, f.voltage) {
        (Some(o), Some((_, lo, hi))) => manual + step(
            Control::Overdrive,
            "vo "@ + decimal(clamp(o as int, lo as int, hi as int)),
            Guard::Always,
            Mark::OverdrivePoint,
        ),
        _ => seq![],
    };
    let commit = step(Control::Overdrive, "c"@, Guard::AfterOverdrive, Mark::Nothing);
    let od = restore_settings_overdrive(v, f);
    assert(od == core + memory + voltage + commit);
    let cm = core + memory;
    let cmv = cm + voltage;
    assert forall|x: (Control, Seq<char>, Guard, Mark)|
        core.contains(x) || memory.contains(x) || voltage.contains(x) || commit.contains(x) implies #[trigger] od.contains(x) by {
        lemma_in_concat(core, memory, x);
        lemma_in_concat(cm, voltage, x);
        lemma_in_concat(cmv, commit, x);
    }
    assert(commit[0] == (Control::Overdrive, "c"@, Guard::AfterOverdrive, Mark::Nothing));
    if let (Some(r), Some(a), Some(b)) = (f.sclk_range, v.sclk_min, v.sclk_max) {
        let x = clamp(a as int, r.allowed_minimum as int, r.allowed_maximum as int);
        let y = clamp(b as int, x, r.allowed_maximum as int);
        lemma_clamp_brings_into(a as int, r.allowed_minimum as int, r.allowed_maximum as int);
        lemma_clamp_brings_into(b as int, x, r.allowed_maximum as int);
        assert(core[0] == mw);
        assert(core[1] == (Control::Overdrive, "s 0 "@ + decimal(x), Guard::Always, Mark::OverdrivePoint));
        assert(core[2] == (Control::Overdrive, "s 1 "@ + decimal(y), Guard::Always, Mark::OverdrivePoint));
        assert(od.contains((Control::Overdrive, "s 0 "@ + decimal(x), Guard::Always, Mark::OverdrivePoint)));
        assert(od.contains((Control::Overdrive, "s 1 "@ + decimal(y), Guard::Always, Mark::OverdrivePoint)));
    }
    if let (Some(b), Some(r)) = (v.mclk_max, f.mclk_range) {
        let x = clamp(b as int, r.allowed_minimum as int, r.allowed_maximum as int);
        lemma_clamp_brings_into(b as int, r.allowed_minimum as int, r.allowed_maximum as int);
        assert(memory[0] == mw);
        assert(memory[1] == (Control::Overdrive, "m 1 "@ + decimal(x), Guard::Always, Mark::OverdrivePoint));
        assert(od.contains((Control::Overdrive, "m 1 "@ + decimal(x), Guard::Always, Mark::OverdrivePoint)));
    }
    if let (Some(o), Some((_, lo, hi))) = (v.voltage_offset, f.voltage) {
        let x = clamp(o as int, lo as int, hi as int);
        lemma_clamp_brings_into(o as int, lo as int, hi as int);
        assert(voltage[0] == mw);
        assert(voltage[1] == (Control::Overdrive, "vo "@ + decimal(x), Guard::Always, Mark::OverdrivePoint));
        assert(od.contains((Control::Overdrive, "vo "@ + decimal(x), Guard::Always, Mark::OverdrivePoint)));
    }
    let ok = |w: (Control, Seq<char>, Guard, Mark)| w.0 == Control::Overdrive || w.0 == Control::Performance;
    assert forall|i: int| 0 <= i < od.len() implies ok(#[trigger] od[i]) by {
        if i < cm.len() {
            assert(od[i] == cm[i]);
            if i < core.len() {
                assert(cm[i] == core[i]);
            } else {
                assert(cm[i] == memory[i - core.len()]);
            }
        } else if i < cmv.len() {
            assert(od[i] == voltage[i - cm.len()]);
        } else {
            assert(od[i] == commit[i - cmv.len()]);
        }
    }
}

} // verus!
