//! What the privileged helper accepts of the writes the application plans:
//! every control the application names is one the helper may write, and
//! every value it plans passes the helper's checks when the values it
//! starts from lie in the ranges the driver reports.

use vstd::prelude::*;
use crate::helper::{control_allowed, overdrive_words_allowed, performance_level_allowed, signed_spec, value_allowed};
use crate::plans::{
    clamp, reset_plan_spec, restore_fan_part, restore_overdrive_part, restore_plan_spec,
    restore_ranges_ordered, restore_settings_fan, restore_settings_overdrive,
    restore_settings_spec, restorable_performance, step, Guard, Mark, ResetFacts, RestoreFacts,
};
use crate::settings::DeviceSettings;
use crate::text::{
    all_digits, decimal, digits_value, integer_value, is_word, lemma_decimal_word,
    lemma_nat_decimal, lemma_nat_decimal_len, lemma_words_cons, lemma_words_single,
    nat_decimal, parse_u16_spec, pow10, words,
};
use crate::writer::{
    apply_fan_percent_part, apply_overdrive_part, apply_plan_spec, control_name, fan_mode_value,
    microwatts, od_point_writes, od_write, opt_write, pwm_from_percent_spec, Control,
    GpuSnapshot, PendingChanges,
};

verus! {

/// The helper writes `w.1` to the control `w.0`: the control is one it may
/// write and the value passes its check for that control.
pub open spec fn helper_accepts(w: (Control, Seq<char>)) -> bool {
    control_allowed(control_name(w.0)) && value_allowed(control_name(w.0), w.1)
}

/// The helper accepts every write of `ws`.
pub open spec fn all_accepted(ws: Seq<(Control, Seq<char>)>) -> bool {
    forall|i: int| 0 <= i < ws.len() ==> helper_accepts(#[trigger] ws[i])
}

/// The control names have different lengths, so no two are equal.
proof fn reveal_control_names()
    ensures
        "power_dpm_force_performance_level"@.len() == 33,
        "pp_power_profile_mode"@.len() == 21,
        "pp_od_clk_voltage"@.len() == 17,
        "power1_cap"@.len() == 10,
        "pwm1"@.len() == 4,
        "pwm1_enable"@.len() == 11,
{
    reveal_strlit("power_dpm_force_performance_level");
    reveal_strlit("pp_power_profile_mode");
    reveal_strlit("pp_od_clk_voltage");
    reveal_strlit("power1_cap");
    reveal_strlit("pwm1");
    reveal_strlit("pwm1_enable");
}

/// Every control file the application writes is one the helper may write.
pub proof fn lemma_control_names_allowed(c: Control)
    ensures
        control_allowed(control_name(c)),
{
}

proof fn lemma_accepted_concat(a: Seq<(Control, Seq<char>)>, b: Seq<(Control, Seq<char>)>)
    requires
        all_accepted(a),
        all_accepted(b),
    ensures
        all_accepted(a + b),
{
    assert forall|i: int| 0 <= i < (a + b).len() implies helper_accepts(#[trigger] (a + b)[i]) by {}
}

/// `<letter> <point> <clock>` with a clock that is not negative.
proof fn lemma_point_write(prefix: Seq<char>, v: int)
    requires
        prefix == "s 0 "@ || prefix == "s 1 "@ || prefix == "m 1 "@,
        v >= 0,
    ensures
        helper_accepts((Control::Overdrive, prefix + decimal(v))),
{
    reveal_control_names();
    reveal_strlit("s 0 ");
    reveal_strlit("s 1 ");
    reveal_strlit("m 1 ");
    reveal_strlit("s");
    reveal_strlit("m");
    let letter = if prefix[0] == 's' {
        "s"@
    } else {
        "m"@
    };
    let point = if prefix[2] == '0' {
        seq!['0']
    } else {
        seq!['1']
    };
    let d = decimal(v);
    lemma_decimal_word(v);
    assert(prefix + d =~= letter + seq![' '] + (point + seq![' '] + d));
    lemma_words_single(d);
    lemma_words_cons(point, d);
    lemma_words_cons(letter, point + seq![' '] + d);
    let t = words(prefix + d);
    assert(t =~= seq![letter, point, d]);
}

/// `vo <offset>` for any offset.
proof fn lemma_offset_write(v: int)
    ensures
        helper_accepts((Control::Overdrive, "vo "@ + decimal(v))),
{
    reveal_control_names();
    reveal_strlit("vo ");
    reveal_strlit("vo");
    let d = decimal(v);
    lemma_decimal_word(v);
    let vo = "vo"@;
    assert("vo "@ + d =~= vo + seq![' '] + d);
    lemma_words_single(d);
    lemma_words_cons(vo, d);
    let t = words("vo "@ + d);
    assert(t =~= seq![vo, d]);
}

/// The one-word overdrive commands `r` and `c`.
proof fn lemma_command_write(cmd: Seq<char>)
    requires
        cmd == "c"@ || cmd == "r"@,
    ensures
        helper_accepts((Control::Overdrive, cmd)),
{
    reveal_control_names();
    reveal_strlit("c");
    reveal_strlit("r");
    lemma_words_single(cmd);
}

proof fn lemma_performance_write(v: Seq<char>)
    requires
        performance_level_allowed(v),
    ensures
        helper_accepts((Control::Performance, v)),
{
    reveal_control_names();
}

proof fn lemma_profile_write(n: int)
    requires
        n >= 0,
    ensures
        helper_accepts((Control::WorkloadProfile, decimal(n))),
{
    reveal_control_names();
    lemma_decimal_word(n);
}

/// A power limit in whole watts from 0 to 9 999: its microwatts take at
/// most ten digits.
proof fn lemma_power_write(w: int)
    requires
        0 <= w < 10000,
    ensures
        helper_accepts((Control::PowerLimit, decimal(microwatts(w)))),
{
    reveal_control_names();
    let m = microwatts(w);
    lemma_decimal_word(m);
    assert(pow10(10) == 10_000_000_000) by {
        reveal_with_fuel(pow10, 11);
    }
    lemma_nat_decimal_len(m as nat, 10);
}

proof fn lemma_microwatts_write(m: int)
    requires
        0 <= m < 10_000_000_000,
    ensures
        helper_accepts((Control::PowerLimit, decimal(m))),
{
    reveal_control_names();
    lemma_decimal_word(m);
    assert(pow10(10) == 10_000_000_000) by {
        reveal_with_fuel(pow10, 11);
    }
    lemma_nat_decimal_len(m as nat, 10);
}

/// Every fan speed in percent becomes a duty the helper accepts.
pub proof fn lemma_fan_speed_accepted(percent: int)
    ensures
        helper_accepts((Control::FanPwm, decimal(pwm_from_percent_spec(percent)))),
{
    reveal_control_names();
    let n = pwm_from_percent_spec(percent);
    let p = if percent < 0 {
        0
    } else if percent > 100 {
        100
    } else {
        percent
    };
    assert(0 <= (p * 255 + 50) / 100 <= 255) by (nonlinear_arith)
        requires
            0 <= p <= 100,
    ;
    lemma_nat_decimal(n as nat);
}

proof fn lemma_fan_mode_write(v: Seq<char>)
    requires
        v == "1"@ || v == "2"@,
    ensures
        helper_accepts((Control::FanMode, v)),
{
    reveal_control_names();
}

proof fn lemma_od_write(prefix: Seq<char>, v: Option<i32>)
    requires
        prefix == "s 0 "@ || prefix == "s 1 "@ || prefix == "m 1 "@ || prefix == "vo "@,
        prefix != "vo "@ ==> (v matches Some(x) ==> x >= 0),
    ensures
        all_accepted(od_write(prefix, v)),
{
    match v {
        Some(x) => {
            if prefix == "vo "@ {
                lemma_offset_write(x as int);
            } else {
                lemma_point_write(prefix, x as int);
            }
        },
        None => {},
    }
}

proof fn lemma_od_points(sclk_min: Option<i32>, sclk_max: Option<i32>, mclk_max: Option<i32>, voltage: Option<i32>)
    requires
        sclk_min matches Some(x) ==> x >= 0,
        sclk_max matches Some(x) ==> x >= 0,
        mclk_max matches Some(x) ==> x >= 0,
    ensures
        all_accepted(od_point_writes(sclk_min, sclk_max, mclk_max, voltage)),
{
    reveal_strlit("s 0 ");
    reveal_strlit("s 1 ");
    reveal_strlit("m 1 ");
    reveal_strlit("vo ");
    lemma_od_write("s 0 "@, sclk_min);
    lemma_od_write("s 1 "@, sclk_max);
    lemma_od_write("m 1 "@, mclk_max);
    lemma_od_write("vo "@, voltage);
    lemma_accepted_concat(od_write("s 0 "@, sclk_min), od_write("s 1 "@, sclk_max));
    lemma_accepted_concat(
        od_write("s 0 "@, sclk_min) + od_write("s 1 "@, sclk_max),
        od_write("m 1 "@, mclk_max),
    );
    lemma_accepted_concat(
        od_write("s 0 "@, sclk_min) + od_write("s 1 "@, sclk_max) + od_write("m 1 "@, mclk_max),
        od_write("vo "@, voltage),
    );
}

/// What a tuning session can leave pending, as the helper needs it: a
/// performance level the driver knows, clocks that are not negative and a
/// power limit from 0 to 9 999 W.
pub open spec fn pending_in_range(p: PendingChanges) -> bool {
    &&& p.performance matches Some(v) ==> performance_level_allowed(v@)
    &&& p.sclk_min matches Some(x) ==> x >= 0
    &&& p.sclk_max matches Some(x) ==> x >= 0
    &&& p.mclk_max matches Some(x) ==> x >= 0
    &&& p.power_watts matches Some(w) ==> 0 <= w < 10000
}

/// The helper accepts every write that applying pending changes makes,
/// when the pending values are in range.
pub proof fn lemma_apply_plan_accepted(p: PendingChanges)
    requires
        pending_in_range(p),
    ensures
        all_accepted(apply_plan_spec(p)),
{
    reveal_strlit("manual");
    reveal_strlit("c");
    let od = apply_overdrive_part(p);
    if p.sclk_min is Some || p.sclk_max is Some || p.mclk_max is Some || p.voltage_offset is Some {
        lemma_performance_write("manual"@);
        lemma_od_points(p.sclk_min, p.sclk_max, p.mclk_max, p.voltage_offset);
        lemma_command_write("c"@);
        let m = seq![(Control::Performance, "manual"@)];
        let pts = od_point_writes(p.sclk_min, p.sclk_max, p.mclk_max, p.voltage_offset);
        let c = seq![(Control::Overdrive, "c"@)];
        lemma_accepted_concat(m, pts);
        lemma_accepted_concat(m + pts, c);
    }
    let perf = opt_write(
        Control::Performance,
        match p.performance {
            Some(v) => Some(v@),
            None => None,
        },
    );
    if let Some(v) = p.performance {
        lemma_performance_write(v@);
    }
    let prof = opt_write(
        Control::WorkloadProfile,
        match p.profile {
            Some(v) => Some(decimal(v as int)),
            None => None,
        },
    );
    if let Some(v) = p.profile {
        lemma_profile_write(v as int);
    }
    let pow = opt_write(
        Control::PowerLimit,
        match p.power_watts {
            Some(v) => Some(decimal(microwatts(v as int))),
            None => None,
        },
    );
    if let Some(w) = p.power_watts {
        lemma_power_write(w as int);
    }
    let mode = opt_write(
        Control::FanMode,
        match p.fan_automatic {
            Some(a) => Some(fan_mode_value(a)),
            None => None,
        },
    );
    reveal_strlit("1");
    reveal_strlit("2");
    if let Some(a) = p.fan_automatic {
        lemma_fan_mode_write(fan_mode_value(a));
    }
    let fan = apply_fan_percent_part(p);
    if let Some(pc) = p.fan_percent {
        lemma_fan_mode_write("1"@);
        lemma_fan_speed_accepted(pc as int);
        lemma_accepted_concat(
            seq![(Control::FanMode, "1"@)],
            seq![(Control::FanPwm, decimal(pwm_from_percent_spec(pc as int)))],
        );
        assert(fan =~= seq![(Control::FanMode, "1"@)] + seq![
            (Control::FanPwm, decimal(pwm_from_percent_spec(pc as int))),
        ]);
    }
    lemma_accepted_concat(od, perf);
    lemma_accepted_concat(od + perf, prof);
    lemma_accepted_concat(od + perf + prof, pow);
    lemma_accepted_concat(od + perf + prof + pow, mode);
    lemma_accepted_concat(od + perf + prof + pow + mode, fan);
    assert(apply_plan_spec(p) =~= od + perf + prof + pow + mode + fan);
}

/// A snapshot as the helper needs it: a performance level the driver knows,
/// clocks that are not negative and a power limit from 0 to 9 999 W.
pub open spec fn snapshot_in_range(s: GpuSnapshot) -> bool {
    &&& performance_level_allowed(s.performance@)
    &&& s.sclk_min matches Some(x) ==> x >= 0
    &&& s.sclk_max matches Some(x) ==> x >= 0
    &&& s.mclk_max matches Some(x) ==> x >= 0
    &&& s.power_watts matches Some(w) ==> 0 <= w < 10000
}

/// The helper accepts every write of a rollback to a snapshot in range.
pub proof fn lemma_restore_plan_accepted(s: GpuSnapshot, has_overdrive: bool)
    requires
        snapshot_in_range(s),
    ensures
        all_accepted(restore_plan_spec(s, has_overdrive)),
{
    reveal_strlit("manual");
    reveal_strlit("c");
    reveal_strlit("r");
    reveal_strlit("1");
    reveal_strlit("2");
    let od = restore_overdrive_part(s, has_overdrive);
    if has_overdrive {
        lemma_performance_write("manual"@);
        lemma_command_write("r"@);
        lemma_od_points(s.sclk_min, s.sclk_max, s.mclk_max, s.voltage_offset);
        lemma_command_write("c"@);
        let head = seq![(Control::Performance, "manual"@), (Control::Overdrive, "r"@)];
        let pts = od_point_writes(s.sclk_min, s.sclk_max, s.mclk_max, s.voltage_offset);
        let c = seq![(Control::Overdrive, "c"@)];
        lemma_accepted_concat(head, pts);
        lemma_accepted_concat(head + pts, c);
    }
    let prof = opt_write(
        Control::WorkloadProfile,
        match s.profile {
            Some(v) => Some(decimal(v as int)),
            None => None,
        },
    );
    if let Some(v) = s.profile {
        lemma_profile_write(v as int);
    }
    let pow = opt_write(
        Control::PowerLimit,
        match s.power_watts {
            Some(v) => Some(decimal(microwatts(v as int))),
            None => None,
        },
    );
    if let Some(w) = s.power_watts {
        lemma_power_write(w as int);
    }
    let fan = restore_fan_part(s);
    if let Some(a) = s.fan_automatic {
        lemma_fan_mode_write(fan_mode_value(a));
        let mode = seq![(Control::FanMode, fan_mode_value(a))];
        if !a {
            if let Some(pc) = s.fan_percent {
                lemma_fan_speed_accepted(pc as int);
                let speed = seq![(Control::FanPwm, decimal(pwm_from_percent_spec(pc as int)))];
                lemma_accepted_concat(mode, speed);
                assert(fan =~= mode + speed);
            } else {
                assert(fan =~= mode);
            }
        } else {
            assert(fan =~= mode);
        }
    }
    let perf = seq![(Control::Performance, s.performance@)];
    lemma_performance_write(s.performance@);
    lemma_accepted_concat(od, prof);
    lemma_accepted_concat(od + prof, pow);
    lemma_accepted_concat(od + prof + pow, fan);
    lemma_accepted_concat(od + prof + pow + fan, perf);
    assert(restore_plan_spec(s, has_overdrive) =~= od + prof + pow + fan + perf);
}

/// The helper accepts every write of a reset to the driver's defaults, when
/// the default power limit takes at most ten digits of microwatts.
pub proof fn lemma_reset_plan_accepted(f: ResetFacts)
    requires
        f.power_default_microwatts matches Some(m) ==> 0 <= m < 10_000_000_000,
    ensures
        all_accepted(reset_plan_spec(f)),
{
    reveal_strlit("c");
    reveal_strlit("r");
    reveal_strlit("2");
    reveal_strlit("0");
    reveal_strlit("auto");
    let od = if f.has_overdrive {
        seq![(Control::Overdrive, "r"@), (Control::Overdrive, "c"@)]
    } else {
        seq![]
    };
    if f.has_overdrive {
        lemma_command_write("r"@);
        lemma_command_write("c"@);
    }
    let pow = opt_write(
        Control::PowerLimit,
        match f.power_default_microwatts {
            Some(v) => Some(decimal(v as int)),
            None => None,
        },
    );
    if let Some(m) = f.power_default_microwatts {
        lemma_microwatts_write(m as int);
    }
    let fan = if f.has_fan_mode {
        seq![(Control::FanMode, "2"@)]
    } else {
        seq![]
    };
    lemma_fan_mode_write("2"@);
    let prof = if f.has_workload_profile {
        seq![(Control::WorkloadProfile, "0"@)]
    } else {
        seq![]
    };
    lemma_profile_write(0);
    assert(decimal(0) =~= "0"@);
    let perf = if f.has_performance {
        seq![(Control::Performance, "auto"@)]
    } else {
        seq![]
    };
    lemma_performance_write("auto"@);
    lemma_accepted_concat(od, pow);
    lemma_accepted_concat(od + pow, fan);
    lemma_accepted_concat(od + pow + fan, prof);
    lemma_accepted_concat(od + pow + fan + prof, perf);
    assert(reset_plan_spec(f) =~= od + pow + fan + prof + perf);
}

/// The helper accepts every write of `ps`, whatever its guard and mark.
pub open spec fn all_planned_accepted(ps: Seq<(Control, Seq<char>, Guard, Mark)>) -> bool {
    forall|i: int| 0 <= i < ps.len() ==> helper_accepts(((#[trigger] ps[i]).0, ps[i].1))
}

proof fn lemma_planned_concat(
    a: Seq<(Control, Seq<char>, Guard, Mark)>,
    b: Seq<(Control, Seq<char>, Guard, Mark)>,
)
    requires
        all_planned_accepted(a),
        all_planned_accepted(b),
    ensures
        all_planned_accepted(a + b),
{
    assert forall|i: int| 0 <= i < (a + b).len() implies helper_accepts(
        ((#[trigger] (a + b)[i]).0, (a + b)[i].1),
    ) by {}
}

/// The card's ranges as the helper needs them: a power range within 0 to
/// 9 999 W and overdrive clock ranges that do not go below 0.
pub open spec fn ranges_in_range(f: RestoreFacts) -> bool {
    &&& f.power_range_watts matches Some((lo, hi)) ==> 0 <= lo && hi < 10000
    &&& f.sclk_range matches Some(r) ==> r.allowed_minimum >= 0
    &&& f.mclk_range matches Some(r) ==> r.allowed_minimum >= 0
}

/// The helper accepts every write of restoring saved settings at start,
/// when the card's ranges are ordered and in range: whatever was saved,
/// the values are clamped into what the card allows.
pub proof fn lemma_restore_settings_accepted(v: DeviceSettings, f: RestoreFacts)
    requires
        restore_ranges_ordered(v, f),
        ranges_in_range(f),
    ensures
        all_planned_accepted(restore_settings_spec(v, f)),
{
    reveal_strlit("manual");
    reveal_strlit("c");
    reveal_strlit("1");
    reveal_strlit("2");
    reveal_strlit("s 0 ");
    reveal_strlit("s 1 ");
    reveal_strlit("m 1 ");
    let profile = match v.profile {
        Some(p) => if f.profile_indices@.contains(p) {
            step(Control::WorkloadProfile, decimal(p as int), Guard::Always, Mark::Nothing)
        } else {
            seq![]
        },
        None => seq![],
    };
    if let Some(p) = v.profile {
        lemma_profile_write(p as int);
    }
    let power = match (v.power_watts, f.power_range_watts) {
        (Some(w), Some((lo, hi))) => step(
            Control::PowerLimit,
            decimal(microwatts(clamp(w as int, lo as int, hi as int))),
            Guard::Always,
            Mark::Nothing,
        ),
        _ => seq![],
    };
    if let (Some(w), Some((lo, hi))) = (v.power_watts, f.power_range_watts) {
        lemma_power_write(clamp(w as int, lo as int, hi as int));
    }
    let fan = restore_settings_fan(v);
    if let Some(a) = v.fan_automatic {
        lemma_fan_mode_write(fan_mode_value(a));
        if let Some(pc) = v.fan_percent {
            lemma_fan_speed_accepted(pc as int);
        }
    }
    lemma_performance_write("manual"@);
    let manual = step(Control::Performance, "manual"@, Guard::Always, Mark::Nothing);
    let core = match (f.sclk_range, v.sclk_min, v.sclk_max) {
        (Some(r), Some(lo), Some(hi)) => {
            let minimum = clamp(lo as int, r.allowed_minimum as int, r.allowed_maximum as int);
            let maximum = clamp(hi as int, minimum, r.allowed_maximum as int);
            manual + step(Control::Overdrive, "s 0 "@ + decimal(minimum), Guard::Always, Mark::OverdrivePoint)
                + step(Control::Overdrive, "s 1 "@ + decimal(maximum), Guard::Always, Mark::OverdrivePoint)
        },
        _ => seq![],
    };
    if let (Some(r), Some(lo), Some(hi)) = (f.sclk_range, v.sclk_min, v.sclk_max) {
        let minimum = clamp(lo as int, r.allowed_minimum as int, r.allowed_maximum as int);
        let maximum = clamp(hi as int, minimum, r.allowed_maximum as int);
        lemma_point_write("s 0 "@, minimum);
        lemma_point_write("s 1 "@, maximum);
        let a = manual;
        let b = step(Control::Overdrive, "s 0 "@ + decimal(minimum), Guard::Always, Mark::OverdrivePoint);
        let c = step(Control::Overdrive, "s 1 "@ + decimal(maximum), Guard::Always, Mark::OverdrivePoint);
        lemma_planned_concat(a, b);
        lemma_planned_concat(a + b, c);
    }
    let memory = match (v.mclk_max, f.mclk_range) {
        (Some(hi), Some(r)) => manual + step(
            Control::Overdrive,
            "m 1 "@ + decimal(clamp(hi as int, r.allowed_minimum as int, r.allowed_maximum as int)),
            Guard::Always,
            Mark::OverdrivePoint,
        ),
        _ => seq![],
    };
    if let (Some(hi), Some(r)) = (v.mclk_max, f.mclk_range) {
        let x = clamp(hi as int, r.allowed_minimum as int, r.allowed_maximum as int);
        lemma_point_write("m 1 "@, x);
        let b = step(Control::Overdrive, "m 1 "@ + decimal(x), Guard::Always, Mark::OverdrivePoint);
        lemma_planned_concat(manual, b);
    }
    let voltage = match (v.voltage_offset, f.voltage) {
        (Some(o), Some((_, lo, hi))) => manual + step(
            Control::Overdrive,
            "vo "@ + decimal(clamp(o as int, lo as int, hi as int)),
            Guard::Always,
            Mark::OverdrivePoint,
        ),
        _ => seq![],
    };
    if let (Some(o), Some((_, lo, hi))) = (v.voltage_offset, f.voltage) {
        let x = clamp(o as int, lo as int, hi as int);
        lemma_offset_write(x);
        let b = step(Control::Overdrive, "vo "@ + decimal(x), Guard::Always, Mark::OverdrivePoint);
        lemma_planned_concat(manual, b);
    }
    lemma_command_write("c"@);
    let commit = step(Control::Overdrive, "c"@, Guard::AfterOverdrive, Mark::Nothing);
    lemma_planned_concat(core, memory);
    lemma_planned_concat(core + memory, voltage);
    lemma_planned_concat(core + memory + voltage, commit);
    assert(restore_settings_overdrive(v, f) =~= core + memory + voltage + commit);
    let performance = match v.performance {
        Some(p) => if restorable_performance(p@) {
            step(Control::Performance, p@, Guard::Always, Mark::Nothing)
        } else {
            seq![]
        },
        None => seq![],
    };
    if let Some(p) = v.performance {
        if restorable_performance(p@) {
            lemma_performance_write(p@);
        }
    }
    let od = restore_settings_overdrive(v, f);
    lemma_planned_concat(profile, power);
    lemma_planned_concat(profile + power, fan);
    lemma_planned_concat(profile + power + fan, od);
    lemma_planned_concat(profile + power + fan + od, performance);
}

} // verus!
