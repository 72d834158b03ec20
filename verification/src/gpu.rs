//! The AMD GPU model: what the driver's sysfs files say about clocks,
//! workload profiles and overdrive ranges, which capabilities a card offers,
//! and which card the application prefers.

use vstd::prelude::*;
use vstd::slice::slice_subrange;
use crate::paths::{join, join_path, last_component, file_name};
use crate::pattern::{
    captures_all, captures_first, escape, regex_captures_all, regex_captures_first,
    regex_compiles, regex_escape, Pattern,
};
use crate::text::{
    all_ascii, ascii_lower, ascii_upper, parse_u32, parse_u32_spec, all_digits, char_is_alpha, char_is_digit, chars_all_digits, chars_eq_str, chars_of,
    find_char, find_char_from, is_alpha, lines, parse_i32, parse_i32_spec, split_lines,
    str_to_lowercase, str_to_uppercase, to_uppercase, trim, trim_chars,
};

verus! {

/// One line of `pp_dpm_sclk` / `pp_dpm_mclk`: a DPM level, its clock and
/// whether it is the active one.
#[derive(Clone, Copy, Debug, PartialEq, Eq, Structural)]
pub struct ClockState {
    pub index: i32,
    pub mhz: i32,
    pub active: bool,
}

/// One firmware workload profile listed in `pp_power_profile_mode`.
#[derive(Clone, Debug, PartialEq)]
pub struct PowerProfile {
    pub index: u32,
    pub name: String,
    pub active: bool,
}

/// The clock of a domain that telemetry shows: the sensor's reading when
/// there is one, else the clock of the first active DPM level.
pub open spec fn current_clock_spec(sensor: Option<i32>, states: Seq<ClockState>) -> Option<i32> {
    match sensor {
        Some(v) => Some(v),
        None => if exists|k: int| 0 <= k < states.len() && states[k].active {
            let k = choose|k: int|
                0 <= k < states.len() && states[k].active && forall|j: int|
                    0 <= j < k ==> !states[j].active;
            Some(states[k].mhz)
        } else {
            None
        },
    }
}

/// The clock of a domain that telemetry shows, from the sensor's reading
/// in MHz (when the card has the sensor) and the domain's DPM levels.
pub fn current_clock(sensor: Option<i32>, states: &Vec<ClockState>) -> (r: Option<i32>)
    ensures
        r == current_clock_spec(sensor, states@),
{
    if let Some(v) = sensor {
        return Some(v);
    }
    let mut i: usize = 0;
    while i < states.len()
        invariant
            i <= states.len(),
            sensor is None,
            forall|j: int| 0 <= j < i ==> !(#[trigger] states@[j]).active,
        decreases states.len() - i,
    {
        if states[i].active {
            let ghost w = choose|k: int|
                0 <= k < states@.len() && states@[k].active && forall|j: int|
                    0 <= j < k ==> !states@[j].active;
            assert(states@[i as int].active);
            assert(w == i) by {
                if w < i {
                    assert(!states@[w].active);
                } else if w > i {
                    assert(!states@[i as int].active);
                }
            }
            return Some(states[i].mhz);
        }
        i = i + 1;
    }
    None
}

/// The file holding the DPM table of `kind`: `pp_dpm_sclk` or
/// `pp_dpm_mclk`; none for any other kind.
pub fn clock_table_file(kind: &str) -> (r: Option<String>)
    ensures
        match r {
            Some(f) => (kind@ == "sclk"@ || kind@ == "mclk"@) && f@ == "pp_dpm_"@ + kind@,
            None => !(kind@ == "sclk"@ || kind@ == "mclk"@),
        },
{
    let k = chars_of(kind);
    if chars_eq_str(k.as_slice(), "sclk") || chars_eq_str(k.as_slice(), "mclk") {
        let mut f = String::from_str("pp_dpm_");
        f.append(kind);
        Some(f)
    } else {
        None
    }
}

/// The position of the first active profile, if one is active.
pub open spec fn active_position(ps: Seq<PowerProfile>) -> Option<int>
    decreases ps.len(),
{
    if ps.len() == 0 {
        None
    } else if ps[0].active {
        Some(0)
    } else {
        match active_position(ps.drop_first()) {
            Some(k) => Some(k + 1),
            None => None,
        }
    }
}

proof fn lemma_active_position_at(ps: Seq<PowerProfile>, k: int)
    requires
        0 <= k <= ps.len(),
        forall|j: int| 0 <= j < k ==> !(#[trigger] ps[j]).active,
        k == ps.len() || ps[k].active,
    ensures
        active_position(ps) == if k < ps.len() {
            Some(k)
        } else {
            None::<int>
        },
    decreases k,
{
    if k > 0 {
        assert forall|j: int| 0 <= j < k - 1 implies !(#[trigger] ps.drop_first()[j]).active by {}
        lemma_active_position_at(ps.drop_first(), k - 1);
    }
}

/// The position of the first active profile, if one is active.
pub fn find_active(ps: &Vec<PowerProfile>) -> (r: Option<usize>)
    ensures
        match r {
            Some(k) => active_position(ps@) == Some(k as int) && k < ps@.len(),
            None => active_position(ps@) is None,
        },
{
    let mut i: usize = 0;
    while i < ps.len()
        invariant
            i <= ps.len(),
            forall|j: int| 0 <= j < i ==> !(#[trigger] ps@[j]).active,
        decreases ps.len() - i,
    {
        if ps[i].active {
            proof {
                lemma_active_position_at(ps@, i as int);
            }
            return Some(i);
        }
        i = i + 1;
    }
    proof {
        lemma_active_position_at(ps@, i as int);
    }
    None
}

/// The current and the allowed overdrive range of a clock domain, in MHz.
#[derive(Clone, Copy, Debug, PartialEq, Eq, Structural)]
pub struct ClockRange {
    pub current_minimum: i32,
    pub current_maximum: i32,
    pub allowed_minimum: i32,
    pub allowed_maximum: i32,
}

/// The controls that a card and its driver offer.
#[derive(Clone, Copy, Debug, Default, PartialEq, Eq, Structural)]
pub struct Capabilities {
    pub performance: bool,
    pub workload_profiles: bool,
    pub core_clock: bool,
    pub memory_clock: bool,
    pub voltage: bool,
    pub power_limit: bool,
    pub fan: bool,
}

pub open spec fn bit(b: bool) -> nat {
    if b {
        1
    } else {
        0
    }
}

impl Capabilities {
    /// How many of the controls are offered.
    pub open spec fn score_spec(&self) -> nat {
        bit(self.performance) + bit(self.workload_profiles) + bit(self.core_clock) + bit(
            self.memory_clock,
        ) + bit(self.voltage) + bit(self.power_limit) + bit(self.fan)
    }

    /// How many of the controls are offered.
    pub fn score(&self) -> (r: usize)
        ensures
            r == self.score_spec(),
    {
        let mut n: usize = 0;
        if self.performance {
            n = n + 1;
        }
        if self.workload_profiles {
            n = n + 1;
        }
        if self.core_clock {
            n = n + 1;
        }
        if self.memory_clock {
            n = n + 1;
        }
        if self.voltage {
            n = n + 1;
        }
        if self.power_limit {
            n = n + 1;
        }
        if self.fan {
            n = n + 1;
        }
        n
    }
}

/// An AMD card under `/sys/class/drm`, known by its card directory.
#[derive(Clone, Debug)]
pub struct AmdGpu {
    card_path: String,
    device_path: String,
}

/// One `hwmon*` directory below a card's device: its directory name and
/// what its `name` file holds, trimmed.
pub struct HwmonCandidate {
    pub dir_name: String,
    pub name_text: String,
}

/// Lexicographic order of character sequences (code point by code point,
/// a proper prefix first), which is how `PathBuf` orders sibling entries.
pub open spec fn seq_less(a: Seq<char>, b: Seq<char>) -> bool
    decreases a.len(),
{
    if a.len() == 0 {
        b.len() > 0
    } else if b.len() == 0 {
        false
    } else if a[0] != b[0] {
        a[0] < b[0]
    } else {
        seq_less(a.drop_first(), b.drop_first())
    }
}

/// `candidates.sort()` followed by `find`: entry `i` comes before entry `j`.
pub open spec fn sorted_before(a: Seq<char>, i: int, b: Seq<char>, j: int) -> bool {
    seq_less(a, b) || (a == b && i < j)
}

pub open spec fn is_amdgpu_hwmon(e: HwmonCandidate) -> bool {
    e.name_text@ == "amdgpu"@
}

/// Removes trailing `*` characters (`trim_end_matches('*')`).
pub open spec fn trim_end_stars(s: Seq<char>) -> Seq<char>
    decreases s.len(),
{
    if s.len() > 0 && s.last() == '*' {
        trim_end_stars(s.drop_last())
    } else {
        s
    }
}

/// Removes trailing ASCII letters (the `Mhz` unit).
pub open spec fn trim_end_alpha(s: Seq<char>) -> Seq<char>
    decreases s.len(),
{
    if s.len() > 0 && is_alpha(s.last()) {
        trim_end_alpha(s.drop_last())
    } else {
        s
    }
}

/// The DPM level that one line of a `pp_dpm_*` table describes, if it is
/// one: `<index>: <clock>Mhz`, `S:` for the sleep level, `*` marking the
/// active level.
pub open spec fn clock_state_of_line(raw: Seq<char>) -> Option<ClockState> {
    let line = trim(raw);
    let active = line.len() > 0 && line.last() == '*';
    let i = find_char(line, ':');
    if i >= line.len() {
        None
    } else {
        let index_part = line.take(i);
        let rest = line.skip(i + 1);
        let index = if index_part == seq!['S'] {
            Some(-1i32)
        } else {
            parse_i32_spec(index_part)
        };
        let mhz = parse_i32_spec(trim(trim_end_alpha(trim(trim_end_stars(trim(rest))))));
        match (index, mhz) {
            (Some(index), Some(mhz)) => Some(ClockState { index, mhz, active }),
            _ => None,
        }
    }
}

/// The DPM levels of the lines that describe one, in order.
pub open spec fn clock_states_of_lines(ls: Seq<Seq<char>>) -> Seq<ClockState>
    decreases ls.len(),
{
    if ls.len() == 0 {
        seq![]
    } else {
        clock_states_of_lines(ls.drop_last()) + match clock_state_of_line(ls.last()) {
            Some(c) => seq![c],
            None => seq![],
        }
    }
}

/// The DPM table of a clock domain (`sclk` or `mclk`) from its file's text.
pub open spec fn clock_states_spec(kind: Seq<char>, table: Seq<char>) -> Seq<ClockState> {
    if kind == "sclk"@ || kind == "mclk"@ {
        clock_states_of_lines(lines(table))
    } else {
        seq![]
    }
}

/// Removes every leading `0x` (`trim_start_matches("0x")`).
pub open spec fn strip_hex_prefixes(s: Seq<char>) -> Seq<char>
    decreases s.len(),
{
    if s.len() >= 2 && s[0] == '0' && s[1] == 'x' {
        strip_hex_prefixes(s.skip(2))
    } else {
        s
    }
}

/// The marketing name if the driver reports one, else the PCI device id.
pub open spec fn gpu_name(product: Seq<char>, device: Seq<char>) -> Seq<char> {
    if product.len() > 0 {
        product
    } else {
        let id = str_to_uppercase(strip_hex_prefixes(device));
        if id.len() == 0 {
            "AMD Radeon"@
        } else {
            "AMD Radeon ("@ + id + ")"@
        }
    }
}

/// `gpu_name` for a device id of ASCII characters, where the Unicode upper
/// case is the ASCII one.
pub open spec fn gpu_name_ascii(product: Seq<char>, device: Seq<char>) -> Seq<char> {
    if product.len() > 0 {
        product
    } else {
        let id = strip_hex_prefixes(device).map_values(|c: char| ascii_upper(c));
        if id.len() == 0 {
            "AMD Radeon"@
        } else {
            "AMD Radeon ("@ + id + ")"@
        }
    }
}

fn trim_end_stars_exec(s: &[char]) -> (r: &[char])
    ensures
        r@ == trim_end_stars(s@),
{
    let mut hi = s.len();
    assert(s@.take(s.len() as int) =~= s@);
    while hi > 0 && s[hi - 1] == '*'
        invariant
            hi <= s.len(),
            trim_end_stars(s@) == trim_end_stars(s@.take(hi as int)),
        decreases hi,
    {
        assert(s@.take(hi as int).drop_last() =~= s@.take(hi - 1));
        hi = hi - 1;
    }
    assert(s@.take(s.len() as int) =~= s@);
    slice_subrange(s, 0, hi)
}

fn trim_end_alpha_exec(s: &[char]) -> (r: &[char])
    ensures
        r@ == trim_end_alpha(s@),
{
    let mut hi = s.len();
    assert(s@.take(s.len() as int) =~= s@);
    while hi > 0 && char_is_alpha(s[hi - 1])
        invariant
            hi <= s.len(),
            trim_end_alpha(s@) == trim_end_alpha(s@.take(hi as int)),
        decreases hi,
    {
        assert(s@.take(hi as int).drop_last() =~= s@.take(hi - 1));
        hi = hi - 1;
    }
    assert(s@.take(s.len() as int) =~= s@);
    slice_subrange(s, 0, hi)
}

fn clock_state_of_chars(raw: &[char]) -> (r: Option<ClockState>)
    ensures
        r == clock_state_of_line(raw@),
{
    let line = trim_chars(raw);
    let active = line.len() > 0 && line[line.len() - 1] == '*';
    let i = find_char_from(line, ':', 0);
    assert(line@.skip(0) =~= line@);
    if i >= line.len() {
        return None;
    }
    let index_part = slice_subrange(line, 0, i);
    let rest = slice_subrange(line, i + 1, line.len());
    assert(index_part@ =~= line@.take(i as int));
    assert(rest@ =~= line@.skip(i + 1));
    let is_sleep = index_part.len() == 1 && index_part[0] == 'S';
    assert(is_sleep == (index_part@ == seq!['S'])) by {
        if index_part@.len() == 1 {
            if index_part@[0] == 'S' {
                assert(index_part@ =~= seq!['S']);
            }
        }
    }
    let index = if is_sleep {
        Some(-1i32)
    } else {
        parse_i32(index_part)
    };
    let mhz_text = trim_chars(trim_end_alpha_exec(trim_chars(trim_end_stars_exec(trim_chars(rest)))));
    let mhz = parse_i32(mhz_text);
    match (index, mhz) {
        (Some(index), Some(mhz)) => Some(ClockState { index, mhz, active }),
        _ => None,
    }
}

/// First position at which `pat` occurs in `s`.
pub open spec fn find_seq(s: Seq<char>, pat: Seq<char>) -> Option<int>
    decreases s.len(),
{
    if s.len() < pat.len() {
        None
    } else if s.take(pat.len() as int) == pat {
        Some(0)
    } else if s.len() == 0 {
        None
    } else {
        match find_seq(s.drop_first(), pat) {
            Some(i) => Some(i + 1),
            None => None,
        }
    }
}

/// The text of the `OD_SCLK:` (or `OD_MCLK:`) section of
/// `pp_od_clk_voltage`: from after the header up to the next line that
/// starts with `OD_`, or to the end.
pub open spec fn od_section(output: Seq<char>, sclk: bool) -> Option<Seq<char>> {
    let header = if sclk {
        "OD_SCLK:"@
    } else {
        "OD_MCLK:"@
    };
    match find_seq(output, header) {
        None => None,
        Some(p) => {
            let tail = output.skip(p + header.len());
            let end = match find_seq(tail, "\nOD_"@) {
                Some(e) => e,
                None => tail.len() as int,
            };
            Some(tail.take(end))
        },
    }
}

/// Group `i` of one match, if it exists and participated.
pub open spec fn group(caps: Seq<Option<Seq<char>>>, i: int) -> Option<Seq<char>> {
    if 0 <= i < caps.len() {
        caps[i]
    } else {
        None
    }
}

/// Group `i` of one match read as an `i32`.
pub open spec fn group_i32(caps: Seq<Option<Seq<char>>>, i: int) -> Option<i32> {
    match group(caps, i) {
        Some(t) => parse_i32_spec(t),
        None => None,
    }
}

/// The `(level, MHz)` points of an overdrive section, or `None` as soon as
/// one of them does not read as numbers.
pub open spec fn parse_points(ms: Seq<Seq<Option<Seq<char>>>>) -> Option<Seq<(u32, i32)>>
    decreases ms.len(),
{
    if ms.len() == 0 {
        Some(seq![])
    } else {
        match parse_points(ms.drop_last()) {
            None => None,
            Some(ps) => match (group(ms.last(), 1), group_i32(ms.last(), 2)) {
                (Some(k), Some(v)) => match parse_u32_spec(k) {
                    Some(k) => Some(ps.push((k, v))),
                    None => None,
                },
                _ => None,
            },
        }
    }
}

/// The clock of level `key`, the last point listed for it winning.
pub open spec fn point_value(ps: Seq<(u32, i32)>, key: u32) -> Option<i32>
    decreases ps.len(),
{
    if ps.len() == 0 {
        None
    } else if ps.last().0 == key {
        Some(ps.last().1)
    } else {
        point_value(ps.drop_last(), key)
    }
}

/// The clock range from the matches of the section's points and of the
/// domain's allowed-range line. The core clock needs both levels 0 and 1;
/// the memory clock falls back to the allowed minimum when level 0 is
/// missing.
pub open spec fn clock_range_spec(
    sclk: bool,
    points: Seq<Seq<Option<Seq<char>>>>,
    allowed: Option<Seq<Option<Seq<char>>>>,
) -> Option<ClockRange> {
    match (parse_points(points), allowed) {
        (Some(ps), Some(a)) => match (group_i32(a, 1), group_i32(a, 2), point_value(ps, 1)) {
            (Some(lo), Some(hi), Some(cmax)) => {
                let cmin = if sclk {
                    point_value(ps, 0)
                } else {
                    Some(
                        match point_value(ps, 0) {
                            Some(v) => v,
                            None => lo,
                        },
                    )
                };
                match cmin {
                    Some(cmin) => Some(
                        ClockRange {
                            current_minimum: cmin,
                            current_maximum: cmax,
                            allowed_minimum: lo,
                            allowed_maximum: hi,
                        },
                    ),
                    None => None,
                }
            },
            _ => None,
        },
        _ => None,
    }
}

/// An overdrive point: `<level>: <clock>Mhz` at the start of a line.
pub const OD_POINT_PATTERN: &'static str = "(?im)^\\s*(\\d+):\\s*(\\d+)\\s*Mhz";

/// The current voltage offset line below `OD_VDDGFX_OFFSET:`.
pub const VOLTAGE_CURRENT_PATTERN: &'static str =
    "(?im)OD_VDDGFX_OFFSET:\\s*\\n\\s*(-?\\d+)\\s*mV";

/// The allowed voltage offset range line.
pub const VOLTAGE_RANGE_PATTERN: &'static str =
    "(?im)VDDGFX_OFFSET:\\s*(-?\\d+)\\s*mV\\s+(-?\\d+)\\s*mV";

/// A workload profile line: index, upper-case name, optional `*`, `:`.
pub const PROFILE_PATTERN: &'static str = "(?im)^\\s*(\\d+)\\s+([A-Z0-9_]+)\\s*(\\*)?\\s*:";

/// The allowed-range line of a clock domain, its label escaped.
pub open spec fn range_pattern(sclk: bool) -> Seq<char> {
    "(?im)^\\s*"@ + regex_escape(
        if sclk {
            "SCLK:"@
        } else {
            "MCLK:"@
        },
    ) + "\\s*(\\d+)\\s*Mhz\\s+(\\d+)\\s*Mhz"@
}

/// The overdrive range of `kind` (`sclk` or `mclk`) in the text of
/// `pp_od_clk_voltage`.
pub open spec fn overdrive_clock_range_spec(kind: Seq<char>, output: Seq<char>) -> Option<
    ClockRange,
> {
    if kind == "sclk"@ || kind == "mclk"@ {
        let sclk = kind == "sclk"@;
        match od_section(output, sclk) {
            Some(section) => if regex_compiles(OD_POINT_PATTERN@) && regex_compiles(
                range_pattern(sclk),
            ) {
                clock_range_spec(
                    sclk,
                    regex_captures_all(OD_POINT_PATTERN@, section),
                    regex_captures_first(range_pattern(sclk), output),
                )
            } else {
                None
            },
            None => None,
        }
    } else {
        None
    }
}

/// The current offset and the allowed range of the GPU voltage, in mV.
pub open spec fn voltage_offset_spec(output: Seq<char>) -> Option<(i32, i32, i32)> {
    if regex_compiles(VOLTAGE_CURRENT_PATTERN@) && regex_compiles(VOLTAGE_RANGE_PATTERN@) {
        match (
            regex_captures_first(VOLTAGE_CURRENT_PATTERN@, output),
            regex_captures_first(VOLTAGE_RANGE_PATTERN@, output),
        ) {
            (Some(c), Some(r)) => match (group_i32(c, 1), group_i32(r, 1), group_i32(r, 2)) {
                (Some(cur), Some(lo), Some(hi)) => Some((cur, lo, hi)),
                _ => None,
            },
            _ => None,
        }
    } else {
        None
    }
}

/// The profile that one match describes, if its index reads as a number.
pub open spec fn profile_of_match(caps: Seq<Option<Seq<char>>>) -> Option<(u32, Seq<char>, bool)> {
    match (group(caps, 1), group(caps, 2)) {
        (Some(i), Some(name)) => match parse_u32_spec(i) {
            Some(i) => Some((i, name, group(caps, 3) is Some)),
            None => None,
        },
        _ => None,
    }
}

pub open spec fn profiles_of_matches(ms: Seq<Seq<Option<Seq<char>>>>) -> Seq<(u32, Seq<char>, bool)>
    decreases ms.len(),
{
    if ms.len() == 0 {
        seq![]
    } else {
        profiles_of_matches(ms.drop_last()) + match profile_of_match(ms.last()) {
            Some(p) => seq![p],
            None => seq![],
        }
    }
}

/// A match of the profile pattern whose index and name groups are present
/// and whose index reads as a number.
pub open spec fn readable_profile_line(caps: Seq<Option<Seq<char>>>) -> bool {
    &&& group(caps, 1) is Some
    &&& group(caps, 2) is Some
    &&& parse_u32_spec(group(caps, 1)->Some_0) is Some
}

proof fn lemma_profiles_from_lines(ms: Seq<Seq<Option<Seq<char>>>>) -> (m: Seq<int>)
    ensures
        m.len() == profiles_of_matches(ms).len(),
        forall|a: int, b: int| 0 <= a < b < m.len() ==> m[a] < m[b],
        forall|k: int|
            #![trigger m[k]]
            0 <= k < m.len() ==> {
                let caps = ms[m[k]];
                let p = profiles_of_matches(ms)[k];
                &&& 0 <= m[k] < ms.len()
                &&& readable_profile_line(caps)
                &&& parse_u32_spec(group(caps, 1)->Some_0) == Some(p.0)
                &&& group(caps, 2) == Some(p.1)
                &&& (p.2 <==> group(caps, 3) is Some)
            },
        forall|j: int| 0 <= j < ms.len() && readable_profile_line(#[trigger] ms[j]) ==> m.contains(j),
    decreases ms.len(),
{
    if ms.len() == 0 {
        seq![]
    } else {
        let d = ms.drop_last();
        let m0 = lemma_profiles_from_lines(d);
        let n = ms.len() - 1;
        let ps0 = profiles_of_matches(d);
        assert forall|j: int| 0 <= j < d.len() implies #[trigger] d[j] == ms[j] by {}
        let m = match profile_of_match(ms.last()) {
            Some(p) => m0.push(n),
            None => m0,
        };
        let ps = profiles_of_matches(ms);
        assert forall|k: int| 0 <= k < m0.len() implies #[trigger] ps[k] == ps0[k] by {}
        assert forall|k: int| 0 <= k < m0.len() implies #[trigger] m[k] == m0[k] by {}
        assert forall|j: int| 0 <= j < ms.len() && readable_profile_line(#[trigger] ms[j])
            implies m.contains(j) by {
            if j < n {
                assert(d[j] == ms[j]);
                let k = choose|k: int| 0 <= k < m0.len() && m0[k] == j;
                assert(m[k] == j);
            } else {
                assert(ms[j] == ms.last());
                assert(m[m.len() - 1] == n);
            }
        }
        m
    }
}

/// Each profile read from the table comes from its own matched line, in the
/// order of the lines: its index is the number in the line's first group,
/// its name the second group, and it is active exactly when the line's
/// optional star (the third group) took part in the match. Every matched
/// line with an index and a name gives a profile.
pub proof fn lemma_profiles_follow_lines(ms: Seq<Seq<Option<Seq<char>>>>)
    ensures
        exists|m: Seq<int>|
            #![trigger m.len()]
            {
                &&& m.len() == profiles_of_matches(ms).len()
                &&& forall|a: int, b: int| 0 <= a < b < m.len() ==> m[a] < m[b]
                &&& forall|k: int|
                    #![trigger m[k]]
                    0 <= k < m.len() ==> {
                        let caps = ms[m[k]];
                        let p = profiles_of_matches(ms)[k];
                        &&& 0 <= m[k] < ms.len()
                        &&& readable_profile_line(caps)
                        &&& parse_u32_spec(group(caps, 1)->Some_0) == Some(p.0)
                        &&& group(caps, 2) == Some(p.1)
                        &&& (p.2 <==> group(caps, 3) is Some)
                    }
                &&& forall|j: int|
                    0 <= j < ms.len() && readable_profile_line(#[trigger] ms[j]) ==> m.contains(j)
            },
{
    let m = lemma_profiles_from_lines(ms);
    assert(m.len() == profiles_of_matches(ms).len());
}

/// The workload profiles listed in the text of `pp_power_profile_mode`.
pub open spec fn power_profiles_spec(text: Seq<char>) -> Seq<(u32, Seq<char>, bool)> {
    if regex_compiles(PROFILE_PATTERN@) {
        profiles_of_matches(regex_captures_all(PROFILE_PATTERN@, text))
    } else {
        seq![]
    }
}

pub open spec fn profile_view(p: PowerProfile) -> (u32, Seq<char>, bool) {
    (p.index, p.name@, p.active)
}

proof fn lemma_find_seq_step(s: Seq<char>, pat: Seq<char>, i: int)
    requires
        0 <= i < s.len(),
        s.len() - i >= pat.len(),
        s.skip(i).take(pat.len() as int) != pat,
    ensures
        find_seq(s.skip(i), pat) == match find_seq(s.skip(i + 1), pat) {
            Some(j) => Some(j + 1),
            None => None::<int>,
        },
{
    assert(s.skip(i).drop_first() =~= s.skip(i + 1));
}

/// First position at which `pat` occurs in `s`.
pub fn find_chars(s: &[char], pat: &[char]) -> (r: Option<usize>)
    ensures
        match r {
            Some(i) => find_seq(s@, pat@) == Some(i as int),
            None => find_seq(s@, pat@) is None,
        },
{
    let n = s.len();
    let m = pat.len();
    let mut i: usize = 0;
    assert(s@.skip(0) =~= s@);
    while i < n && n - i >= m
        invariant
            i <= n,
            m == pat@.len(),
            n == s@.len(),
            find_seq(s@, pat@) == match find_seq(s@.skip(i as int), pat@) {
                Some(j) => Some(j + i),
                None => None::<int>,
            },
        decreases n - i,
    {
        let window = slice_subrange(s, i, i + m);
        assert(window@ =~= s@.skip(i as int).take(m as int));
        if crate::text::chars_eq(window, pat) {
            return Some(i);
        }
        proof {
            lemma_find_seq_step(s@, pat@, i as int);
        }
        i = i + 1;
    }
    proof {
        if n - i >= m && pat@.len() == 0 {
            assert(s@.skip(i as int).take(0) =~= pat@);
        }
    }
    if m == 0 && i <= n {
        assert(s@.skip(i as int).take(0) =~= pat@);
        return Some(i);
    }
    None
}

/// Group `i` of one match, as characters.
fn group_chars(caps: &Vec<Option<String>>, i: usize) -> (r: Option<Vec<char>>)
    ensures
        match r {
            Some(v) => group(caps.deep_view(), i as int) == Some(v@),
            None => group(caps.deep_view(), i as int) is None,
        },
{
    if i < caps.len() {
        match &caps[i] {
            Some(t) => Some(chars_of(t.as_str())),
            None => None,
        }
    } else {
        None
    }
}

fn group_i32_exec(caps: &Vec<Option<String>>, i: usize) -> (r: Option<i32>)
    ensures
        r == group_i32(caps.deep_view(), i as int),
{
    match group_chars(caps, i) {
        Some(v) => parse_i32(v.as_slice()),
        None => None,
    }
}

fn parse_points_exec(ms: &Vec<Vec<Option<String>>>) -> (r: Option<Vec<(u32, i32)>>)
    ensures
        match r {
            Some(v) => parse_points(ms.deep_view()) == Some(v@),
            None => parse_points(ms.deep_view()) is None,
        },
{
    let ghost dv = ms.deep_view();
    let mut out: Vec<(u32, i32)> = Vec::new();
    let mut i: usize = 0;
    assert(dv.take(0) =~= Seq::<Seq<Option<Seq<char>>>>::empty());
    while i < ms.len()
        invariant
            i <= ms.len(),
            dv == ms.deep_view(),
            parse_points(dv.take(i as int)) == Some(out@),
        decreases ms.len() - i,
    {
        assert(dv.take(i + 1).drop_last() =~= dv.take(i as int));
        let key = match group_chars(&ms[i], 1) {
            Some(k) => parse_u32(k.as_slice()),
            None => None,
        };
        let value = group_i32_exec(&ms[i], 2);
        match (key, value) {
            (Some(k), Some(v)) => {
                out.push((k, v));
            },
            _ => {
                proof {
                    lemma_parse_points_none_extends(dv, i + 1);
                }
                return None;
            },
        }
        i = i + 1;
    }
    assert(dv.take(ms.len() as int) =~= dv);
    Some(out)
}

proof fn lemma_parse_points_none_extends(ms: Seq<Seq<Option<Seq<char>>>>, i: int)
    requires
        0 <= i <= ms.len(),
        parse_points(ms.take(i)) is None,
    ensures
        parse_points(ms) is None,
    decreases ms.len() - i,
{
    if i < ms.len() {
        assert(ms.take(i + 1).drop_last() =~= ms.take(i));
        lemma_parse_points_none_extends(ms, i + 1);
    } else {
        assert(ms.take(i) =~= ms);
    }
}

fn point_value_exec(ps: &Vec<(u32, i32)>, key: u32) -> (r: Option<i32>)
    ensures
        r == point_value(ps@, key),
{
    let mut i = ps.len();
    assert(ps@.take(ps.len() as int) =~= ps@);
    while i > 0
        invariant
            i <= ps.len(),
            point_value(ps@, key) == point_value(ps@.take(i as int), key),
        decreases i,
    {
        assert(ps@.take(i as int).drop_last() =~= ps@.take(i - 1));
        if ps[i - 1].0 == key {
            return Some(ps[i - 1].1);
        }
        i = i - 1;
    }
    None
}

/// The overdrive clock range from the matches of the points pattern in the
/// domain's section (`points`) and of the allowed-range pattern in the
/// whole file (`allowed`).
pub fn clock_range_from_captures(
    sclk: bool,
    points: &Vec<Vec<Option<String>>>,
    allowed: Option<&Vec<Option<String>>>,
) -> (r: Option<ClockRange>)
    ensures
        r == clock_range_spec(sclk, points.deep_view(), allowed.deep_view()),
{
    let ps = match parse_points_exec(points) {
        Some(ps) => ps,
        None => return None,
    };
    let a = match allowed {
        Some(a) => a,
        None => return None,
    };
    let lo = group_i32_exec(a, 1);
    let hi = group_i32_exec(a, 2);
    let cmax = point_value_exec(&ps, 1);
    match (lo, hi, cmax) {
        (Some(lo), Some(hi), Some(cmax)) => {
            let cmin = if sclk {
                point_value_exec(&ps, 0)
            } else {
                Some(
                    match point_value_exec(&ps, 0) {
                        Some(v) => v,
                        None => lo,
                    },
                )
            };
            match cmin {
                Some(cmin) => Some(
                    ClockRange {
                        current_minimum: cmin,
                        current_maximum: cmax,
                        allowed_minimum: lo,
                        allowed_maximum: hi,
                    },
                ),
                None => None,
            }
        },
        _ => None,
    }
}

/// The voltage offset from the first match of the current-offset pattern
/// and of the range pattern.
pub fn voltage_from_captures(
    current: Option<&Vec<Option<String>>>,
    range: Option<&Vec<Option<String>>>,
) -> (r: Option<(i32, i32, i32)>)
    ensures
        r == match (current.deep_view(), range.deep_view()) {
            (Some(c), Some(rg)) => match (group_i32(c, 1), group_i32(rg, 1), group_i32(rg, 2)) {
                (Some(cur), Some(lo), Some(hi)) => Some((cur, lo, hi)),
                _ => None,
            },
            _ => None,
        },
{
    match (current, range) {
        (Some(c), Some(rg)) => match (group_i32_exec(c, 1), group_i32_exec(rg, 1), group_i32_exec(rg, 2)) {
            (Some(cur), Some(lo), Some(hi)) => Some((cur, lo, hi)),
            _ => None,
        },
        _ => None,
    }
}

/// The workload profiles from the matches of the profile pattern.
pub fn profiles_from_captures(ms: &Vec<Vec<Option<String>>>) -> (r: Vec<PowerProfile>)
    ensures
        r@.map_values(|p: PowerProfile| profile_view(p)) == profiles_of_matches(ms.deep_view()),
{
    let ghost dv = ms.deep_view();
    let mut out: Vec<PowerProfile> = Vec::new();
    let mut i: usize = 0;
    assert(dv.take(0) =~= Seq::<Seq<Option<Seq<char>>>>::empty());
    assert(out@.map_values(|p: PowerProfile| profile_view(p)) =~= profiles_of_matches(dv.take(0)));
    while i < ms.len()
        invariant
            i <= ms.len(),
            dv == ms.deep_view(),
            out@.map_values(|p: PowerProfile| profile_view(p)) == profiles_of_matches(dv.take(i as int)),
        decreases ms.len() - i,
    {
        assert(dv.take(i + 1).drop_last() =~= dv.take(i as int));
        let index = match group_chars(&ms[i], 1) {
            Some(k) => parse_u32(k.as_slice()),
            None => None,
        };
        let name = group_chars(&ms[i], 2);
        let starred = group_chars(&ms[i], 3);
        let ghost before = out@;
        match (index, name) {
            (Some(index), Some(name)) => {
                let p = PowerProfile {
                    index,
                    name: crate::text::string_from_chars(name.as_slice()),
                    active: starred.is_some(),
                };
                out.push(p);
                assert(out@.map_values(|p: PowerProfile| profile_view(p)) =~= before.map_values(
                    |p: PowerProfile| profile_view(p),
                ).push(profile_view(p)));
            },
            _ => {},
        }
        i = i + 1;
    }
    assert(dv.take(ms.len() as int) =~= dv);
    out
}

/// The text of `section_header` up to the next `OD_` line.
fn od_section_exec(output: &[char], sclk: bool) -> (r: Option<Vec<char>>)
    ensures
        match r {
            Some(v) => od_section(output@, sclk) == Some(v@),
            None => od_section(output@, sclk) is None,
        },
{
    let header = if sclk {
        chars_of("OD_SCLK:")
    } else {
        chars_of("OD_MCLK:")
    };
    let start = match find_chars(output, header.as_slice()) {
        Some(p) => p,
        None => return None,
    };
    proof {
        lemma_find_seq_bound(output@, header@);
    }
    let hlen = header.len();
    let olen = output.len();
    assert(start + hlen <= olen);
    let from = start + hlen;
    let tail = slice_subrange(output, from, output.len());
    assert(tail@ =~= output@.skip(start + header@.len()));
    let marker = chars_of("\nOD_");
    let end = match find_chars(tail, marker.as_slice()) {
        Some(e) => {
            proof {
                lemma_find_seq_bound(tail@, marker@);
            }
            e
        },
        None => tail.len(),
    };
    let section = slice_subrange(tail, 0, end);
    assert(section@ =~= tail@.take(end as int));
    Some(vstd::slice::slice_to_vec(section))
}

proof fn lemma_find_seq_bound(s: Seq<char>, pat: Seq<char>)
    ensures
        find_seq(s, pat) matches Some(i) ==> 0 <= i && i + pat.len() <= s.len(),
    decreases s.len(),
{
    if s.len() >= pat.len() && s.take(pat.len() as int) != pat && s.len() > 0 {
        lemma_find_seq_bound(s.drop_first(), pat);
    }
}

fn range_pattern_exec(sclk: bool) -> (r: String)
    ensures
        r@ == range_pattern(sclk),
{
    let label = if sclk {
        escape("SCLK:")
    } else {
        escape("MCLK:")
    };
    let mut p = String::from_str("(?im)^\\s*");
    p.append(label.as_str());
    p.append("\\s*(\\d+)\\s*Mhz\\s+(\\d+)\\s*Mhz");
    p
}

impl AmdGpu {
    /// The card directory this value was made from.
    pub closed spec fn card_view(&self) -> Seq<char> {
        self.card_path@
    }

    /// The card's `device` directory.
    pub closed spec fn device_view(&self) -> Seq<char> {
        self.device_path@
    }

    /// A card known by its directory; its device directory is `device` below it.
    pub fn new(card_path: &str) -> (r: AmdGpu)
        ensures
            r.card_view() == card_path@,
            r.device_view() == join_path(card_path@, "device"@),
    {
        let device_path = join(card_path, "device");
        AmdGpu { card_path: String::from_str(card_path), device_path }
    }

    pub fn card_path(&self) -> (r: &str)
        ensures
            r@ == self.card_view(),
    {
        self.card_path.as_str()
    }

    pub fn device_path(&self) -> (r: &str)
        ensures
            r@ == self.device_view(),
    {
        self.device_path.as_str()
    }

    /// The path of the file `name` in the device directory.
    pub fn device_file(&self, name: &str) -> (r: String)
        ensures
            r@ == join_path(self.device_view(), name@),
    {
        join(self.device_path.as_str(), name)
    }

    /// The PCI address: the name of the directory that `device` resolves to
    /// (`resolved_device`, when resolving succeeded), else the card
    /// directory's own name, else empty.
    pub fn pci_id(&self, resolved_device: Option<&str>) -> (r: String)
        ensures
            r@ == match resolved_device {
                Some(p) if file_name(p@) is Some => file_name(p@)->Some_0,
                _ => match file_name(self.card_view()) {
                    Some(n) => n,
                    None => Seq::<char>::empty(),
                },
            },
    {
        if let Some(p) = resolved_device {
            if let Some(n) = last_component(p) {
                return n;
            }
        }
        match last_component(self.card_path.as_str()) {
            Some(n) => n,
            None => String::new(),
        }
    }

    /// The card's display name from the text of its `product_name` and
    /// `device` files.
    pub fn name(product_name: &str, device_id: &str) -> (r: String)
        ensures
            r@ == gpu_name(product_name@, device_id@),
            all_ascii(device_id@) ==> r@ == gpu_name_ascii(product_name@, device_id@),
    {
        if product_name.unicode_len() > 0 {
            return String::from_str(product_name);
        }
        let d = chars_of(device_id);
        let d = d.as_slice();
        let mut lo: usize = 0;
        assert(d@.skip(0) =~= d@);
        while d.len() >= 2 && lo < d.len() - 1 && d[lo] == '0' && d[lo + 1] == 'x'
            invariant
                lo <= d.len(),
                strip_hex_prefixes(d@) == strip_hex_prefixes(d@.skip(lo as int)),
            decreases d.len() - lo,
        {
            assert(d@.skip(lo as int).skip(2) =~= d@.skip(lo + 2));
            lo = lo + 2;
        }
        let stripped = crate::text::string_from_chars(slice_subrange(d, lo, d.len()));
        assert(stripped@ =~= d@.skip(lo as int));
        assert(all_ascii(d@) ==> all_ascii(stripped@)) by {
            if all_ascii(d@) {
                assert forall|i: int| 0 <= i < stripped@.len() implies (#[trigger] stripped@[i] as int)
                    < 0x80 by {
                    assert(stripped@[i] == d@[lo + i]);
                }
            }
        }
        let upper = to_uppercase(stripped.as_str());
        if upper.unicode_len() == 0 {
            String::from_str("AMD Radeon")
        } else {
            let mut out = String::from_str("AMD Radeon (");
            out.append(upper.as_str());
            out.append(")");
            out
        }
    }

    /// The forced performance level from its file's text; `auto` when the
    /// file is empty or unreadable.
    pub fn performance_level(text: &str) -> (r: String)
        ensures
            r@ == if text@.len() == 0 {
                "auto"@
            } else {
                text@
            },
    {
        if text.unicode_len() == 0 {
            String::from_str("auto")
        } else {
            String::from_str(text)
        }
    }

    /// The DPM levels of `kind` (`sclk` or `mclk`) from the text of its
    /// `pp_dpm_<kind>` file; none for any other kind.
    pub fn clock_states(kind: &str, table: &str) -> (r: Vec<ClockState>)
        ensures
            r@ == clock_states_spec(kind@, table@),
    {
        let k = chars_of(kind);
        if !chars_eq_str(k.as_slice(), "sclk") && !chars_eq_str(k.as_slice(), "mclk") {
            return Vec::new();
        }
        let t = chars_of(table);
        let ls = split_lines(t.as_slice());
        let ghost lv = ls@.map_values(|w: Vec<char>| w@);
        let mut out: Vec<ClockState> = Vec::new();
        let mut i: usize = 0;
        assert(lv.take(0) =~= Seq::<Seq<char>>::empty());
        while i < ls.len()
            invariant
                i <= ls.len(),
                lv == ls@.map_values(|w: Vec<char>| w@),
                lv == lines(table@),
                out@ == clock_states_of_lines(lv.take(i as int)),
            decreases ls.len() - i,
        {
            assert(lv.take(i + 1).drop_last() =~= lv.take(i as int));
            match clock_state_of_chars(ls[i].as_slice()) {
                Some(c) => {
                    out.push(c);
                },
                None => {},
            }
            i = i + 1;
            assert(out@ =~= clock_states_of_lines(lv.take(i as int)));
        }
        assert(lv.take(ls.len() as int) =~= lv);
        out
    }

    /// Where the control file `name` is: in the device directory when it is
    /// a file there (`direct_is_file`), else in the amdgpu hwmon directory
    /// `hwmon` when it is a file there (`in_hwmon_is_file`).
    pub fn control_path(
        &self,
        name: &str,
        direct_is_file: bool,
        hwmon: Option<&str>,
        in_hwmon_is_file: bool,
    ) -> (r: Option<String>)
        ensures
            match r {
                Some(p) => if direct_is_file {
                    p@ == join_path(self.device_view(), name@)
                } else {
                    hwmon is Some && in_hwmon_is_file && p@ == join_path(hwmon->Some_0@, name@)
                },
                None => !direct_is_file && (hwmon is None || !in_hwmon_is_file),
            },
    {
        if direct_is_file {
            return Some(join(self.device_path.as_str(), name));
        }
        match hwmon {
            Some(h) => if in_hwmon_is_file {
                Some(join(h, name))
            } else {
                None
            },
            None => None,
        }
    }
}

impl AmdGpu {
    /// The overdrive range of `kind` (`sclk` or `mclk`) from the text of
    /// `pp_od_clk_voltage`.
    pub fn overdrive_clock_range(kind: &str, output: &str) -> (r: Option<ClockRange>)
        ensures
            r == overdrive_clock_range_spec(kind@, output@),
    {
        let k = chars_of(kind);
        let is_sclk = chars_eq_str(k.as_slice(), "sclk");
        if !is_sclk && !chars_eq_str(k.as_slice(), "mclk") {
            return None;
        }
        let o = chars_of(output);
        let section = match od_section_exec(o.as_slice(), is_sclk) {
            Some(s) => crate::text::string_from_chars(s.as_slice()),
            None => return None,
        };
        let point_re = match Pattern::new(OD_POINT_PATTERN) {
            Some(p) => p,
            None => return None,
        };
        let points = captures_all(&point_re, section.as_str());
        let range_source = range_pattern_exec(is_sclk);
        let range_re = match Pattern::new(range_source.as_str()) {
            Some(p) => p,
            None => return None,
        };
        let allowed = captures_first(&range_re, output);
        match &allowed {
            Some(a) => clock_range_from_captures(is_sclk, &points, Some(a)),
            None => clock_range_from_captures(is_sclk, &points, None),
        }
    }

    /// The current voltage offset and its allowed range, in mV, from the
    /// text of `pp_od_clk_voltage`.
    pub fn voltage_offset(output: &str) -> (r: Option<(i32, i32, i32)>)
        ensures
            r == voltage_offset_spec(output@),
    {
        let current_re = match Pattern::new(VOLTAGE_CURRENT_PATTERN) {
            Some(p) => p,
            None => return None,
        };
        let range_re = match Pattern::new(VOLTAGE_RANGE_PATTERN) {
            Some(p) => p,
            None => return None,
        };
        let current = captures_first(&current_re, output);
        let range = captures_first(&range_re, output);
        match (&current, &range) {
            (Some(c), Some(rg)) => voltage_from_captures(Some(c), Some(rg)),
            _ => None,
        }
    }

    /// The workload profiles from the text of `pp_power_profile_mode`.
    pub fn power_profiles(text: &str) -> (r: Vec<PowerProfile>)
        ensures
            r@.map_values(|p: PowerProfile| profile_view(p)) == power_profiles_spec(text@),
    {
        let pattern = match Pattern::new(PROFILE_PATTERN) {
            Some(p) => p,
            None => {
                let empty: Vec<PowerProfile> = Vec::new();
                assert(empty@.map_values(|p: PowerProfile| profile_view(p)) =~= Seq::<
                    (u32, Seq<char>, bool),
                >::empty());
                return empty;
            },
        };
        let matches = captures_all(&pattern, text);
        profiles_from_captures(&matches)
    }
}

/// What the application learns about one card by probing its files: which
/// control files exist and whether the power-limit and fan readings parse.
pub struct DeviceProbe {
    pub performance_control: bool,
    pub profile_control: bool,
    pub power_cap_control: bool,
    pub pwm_control: bool,
    pub pwm_enable_control: bool,
    pub power_limit_readable: bool,
    pub fan_readable: bool,
}

/// The capabilities of a card whose files gave `probe`, whose
/// `pp_power_profile_mode` reads `profile_text` and whose
/// `pp_od_clk_voltage` reads `overdrive_text`.
pub open spec fn capabilities_spec(probe: DeviceProbe, profile_text: Seq<char>, overdrive_text: Seq<char>) -> Capabilities {
    Capabilities {
        performance: probe.performance_control,
        workload_profiles: power_profiles_spec(profile_text).len() > 0 && probe.profile_control,
        core_clock: overdrive_clock_range_spec("sclk"@, overdrive_text) is Some,
        memory_clock: overdrive_clock_range_spec("mclk"@, overdrive_text) is Some,
        voltage: voltage_offset_spec(overdrive_text) is Some,
        power_limit: probe.power_limit_readable && probe.power_cap_control,
        fan: probe.fan_readable && probe.pwm_control && probe.pwm_enable_control,
    }
}

/// Entry `i` is the amdgpu hwmon directory that the sorted listing finds
/// first.
pub open spec fn hwmon_choice(es: Seq<HwmonCandidate>, i: int) -> bool {
    &&& 0 <= i < es.len()
    &&& is_amdgpu_hwmon(es[i])
    &&& forall|j: int|
        0 <= j < es.len() && j != i && is_amdgpu_hwmon(#[trigger] es[j]) ==> sorted_before(
            es[i].dir_name@,
            i,
            es[j].dir_name@,
            j,
        )
}

pub proof fn lemma_seq_less_irreflexive(a: Seq<char>)
    ensures
        !seq_less(a, a),
    decreases a.len(),
{
    if a.len() > 0 {
        lemma_seq_less_irreflexive(a.drop_first());
    }
}

pub proof fn lemma_seq_less_transitive(a: Seq<char>, b: Seq<char>, c: Seq<char>)
    requires
        seq_less(a, b),
        seq_less(b, c),
    ensures
        seq_less(a, c),
    decreases a.len(),
{
    if a.len() > 0 && b.len() > 0 && c.len() > 0 && a[0] == b[0] && b[0] == c[0] {
        lemma_seq_less_transitive(a.drop_first(), b.drop_first(), c.drop_first());
    }
}

pub proof fn lemma_seq_less_total(a: Seq<char>, b: Seq<char>)
    ensures
        seq_less(a, b) || seq_less(b, a) || a == b,
    decreases a.len(),
{
    if a.len() > 0 && b.len() > 0 && a[0] == b[0] {
        lemma_seq_less_total(a.drop_first(), b.drop_first());
        if a.drop_first() == b.drop_first() {
            assert(a =~= seq![a[0]] + a.drop_first());
            assert(b =~= seq![b[0]] + b.drop_first());
        }
    } else if a.len() == 0 && b.len() == 0 {
        assert(a =~= b);
    }
}

/// Whether `a` sorts strictly before `b`.
pub fn chars_less(a: &[char], b: &[char]) -> (r: bool)
    ensures
        r == seq_less(a@, b@),
{
    let mut i: usize = 0;
    assert(a@.skip(0) =~= a@);
    assert(b@.skip(0) =~= b@);
    while i < a.len() && i < b.len() && a[i] == b[i]
        invariant
            i <= a.len(),
            i <= b.len(),
            seq_less(a@, b@) == seq_less(a@.skip(i as int), b@.skip(i as int)),
        decreases a.len() - i,
    {
        assert(a@.skip(i as int).drop_first() =~= a@.skip(i + 1));
        assert(b@.skip(i as int).drop_first() =~= b@.skip(i + 1));
        i = i + 1;
    }
    if i == a.len() {
        i < b.len()
    } else if i == b.len() {
        false
    } else {
        let x = a[i];
        let y = b[i];
        x < y
    }
}

/// The card that `Iterator::max_by_key` picks by score: the last one with
/// the highest score.
pub open spec fn last_best_index(cs: Seq<Capabilities>) -> int
    decreases cs.len(),
{
    if cs.len() <= 1 {
        0
    } else {
        let k = last_best_index(cs.drop_last());
        if cs.last().score_spec() >= cs[k].score_spec() {
            cs.len() - 1
        } else {
            k
        }
    }
}

proof fn lemma_last_best_is_max(cs: Seq<Capabilities>)
    requires
        cs.len() > 0,
    ensures
        0 <= last_best_index(cs) < cs.len(),
        forall|k: int| 0 <= k < cs.len() ==> (#[trigger] cs[k]).score_spec() <= cs[last_best_index(
            cs,
        )].score_spec(),
        forall|k: int|
            last_best_index(cs) < k < cs.len() ==> (#[trigger] cs[k]).score_spec() < cs[last_best_index(
                cs,
            )].score_spec(),
    decreases cs.len(),
{
    if cs.len() > 1 {
        let d = cs.drop_last();
        lemma_last_best_is_max(d);
        let k = last_best_index(d);
        let n = cs.len() - 1;
        assert(d[k] == cs[k]);
        let b = last_best_index(cs);
        if cs[k].score_spec() <= cs.last().score_spec() {
            assert(b == n);
            assert forall|j: int| 0 <= j < cs.len() implies (#[trigger] cs[j]).score_spec()
                <= cs[b].score_spec() by {
                if j < n {
                    assert(d[j] == cs[j]);
                }
            }
        } else {
            assert(b == k);
            assert forall|j: int| 0 <= j < cs.len() implies (#[trigger] cs[j]).score_spec()
                <= cs[b].score_spec() by {
                if j < n {
                    assert(d[j] == cs[j]);
                }
            }
            assert forall|j: int| b < j < cs.len() implies (#[trigger] cs[j]).score_spec()
                < cs[b].score_spec() by {
                if j < n {
                    assert(d[j] == cs[j]);
                }
            }
        }
    }
}

/// With no saved card among `gs` (none saved, or the saved address absent),
/// the card shown first offers the most controls, and every card after it
/// offers fewer: of equally capable cards, the last is taken.
pub proof fn lemma_most_capable_card_selected(gs: Seq<GpuChoice>, saved: Option<Seq<char>>)
    requires
        gs.len() > 0,
        saved matches Some(p) ==> forall|k: int| 0 <= k < gs.len() ==> (#[trigger] gs[k]).pci_id@ != p,
    ensures
        0 <= preferred_index_spec(gs, saved) < gs.len(),
        forall|k: int|
            0 <= k < gs.len() ==> (#[trigger] gs[k]).capabilities.score_spec() <= gs[preferred_index_spec(
                gs,
                saved,
            )].capabilities.score_spec(),
        forall|k: int|
            preferred_index_spec(gs, saved) < k < gs.len() ==> (#[trigger] gs[k]).capabilities.score_spec()
                < gs[preferred_index_spec(gs, saved)].capabilities.score_spec(),
{
    let cs = choice_caps(gs);
    lemma_last_best_is_max(cs);
    if let Some(p) = saved {
        let ids = choice_ids(gs);
        lemma_first_with_pci_bounds(ids, p);
        if first_with_pci(ids, p) < gs.len() {
            lemma_first_with_pci_found_any(ids, p);
            let f = first_with_pci(ids, p);
            assert(ids[f] == gs[f].pci_id@);
        }
    }
    let b = last_best_index(cs);
    assert(preferred_index_spec(gs, saved) == b);
    assert(cs[b] == gs[b].capabilities);
    assert forall|k: int| 0 <= k < gs.len() implies (#[trigger] gs[k]).capabilities.score_spec()
        <= gs[b].capabilities.score_spec() by {
        assert(cs[k] == gs[k].capabilities);
    }
    assert forall|k: int| b < k < gs.len() implies (#[trigger] gs[k]).capabilities.score_spec()
        < gs[b].capabilities.score_spec() by {
        assert(cs[k] == gs[k].capabilities);
    }
}

proof fn lemma_first_with_pci_found_any(ids: Seq<Seq<char>>, pci: Seq<char>)
    requires
        first_with_pci(ids, pci) < ids.len(),
    ensures
        ids[first_with_pci(ids, pci)] == pci,
    decreases ids.len(),
{
    if ids.len() > 0 && ids[0] != pci {
        lemma_first_with_pci_bounds(ids.drop_first(), pci);
        lemma_first_with_pci_found_any(ids.drop_first(), pci);
        let f = first_with_pci(ids.drop_first(), pci);
        assert(ids.drop_first()[f] == ids[f + 1]);
    }
}

/// Position of the first card with the given PCI address, or the length.
pub open spec fn first_with_pci(ids: Seq<Seq<char>>, pci: Seq<char>) -> int
    decreases ids.len(),
{
    if ids.len() == 0 {
        0
    } else if ids[0] == pci {
        0
    } else {
        1 + first_with_pci(ids.drop_first(), pci)
    }
}

/// A card as the selection logic sees it: its PCI address and capabilities.
pub struct GpuChoice {
    pub pci_id: String,
    pub capabilities: Capabilities,
}

pub open spec fn choice_ids(gs: Seq<GpuChoice>) -> Seq<Seq<char>> {
    gs.map_values(|g: GpuChoice| g.pci_id@)
}

pub open spec fn choice_caps(gs: Seq<GpuChoice>) -> Seq<Capabilities> {
    gs.map_values(|g: GpuChoice| g.capabilities)
}

/// The card to show first: the saved one when it is present, else the one
/// offering the most controls (the last of equals), else 0.
pub open spec fn preferred_index_spec(gs: Seq<GpuChoice>, saved: Option<Seq<char>>) -> int {
    match saved {
        Some(s) => if first_with_pci(choice_ids(gs), s) < gs.len() {
            first_with_pci(choice_ids(gs), s)
        } else {
            last_best_index(choice_caps(gs))
        },
        None => last_best_index(choice_caps(gs)),
    }
}

proof fn lemma_first_with_pci_found(ids: Seq<Seq<char>>, pci: Seq<char>, j: int)
    requires
        0 <= j < ids.len(),
        ids[j] == pci,
    ensures
        first_with_pci(ids, pci) <= j,
        ids[first_with_pci(ids, pci)] == pci,
    decreases j,
{
    if ids[0] != pci {
        lemma_first_with_pci_found(ids.drop_first(), pci, j - 1);
        lemma_first_with_pci_bounds(ids.drop_first(), pci);
    }
}

/// Once a card has been chosen and its PCI address saved, the card
/// selected next (when the window opens, by the tray, or at the next
/// start) is the first card with that address, as long as it is present.
pub proof fn lemma_saved_card_selected(gs: Seq<GpuChoice>, pci: Seq<char>, j: int)
    requires
        0 <= j < gs.len(),
        gs[j].pci_id@ == pci,
    ensures
        0 <= preferred_index_spec(gs, Some(pci)) <= j,
        gs[preferred_index_spec(gs, Some(pci))].pci_id@ == pci,
        forall|k: int| 0 <= k < preferred_index_spec(gs, Some(pci)) ==> (#[trigger] gs[k]).pci_id@ != pci,
{
    let ids = choice_ids(gs);
    lemma_first_with_pci_found(ids, pci, j);
    lemma_first_with_pci_before(ids, pci);
    lemma_first_with_pci_bounds(ids, pci);
    let f = first_with_pci(ids, pci);
    assert forall|k: int| 0 <= k < f implies (#[trigger] gs[k]).pci_id@ != pci by {
        assert(ids[k] == gs[k].pci_id@);
    }
}

proof fn lemma_first_with_pci_before(ids: Seq<Seq<char>>, pci: Seq<char>)
    ensures
        forall|k: int| 0 <= k < first_with_pci(ids, pci) && k < ids.len() ==> #[trigger] ids[k] != pci,
    decreases ids.len(),
{
    if ids.len() > 0 && ids[0] != pci {
        lemma_first_with_pci_before(ids.drop_first(), pci);
        assert forall|k: int| 0 <= k < first_with_pci(ids, pci) && k < ids.len() implies #[trigger] ids[k] != pci by {
            if k > 0 {
                assert(ids[k] == ids.drop_first()[k - 1]);
            }
        }
    }
}

proof fn lemma_first_with_pci_bounds(ids: Seq<Seq<char>>, pci: Seq<char>)
    ensures
        0 <= first_with_pci(ids, pci) <= ids.len(),
    decreases ids.len(),
{
    if ids.len() > 0 && ids[0] != pci {
        lemma_first_with_pci_bounds(ids.drop_first(), pci);
    }
}

proof fn lemma_last_best_bounds(cs: Seq<Capabilities>)
    ensures
        cs.len() > 0 ==> 0 <= last_best_index(cs) < cs.len(),
        cs.len() == 0 ==> last_best_index(cs) == 0,
    decreases cs.len(),
{
    if cs.len() > 1 {
        lemma_last_best_bounds(cs.drop_last());
    }
}

/// Entry `i` is a `card<N>` directory of an AMD device bound to `amdgpu`.
pub open spec fn card_number(name: Seq<char>) -> Option<u32> {
    if name.len() >= 4 && name.take(4) == seq!['c', 'a', 'r', 'd'] && all_digits(name.skip(4)) {
        parse_u32_spec(name.skip(4))
    } else {
        None
    }
}

/// One entry of `/sys/class/drm` with what the discovery and the helper
/// read through it: the entry's name, where its `device` link resolves,
/// the trimmed text of `device/vendor` (empty when unreadable) and where
/// `device/driver` resolves.
pub struct CardEntry {
    pub name: String,
    pub device_target: Option<String>,
    pub vendor_text: String,
    pub driver_target: Option<String>,
}

/// The device reports AMD's vendor id and is bound to the `amdgpu` driver.
pub open spec fn is_amd_device(e: CardEntry) -> bool {
    &&& str_to_lowercase(e.vendor_text@) == "0x1002"@
    &&& match e.driver_target {
        Some(t) => file_name(t@) == Some("amdgpu"@),
        None => false,
    }
}

/// `is_amd_device` for a vendor text of ASCII characters, where the Unicode
/// lower case is the ASCII one.
pub open spec fn is_amd_device_ascii(e: CardEntry) -> bool {
    &&& e.vendor_text@.map_values(|c: char| ascii_lower(c)) == "0x1002"@
    &&& match e.driver_target {
        Some(t) => file_name(t@) == Some("amdgpu"@),
        None => false,
    }
}

pub open spec fn discovered(e: CardEntry) -> bool {
    card_number(e.name@) is Some && is_amd_device(e)
}

/// Card `i` is listed before card `j`: smaller card number first, the
/// directory order among equal numbers (a stable sort).
pub open spec fn card_before(es: Seq<CardEntry>, i: int, j: int) -> bool {
    let a = card_number(es[i].name@)->Some_0;
    let b = card_number(es[j].name@)->Some_0;
    a < b || (a == b && i < j)
}

/// `order` lists exactly the discovered entries, sorted by card number.
pub open spec fn discovery_order(es: Seq<CardEntry>, order: Seq<int>) -> bool {
    &&& forall|k: int| 0 <= k < order.len() ==> 0 <= #[trigger] order[k] < es.len() && discovered(es[order[k]])
    &&& forall|i: int| 0 <= i < es.len() && discovered(#[trigger] es[i]) ==> exists|k: int| 0 <= k < order.len() && order[k] == i
    &&& forall|k1: int, k2: int| 0 <= k1 < k2 < order.len() ==> card_before(es, #[trigger] order[k1], #[trigger] order[k2])
}

fn card_number_exec(name: &str) -> (r: Option<u32>)
    ensures
        r == card_number(name@),
{
    let v = chars_of(name);
    let v = v.as_slice();
    if v.len() < 4 || v[0] != 'c' || v[1] != 'a' || v[2] != 'r' || v[3] != 'd' {
        proof {
            if v@.len() >= 4 {
                let p = seq!['c', 'a', 'r', 'd'];
                assert(v@.take(4) != p);
            }
        }
        return None;
    }
    assert(v@.take(4) =~= seq!['c', 'a', 'r', 'd']);
    let suffix = slice_subrange(v, 4, v.len());
    assert(suffix@ =~= v@.skip(4));
    if !chars_all_digits(suffix) {
        return None;
    }
    parse_u32(suffix)
}

/// The device of `e` is an AMD device bound to `amdgpu`.
pub fn is_amd_device_exec(e: &CardEntry) -> (r: bool)
    ensures
        r == is_amd_device(*e),
        all_ascii(e.vendor_text@) ==> r == is_amd_device_ascii(*e),
{
    let vendor = crate::text::to_lowercase(e.vendor_text.as_str());
    let vendor_ok = crate::text::str_eq(vendor.as_str(), "0x1002");
    if !vendor_ok {
        return false;
    }
    match &e.driver_target {
        Some(t) => match last_component(t.as_str()) {
            Some(n) => crate::text::str_eq(n.as_str(), "amdgpu"),
            None => false,
        },
        None => false,
    }
}

pub open spec fn key_less(a: (u32, usize), b: (u32, usize)) -> bool {
    a.0 < b.0 || (a.0 == b.0 && a.1 < b.1)
}

pub open spec fn keys_sorted(ks: Seq<(u32, usize)>) -> bool {
    forall|k1: int, k2: int| 0 <= k1 < k2 < ks.len() ==> key_less(#[trigger] ks[k1], #[trigger] ks[k2])
}

/// Inserts `key` into the sorted `keys`, whose positions are all smaller
/// than the new one's.
fn insert_sorted(keys: &mut Vec<(u32, usize)>, key: (u32, usize))
    requires
        keys_sorted(old(keys)@),
        forall|x: (u32, usize)| #[trigger] old(keys)@.contains(x) ==> x.1 < key.1,
    ensures
        keys_sorted(final(keys)@),
        final(keys)@.len() == old(keys)@.len() + 1,
        forall|x: (u32, usize)| #[trigger] final(keys)@.contains(x) <==> (old(keys)@.contains(x) || x == key),
{
    let mut pos: usize = keys.len();
    while pos > 0 && keys[pos - 1].0 > key.0
        invariant
            pos <= keys.len(),
            forall|k: int| pos <= k < keys.len() ==> (#[trigger] keys@[k]).0 > key.0,
        decreases pos,
    {
        pos = pos - 1;
    }
    let ghost old_keys = keys@;
    proof {
        assert forall|k: int| 0 <= k < pos implies key_less(#[trigger] old_keys[k], key) by {
            assert(old_keys.contains(old_keys[k]));
        }
        assert forall|k: int| pos <= k < old_keys.len() implies key_less(key, #[trigger] old_keys[k]) by {}
    }
    keys.insert(pos, key);
    proof {
        assert(keys@ =~= old_keys.insert(pos as int, key));
        assert forall|k1: int, k2: int| 0 <= k1 < k2 < keys@.len() implies key_less(#[trigger] keys@[k1], #[trigger] keys@[k2]) by {}
        assert forall|x: (u32, usize)| #[trigger] keys@.contains(x) <==> (old_keys.contains(x) || x == key) by {
            if old_keys.contains(x) {
                let k = choose|k: int| 0 <= k < old_keys.len() && old_keys[k] == x;
                if k < pos {
                    assert(keys@[k] == x);
                } else {
                    assert(keys@[k + 1] == x);
                }
            }
            if x == key {
                assert(keys@[pos as int] == x);
            }
        }
    }
}

/// The AMD cards among the entries of the DRM class directory `root`
/// (`None` when it could not be listed), sorted by card number.
pub fn discover_gpus_in(root: &str, entries: Option<&Vec<CardEntry>>) -> (r: Vec<AmdGpu>)
    ensures
        entries is None ==> r@.len() == 0,
        entries matches Some(es) ==> exists|order: Seq<int>|
            #![trigger discovery_order(es@, order)]
            discovery_order(es@, order) && r@.len() == order.len() && forall|k: int|
                0 <= k < order.len() ==> (#[trigger] r@[k]).card_view() == join_path(
                    root@,
                    es@[order[k]].name@,
                ) && r@[k].device_view() == join_path(
                    join_path(root@, es@[order[k]].name@),
                    "device"@,
                ),
{
    let es = match entries {
        Some(es) => es,
        None => return Vec::new(),
    };
    // (card number, entry position), kept sorted.
    let mut keys: Vec<(u32, usize)> = Vec::new();
    let mut i: usize = 0;
    while i < es.len()
        invariant
            i <= es.len(),
            keys_sorted(keys@),
            forall|x: (u32, usize)| #[trigger] keys@.contains(x) ==> x.1 < i && discovered(es@[x.1 as int]) && card_number(es@[x.1 as int].name@) == Some(x.0),
            forall|p: int| 0 <= p < i && discovered(#[trigger] es@[p]) ==> exists|k: int| 0 <= k < keys.len() && keys@[k].1 == p,
        decreases es.len() - i,
    {
        let number = card_number_exec(es[i].name.as_str());
        match number {
            Some(n) => {
                if is_amd_device_exec(&es[i]) {
                    let ghost old_keys = keys@;
                    insert_sorted(&mut keys, (n, i));
                    proof {
                        assert forall|p: int| 0 <= p < i + 1 && discovered(#[trigger] es@[p]) implies exists|k: int| 0 <= k < keys.len() && keys@[k].1 == p by {
                            if p == i {
                                assert(keys@.contains((n, i)));
                            } else {
                                let k0 = choose|k: int| 0 <= k < old_keys.len() && old_keys[k].1 == p;
                                assert(keys@.contains(old_keys[k0]));
                            }
                        }
                    }
                }
            },
            None => {},
        }
        i = i + 1;
    }
    let mut out: Vec<AmdGpu> = Vec::new();
    let ghost mut order: Seq<int> = seq![];
    let mut k: usize = 0;
    while k < keys.len()
        invariant
            k <= keys.len(),
            keys_sorted(keys@),
            forall|x: (u32, usize)| #[trigger] keys@.contains(x) ==> x.1 < es.len() && discovered(es@[x.1 as int]) && card_number(es@[x.1 as int].name@) == Some(x.0),
            forall|p: int| 0 <= p < es.len() && discovered(#[trigger] es@[p]) ==> exists|k: int| 0 <= k < keys.len() && keys@[k].1 == p,
            order.len() == k,
            out@.len() == k,
            forall|j: int| 0 <= j < k ==> #[trigger] order[j] == keys@[j].1 as int,
            forall|j: int| 0 <= j < k ==> (#[trigger] out@[j]).card_view() == join_path(
                root@,
                es@[order[j]].name@,
            ) && out@[j].device_view() == join_path(
                join_path(root@, es@[order[j]].name@),
                "device"@,
            ),
        decreases keys.len() - k,
    {
        let p = keys[k].1;
        assert(keys@.contains(keys@[k as int]));
        let card = join(root, es[p].name.as_str());
        let gpu = AmdGpu::new(card.as_str());
        proof {
            order = order.push(p as int);
        }
        out.push(gpu);
        k = k + 1;
    }
    proof {
        assert forall|k1: int, k2: int| 0 <= k1 < k2 < order.len() implies card_before(es@, #[trigger] order[k1], #[trigger] order[k2]) by {
            assert(keys@.contains(keys@[k1]));
            assert(keys@.contains(keys@[k2]));
        }
        assert forall|kk: int| 0 <= kk < order.len() implies 0 <= #[trigger] order[kk] < es@.len() && discovered(es@[order[kk]]) by {
            assert(keys@.contains(keys@[kk]));
        }
        assert forall|p: int| 0 <= p < es@.len() && discovered(#[trigger] es@[p]) implies exists|kk: int| 0 <= kk < order.len() && order[kk] == p by {
            let k0 = choose|kk: int| 0 <= kk < keys.len() && keys@[kk].1 == p;
            assert(order[k0] == p);
        }
        assert(discovery_order(es@, order));
    }
    out
}

/// The AMD cards under `/sys/class/drm`, given that directory's entries.
pub fn discover_gpus(entries: Option<&Vec<CardEntry>>) -> (r: Vec<AmdGpu>)
    ensures
        entries is None ==> r@.len() == 0,
        entries matches Some(es) ==> exists|order: Seq<int>|
            #![trigger discovery_order(es@, order)]
            discovery_order(es@, order) && r@.len() == order.len() && forall|k: int|
                0 <= k < order.len() ==> (#[trigger] r@[k]).card_view() == join_path(
                    "/sys/class/drm"@,
                    es@[order[k]].name@,
                ),
{
    discover_gpus_in("/sys/class/drm", entries)
}

/// The position of the first card with the PCI address `pci`, if any.
pub fn find_card(gpus: &Vec<GpuChoice>, pci: &str) -> (r: Option<usize>)
    ensures
        match r {
            Some(i) => i < gpus@.len() && i == first_with_pci(choice_ids(gpus@), pci@),
            None => first_with_pci(choice_ids(gpus@), pci@) >= gpus@.len(),
        },
{
    let ghost ids = choice_ids(gpus@);
    let mut i: usize = 0;
    assert(ids.skip(0) =~= ids);
    while i < gpus.len()
        invariant
            i <= gpus.len(),
            ids == choice_ids(gpus@),
            first_with_pci(ids, pci@) == i + first_with_pci(ids.skip(i as int), pci@),
        decreases gpus.len() - i,
    {
        if crate::text::str_eq(gpus[i].pci_id.as_str(), pci) {
            return Some(i);
        }
        assert(ids.skip(i as int).drop_first() =~= ids.skip(i + 1));
        i = i + 1;
    }
    assert(ids.skip(i as int) =~= Seq::<Seq<char>>::empty());
    None
}

/// The card to select: the saved one if it is among `gpus`, else the one
/// offering the most controls (the last among equals), else 0.
pub fn preferred_gpu_index(gpus: &Vec<GpuChoice>, saved_pci: Option<&str>) -> (r: usize)
    ensures
        r == preferred_index_spec(
            gpus@,
            match saved_pci {
                Some(s) => Some(s@),
                None => None,
            },
        ),
        gpus@.len() > 0 ==> r < gpus@.len(),
{
    proof {
        lemma_last_best_bounds(choice_caps(gpus@));
    }
    if let Some(saved) = saved_pci {
        let ghost ids = choice_ids(gpus@);
        let mut i: usize = 0;
        assert(ids.skip(0) =~= ids);
        while i < gpus.len()
            invariant
                i <= gpus.len(),
                ids == choice_ids(gpus@),
                saved_pci == Some(saved),
                first_with_pci(ids, saved@) == i + first_with_pci(ids.skip(i as int), saved@),
            decreases gpus.len() - i,
        {
            if crate::text::str_eq(gpus[i].pci_id.as_str(), saved) {
                proof {
                    lemma_first_with_pci_bounds(ids, saved@);
                }
                return i;
            }
            assert(ids.skip(i as int).drop_first() =~= ids.skip(i + 1));
            i = i + 1;
        }
        assert(ids.skip(i as int) =~= Seq::<Seq<char>>::empty());
        assert(ids.skip(0) =~= ids);
    }
    let ghost cs = choice_caps(gpus@);
    if gpus.len() == 0 {
        return 0;
    }
    let mut best: usize = 0;
    let mut best_score = gpus[0].capabilities.score();
    let mut i: usize = 1;
    while i < gpus.len()
        invariant
            1 <= i <= gpus.len(),
            cs == choice_caps(gpus@),
            best < i,
            best == last_best_index(cs.take(i as int)),
            best_score == cs[best as int].score_spec(),
        decreases gpus.len() - i,
    {
        assert(cs.take(i + 1).drop_last() =~= cs.take(i as int));
        let sc = gpus[i].capabilities.score();
        if sc >= best_score {
            best = i;
            best_score = sc;
        }
        i = i + 1;
    }
    assert(cs.take(gpus.len() as int) =~= cs);
    best
}

impl AmdGpu {
    /// The capabilities of this card from what probing its files found, the
    /// text of its `pp_power_profile_mode` and of its `pp_od_clk_voltage`.
    pub fn capabilities(probe: &DeviceProbe, profile_text: &str, overdrive_text: &str) -> (r: Capabilities)
        ensures
            r == capabilities_spec(*probe, profile_text@, overdrive_text@),
    {
        let profiles = AmdGpu::power_profiles(profile_text);
        Capabilities {
            performance: probe.performance_control,
            workload_profiles: profiles.len() > 0 && probe.profile_control,
            core_clock: AmdGpu::overdrive_clock_range("sclk", overdrive_text).is_some(),
            memory_clock: AmdGpu::overdrive_clock_range("mclk", overdrive_text).is_some(),
            voltage: AmdGpu::voltage_offset(overdrive_text).is_some(),
            power_limit: probe.power_limit_readable && probe.power_cap_control,
            fan: probe.fan_readable && probe.pwm_control && probe.pwm_enable_control,
        }
    }

    /// The directory of the card's `amdgpu` hwmon interface, given the
    /// entries of `device/hwmon` (`None` when it could not be listed): the
    /// first in sorted order whose `name` reads `amdgpu`.
    pub fn hwmon_path(&self, entries: Option<&Vec<HwmonCandidate>>) -> (r: Option<String>)
        ensures
            match r {
                Some(p) => entries matches Some(es) && exists|i: int|
                    hwmon_choice(es@, i) && p@ == join_path(
                        join_path(self.device_view(), "hwmon"@),
                        #[trigger] es@[i].dir_name@,
                    ),
                None => entries matches Some(es) ==> forall|i: int|
                    0 <= i < es@.len() ==> !is_amdgpu_hwmon(#[trigger] es@[i]),
            },
    {
        let es = match entries {
            Some(es) => es,
            None => return None,
        };
        let mut best: Option<usize> = None;
        let mut i: usize = 0;
        while i < es.len()
            invariant
                i <= es.len(),
                match best {
                    Some(b) => b < i && is_amdgpu_hwmon(es@[b as int]) && forall|j: int|
                        0 <= j < i && j != b && is_amdgpu_hwmon(#[trigger] es@[j]) ==> sorted_before(
                            es@[b as int].dir_name@,
                            b as int,
                            es@[j].dir_name@,
                            j,
                        ),
                    None => forall|j: int| 0 <= j < i ==> !is_amdgpu_hwmon(#[trigger] es@[j]),
                },
            decreases es.len() - i,
        {
            let n = chars_of(es[i].name_text.as_str());
            if chars_eq_str(n.as_slice(), "amdgpu") {
                match best {
                    None => {
                        best = Some(i);
                    },
                    Some(b) => {
                        let bn = chars_of(es[b].dir_name.as_str());
                        let cn = chars_of(es[i].dir_name.as_str());
                        if chars_less(cn.as_slice(), bn.as_slice()) {
                            proof {
                                let ci = es@[i as int].dir_name@;
                                let cb = es@[b as int].dir_name@;
                                assert forall|j: int| 0 <= j < i + 1 && j != i && is_amdgpu_hwmon(#[trigger] es@[j]) implies sorted_before(ci, i as int, es@[j].dir_name@, j) by {
                                    let cj = es@[j].dir_name@;
                                    if j != b && seq_less(cb, cj) {
                                        lemma_seq_less_transitive(ci, cb, cj);
                                    }
                                }
                            }
                            best = Some(i);
                        } else {
                            proof {
                                let ci = es@[i as int].dir_name@;
                                let cb = es@[b as int].dir_name@;
                                lemma_seq_less_total(ci, cb);
                            }
                        }
                    },
                }
            }
            i = i + 1;
        }
        match best {
            Some(b) => {
                let dir = join(self.device_path.as_str(), "hwmon");
                let p = join(dir.as_str(), es[b].dir_name.as_str());
                Some(p)
            },
            None => None,
        }
    }
}

} // verus!
