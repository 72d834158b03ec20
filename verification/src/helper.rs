//! The privileged helper's rules: which PCI addresses, controls and values
//! it accepts, and how it picks the card and the sysfs file to write.

use vstd::prelude::*;
use vstd::slice::slice_subrange;
use vstd::slice::slice_to_vec;
use crate::gpu::{is_amd_device, is_amd_device_exec, CardEntry};
use crate::paths::{file_name, last_component};
use crate::text::{
    all_digits, char_is_hex_digit, char_is_whitespace, chars_all_digits, chars_eq_str, chars_of,
    find_whitespace, is_hex_digit, is_whitespace, lemma_find_whitespace_at, lemma_trim_start_skip, parse_u16, parse_u16_spec,
    trim_start, words,
};

verus! {

/// The vendor id that an AMD device reports.
pub const AMD_VENDOR: &'static str = "0x1002";

/// A PCI address `dddd:bb:dd.f` made of hexadecimal digits.
pub open spec fn pci_id_valid(s: Seq<char>) -> bool {
    &&& s.len() == 12
    &&& s[4] == ':'
    &&& s[7] == ':'
    &&& s[10] == '.'
    &&& forall|i: int|
        0 <= i < 12 && i != 4 && i != 7 && i != 10 ==> is_hex_digit(#[trigger] s[i])
}

/// One or more ASCII digits.
pub open spec fn unsigned_spec(s: Seq<char>) -> bool {
    all_digits(s)
}

/// An optional `-` followed by one or more ASCII digits.
pub open spec fn signed_spec(s: Seq<char>) -> bool {
    if s.len() > 0 && s[0] == '-' {
        all_digits(s.drop_first())
    } else {
        all_digits(s)
    }
}

/// The performance levels that the driver accepts.
pub open spec fn performance_level_allowed(v: Seq<char>) -> bool {
    ||| v == "auto"@
    ||| v == "low"@
    ||| v == "high"@
    ||| v == "manual"@
    ||| v == "profile_standard"@
    ||| v == "profile_min_sclk"@
    ||| v == "profile_min_mclk"@
    ||| v == "profile_peak"@
}

/// The overdrive commands that the helper forwards, by their words.
pub open spec fn overdrive_words_allowed(t: Seq<Seq<char>>) -> bool {
    if t.len() == 1 {
        t[0] == "c"@ || t[0] == "r"@
    } else if t.len() == 2 {
        t[0] == "vo"@ && signed_spec(t[1])
    } else if t.len() == 3 {
        (t[0] == "s"@ || t[0] == "m"@) && all_digits(t[1]) && all_digits(t[2])
    } else if t.len() == 4 {
        ||| (t[0] == "s"@ || t[0] == "m"@) && all_digits(t[1]) && all_digits(t[2]) && all_digits(
            t[3],
        )
        ||| t[0] == "vc"@ && (t[1] == "0"@ || t[1] == "1"@ || t[1] == "2"@) && all_digits(t[2])
            && all_digits(t[3])
    } else {
        false
    }
}

/// Whether the helper writes `value` to the control file `control`.
pub open spec fn value_allowed(control: Seq<char>, value: Seq<char>) -> bool {
    if control == "power_dpm_force_performance_level"@ {
        performance_level_allowed(value)
    } else if control == "pp_power_profile_mode"@ {
        all_digits(value)
    } else if control == "power1_cap"@ {
        value.len() <= 10 && all_digits(value)
    } else if control == "pwm1"@ {
        match parse_u16_spec(value) {
            Some(n) => n <= 255,
            None => false,
        }
    } else if control == "pwm1_enable"@ {
        value == "0"@ || value == "1"@ || value == "2"@
    } else if control == "pp_od_clk_voltage"@ {
        overdrive_words_allowed(words(value))
    } else {
        false
    }
}

/// The control files that the helper may write.
pub open spec fn control_allowed(control: Seq<char>) -> bool {
    ||| control == "power_dpm_force_performance_level"@
    ||| control == "pp_power_profile_mode"@
    ||| control == "pp_od_clk_voltage"@
    ||| control == "power1_cap"@
    ||| control == "pwm1"@
    ||| control == "pwm1_enable"@
}

/// Whether `value` is a PCI address that the helper accepts.
pub fn valid_pci_id(value: &str) -> (r: bool)
    ensures
        r == pci_id_valid(value@),
{
    let v = chars_of(value);
    if v.len() != 12 || v[4] != ':' || v[7] != ':' || v[10] != '.' {
        return false;
    }
    let mut i: usize = 0;
    while i < 12
        invariant
            i <= 12,
            v@ == value@,
            v.len() == 12,
            forall|j: int| 0 <= j < i && j != 4 && j != 7 && j != 10 ==> is_hex_digit(#[trigger] v@[j]),
        decreases 12 - i,
    {
        if i != 4 && i != 7 && i != 10 && !char_is_hex_digit(v[i]) {
            return false;
        }
        i = i + 1;
    }
    true
}

/// One or more ASCII digits.
pub fn unsigned(value: &str) -> (r: bool)
    ensures
        r == unsigned_spec(value@),
{
    let v = chars_of(value);
    chars_all_digits(v.as_slice())
}

fn signed_chars(v: &[char]) -> (r: bool)
    ensures
        r == signed_spec(v@),
{
    if v.len() > 0 && v[0] == '-' {
        let rest = slice_subrange(v, 1, v.len());
        assert(rest@ =~= v@.drop_first());
        chars_all_digits(rest)
    } else {
        chars_all_digits(v)
    }
}

/// An optional `-` followed by one or more ASCII digits.
pub fn signed(value: &str) -> (r: bool)
    ensures
        r == signed_spec(value@),
{
    let v = chars_of(value);
    signed_chars(v.as_slice())
}

/// The words of `s`, as `str::split_whitespace` yields them.
pub fn split_words(s: &[char]) -> (r: Vec<Vec<char>>)
    ensures
        r@.map_values(|w: Vec<char>| w@) == words(s@),
{
    let n = s.len();
    let mut out: Vec<Vec<char>> = Vec::new();
    let ghost mut acc: Seq<Seq<char>> = seq![];
    let mut pos: usize = 0;
    assert(s@.skip(0) =~= s@);
    while pos < n
        invariant
            pos <= n,
            n == s@.len(),
            out@.len() == acc.len(),
            forall|i: int| 0 <= i < acc.len() ==> #[trigger] out@[i]@ == acc[i],
            words(s@) == acc + words(s@.skip(pos as int)),
        ensures
            out@.len() == acc.len(),
            forall|i: int| 0 <= i < acc.len() ==> #[trigger] out@[i]@ == acc[i],
            words(s@) == acc,
        decreases n - pos,
    {
        let start = pos;
        while pos < n && char_is_whitespace(s[pos])
            invariant
                start <= pos <= n,
                n == s@.len(),
                forall|j: int| start <= j < pos ==> is_whitespace(#[trigger] s@[j]),
            decreases n - pos,
        {
            pos = pos + 1;
        }
        let ghost rest = s@.skip(start as int);
        proof {
            assert forall|j: int| 0 <= j < pos - start implies is_whitespace(#[trigger] rest[j]) by {}
            lemma_trim_start_skip(rest, pos - start);
            assert(rest.skip(pos - start) =~= s@.skip(pos as int));
        }
        if pos == n {
            proof {
                assert(s@.skip(pos as int) =~= Seq::<char>::empty());
                assert(trim_start(rest) =~= Seq::<char>::empty());
                assert(words(rest) =~= Seq::<Seq<char>>::empty());
                assert(acc + words(rest) =~= acc);
            }
            break;
        }
        let word_start = pos;
        while pos < n && !char_is_whitespace(s[pos])
            invariant
                word_start <= pos <= n,
                n == s@.len(),
                forall|j: int| word_start <= j < pos ==> !is_whitespace(#[trigger] s@[j]),
            decreases n - pos,
        {
            pos = pos + 1;
        }
        let word = slice_to_vec(slice_subrange(s, word_start, pos));
        proof {
            let t = s@.skip(word_start as int);
            let k = pos - word_start;
            assert forall|j: int| 0 <= j < k implies !is_whitespace(#[trigger] t[j]) by {}
            lemma_find_whitespace_at(t, k);
            assert(t.take(k) =~= word@);
            assert(t.skip(k) =~= s@.skip(pos as int));
        }
        proof {
            assert(acc + words(rest) =~= acc.push(word@) + words(s@.skip(pos as int)));
            acc = acc.push(word@);
        }
        out.push(word);
        proof {
            if pos == n {
                assert(s@.skip(pos as int) =~= Seq::<char>::empty());
                assert(words(s@.skip(pos as int)) =~= Seq::<Seq<char>>::empty());
                assert(acc + words(s@.skip(pos as int)) =~= acc);
            }
        }
    }
    proof {
        assert(out@.map_values(|w: Vec<char>| w@) =~= acc);
    }
    out
}

fn performance_level_ok(v: &[char]) -> (r: bool)
    ensures
        r == performance_level_allowed(v@),
{
    chars_eq_str(v, "auto") || chars_eq_str(v, "low") || chars_eq_str(v, "high") || chars_eq_str(
        v,
        "manual",
    ) || chars_eq_str(v, "profile_standard") || chars_eq_str(v, "profile_min_sclk")
        || chars_eq_str(v, "profile_min_mclk") || chars_eq_str(v, "profile_peak")
}

fn overdrive_words_ok(t: &Vec<Vec<char>>) -> (r: bool)
    ensures
        r == overdrive_words_allowed(t@.map_values(|w: Vec<char>| w@)),
{
    let n = t.len();
    if n == 1 {
        chars_eq_str(t[0].as_slice(), "c") || chars_eq_str(t[0].as_slice(), "r")
    } else if n == 2 {
        chars_eq_str(t[0].as_slice(), "vo") && signed_chars(t[1].as_slice())
    } else if n == 3 {
        (chars_eq_str(t[0].as_slice(), "s") || chars_eq_str(t[0].as_slice(), "m"))
            && chars_all_digits(t[1].as_slice()) && chars_all_digits(t[2].as_slice())
    } else if n == 4 {
        let point_clock_voltage = (chars_eq_str(t[0].as_slice(), "s") || chars_eq_str(
            t[0].as_slice(),
            "m",
        )) && chars_all_digits(t[1].as_slice()) && chars_all_digits(t[2].as_slice())
            && chars_all_digits(t[3].as_slice());
        let curve_point = chars_eq_str(t[0].as_slice(), "vc") && (chars_eq_str(
            t[1].as_slice(),
            "0",
        ) || chars_eq_str(t[1].as_slice(), "1") || chars_eq_str(t[1].as_slice(), "2"))
            && chars_all_digits(t[2].as_slice()) && chars_all_digits(t[3].as_slice());
        point_clock_voltage || curve_point
    } else {
        false
    }
}

/// Whether the helper accepts `value` for the control file `control`.
pub fn valid_value(control: &str, value: &str) -> (r: bool)
    ensures
        r == value_allowed(control@, value@),
{
    let c = chars_of(control);
    let v = chars_of(value);
    let c = c.as_slice();
    let v = v.as_slice();
    if chars_eq_str(c, "power_dpm_force_performance_level") {
        performance_level_ok(v)
    } else if chars_eq_str(c, "pp_power_profile_mode") {
        chars_all_digits(v)
    } else if chars_eq_str(c, "power1_cap") {
        v.len() <= 10 && chars_all_digits(v)
    } else if chars_eq_str(c, "pwm1") {
        match parse_u16(v) {
            Some(n) => n <= 255,
            None => false,
        }
    } else if chars_eq_str(c, "pwm1_enable") {
        chars_eq_str(v, "0") || chars_eq_str(v, "1") || chars_eq_str(v, "2")
    } else if chars_eq_str(c, "pp_od_clk_voltage") {
        let tokens = split_words(v);
        overdrive_words_ok(&tokens)
    } else {
        false
    }
}

/// Whether `control` is one of the files the helper may write.
pub fn control_is_allowed(control: &str) -> (r: bool)
    ensures
        r == control_allowed(control@),
{
    let c = chars_of(control);
    let c = c.as_slice();
    chars_eq_str(c, "power_dpm_force_performance_level") || chars_eq_str(c, "pp_power_profile_mode")
        || chars_eq_str(c, "pp_od_clk_voltage") || chars_eq_str(c, "power1_cap") || chars_eq_str(
        c,
        "pwm1",
    ) || chars_eq_str(c, "pwm1_enable")
}

/// Why the helper refuses a write.
#[derive(Clone, Copy, Debug, PartialEq, Eq, Structural)]
pub enum HelperError {
    ValueRejected,
    ControlRejected,
    InvalidPci,
    DrmMissing,
    NotAmdgpu,
    GpuNotFound,
    ControlMissing,
}

pub open spec fn helper_message(e: HelperError) -> Seq<char> {
    match e {
        HelperError::ValueRejected => "valor não permitido"@,
        HelperError::ControlRejected => "controle não permitido"@,
        HelperError::InvalidPci => "endereço PCI inválido"@,
        HelperError::DrmMissing => "diretório DRM não encontrado"@,
        HelperError::NotAmdgpu => "o dispositivo não usa o driver amdgpu"@,
        HelperError::GpuNotFound => "GPU AMD não encontrada"@,
        HelperError::ControlMissing => "controle não encontrado"@,
    }
}

impl HelperError {
    /// The message the helper prints for this refusal.
    pub fn message(&self) -> (r: &'static str)
        ensures
            r@ == helper_message(*self),
    {
        match self {
            HelperError::ValueRejected => "valor não permitido",
            HelperError::ControlRejected => "controle não permitido",
            HelperError::InvalidPci => "endereço PCI inválido",
            HelperError::DrmMissing => "diretório DRM não encontrado",
            HelperError::NotAmdgpu => "o dispositivo não usa o driver amdgpu",
            HelperError::GpuNotFound => "GPU AMD não encontrada",
            HelperError::ControlMissing => "controle não encontrado",
        }
    }
}

/// One `hwmon*` directory of the located device: the trimmed text of its
/// `name` file and whether the requested control is a file in it.
pub struct HwmonDir {
    pub name_text: String,
    pub has_control: bool,
}

/// Where the requested control file was looked for on one card: directly in
/// the device directory, and in the `hwmon` directories in listing order
/// (`None` when `device/hwmon` could not be listed).
pub struct ControlProbe {
    pub direct_is_file: bool,
    pub hwmon: Option<Vec<HwmonDir>>,
}

/// An entry of the DRM class directory as the helper sees it.
pub struct DrmCard {
    pub entry: CardEntry,
    pub control: ControlProbe,
}

/// Where the control file to write is.
#[derive(Clone, Copy, Debug, PartialEq, Eq, Structural)]
pub enum ControlSite {
    /// In the device directory.
    Direct,
    /// In the hwmon directory at this position of the listing.
    Hwmon(usize),
}

/// `card<digits>`.
pub open spec fn card_name_ok(name: Seq<char>) -> bool {
    name.len() >= 4 && name.take(4) == seq!['c', 'a', 'r', 'd'] && all_digits(name.skip(4))
}

/// The card entry whose `device` link resolves to the PCI address `pci`.
pub open spec fn device_matches(e: CardEntry, pci: Seq<char>) -> bool {
    &&& card_name_ok(e.name@)
    &&& match e.device_target {
        Some(t) => file_name(t@) == Some(pci),
        None => false,
    }
}

/// Position of the first card entry for `pci`, or the length.
pub open spec fn first_device(cs: Seq<DrmCard>, pci: Seq<char>) -> int
    decreases cs.len(),
{
    if cs.len() == 0 {
        0
    } else if device_matches(cs[0].entry, pci) {
        0
    } else {
        1 + first_device(cs.drop_first(), pci)
    }
}

/// The card for the PCI address, in the DRM directory's listing
/// (`None` when it could not be listed).
pub open spec fn locate_device_spec(pci: Seq<char>, cards: Option<Seq<DrmCard>>) -> Result<
    int,
    HelperError,
> {
    if !pci_id_valid(pci) {
        Err(HelperError::InvalidPci)
    } else {
        match cards {
            None => Err(HelperError::DrmMissing),
            Some(cs) => {
                let i = first_device(cs, pci);
                if i >= cs.len() {
                    Err(HelperError::GpuNotFound)
                } else if is_amd_device(cs[i].entry) {
                    Ok(i)
                } else {
                    Err(HelperError::NotAmdgpu)
                }
            },
        }
    }
}

/// Position of the first amdgpu hwmon directory holding the control, or the
/// length.
pub open spec fn first_hwmon_with_control(hs: Seq<HwmonDir>) -> int
    decreases hs.len(),
{
    if hs.len() == 0 {
        0
    } else if hs[0].name_text@ == "amdgpu"@ && hs[0].has_control {
        0
    } else {
        1 + first_hwmon_with_control(hs.drop_first())
    }
}

/// Where the control is on the located card.
pub open spec fn locate_control_spec(p: ControlProbe) -> Result<ControlSite, HelperError> {
    if p.direct_is_file {
        Ok(ControlSite::Direct)
    } else {
        match p.hwmon {
            None => Err(HelperError::ControlMissing),
            Some(hs) => {
                let j = first_hwmon_with_control(hs@);
                if j < hs@.len() {
                    Ok(ControlSite::Hwmon(j as usize))
                } else {
                    Err(HelperError::ControlMissing)
                }
            },
        }
    }
}

/// The checks that need no filesystem: the value, the control, the address.
pub open spec fn request_spec(control: Seq<char>, value: Seq<char>, pci: Seq<char>) -> Result<
    (),
    HelperError,
> {
    if !value_allowed(control, value) {
        Err(HelperError::ValueRejected)
    } else if !control_allowed(control) {
        Err(HelperError::ControlRejected)
    } else if !pci_id_valid(pci) {
        Err(HelperError::InvalidPci)
    } else {
        Ok(())
    }
}

/// The card and file that a write of `value` to `control` on `pci` goes to,
/// or why it is refused.
pub open spec fn write_target_spec(
    control: Seq<char>,
    value: Seq<char>,
    pci: Seq<char>,
    cards: Option<Seq<DrmCard>>,
) -> Result<(int, ControlSite), HelperError> {
    if !value_allowed(control, value) {
        Err(HelperError::ValueRejected)
    } else if !control_allowed(control) {
        Err(HelperError::ControlRejected)
    } else {
        match locate_device_spec(pci, cards) {
            Err(e) => Err(e),
            Ok(i) => match locate_control_spec(cards->Some_0[i].control) {
                Err(e) => Err(e),
                Ok(site) => Ok((i, site)),
            },
        }
    }
}

pub open spec fn cards_view(cards: Option<&Vec<DrmCard>>) -> Option<Seq<DrmCard>> {
    match cards {
        Some(c) => Some(c@),
        None => None,
    }
}

/// The checks on the request itself, made before the helper touches the
/// filesystem.
pub fn check_request(control: &str, value: &str, pci_id: &str) -> (r: Result<(), HelperError>)
    ensures
        r == request_spec(control@, value@, pci_id@),
{
    if !valid_value(control, value) {
        return Err(HelperError::ValueRejected);
    }
    if !control_is_allowed(control) {
        return Err(HelperError::ControlRejected);
    }
    if !valid_pci_id(pci_id) {
        return Err(HelperError::InvalidPci);
    }
    Ok(())
}

fn card_name_ok_exec(name: &str) -> (r: bool)
    ensures
        r == card_name_ok(name@),
{
    let v = chars_of(name);
    let v = v.as_slice();
    if v.len() < 4 || v[0] != 'c' || v[1] != 'a' || v[2] != 'r' || v[3] != 'd' {
        proof {
            if v@.len() >= 4 {
                let p = seq!['c', 'a', 'r', 'd'];
                assert(v@.take(4) != p);
            }
        }
        return false;
    }
    assert(v@.take(4) =~= seq!['c', 'a', 'r', 'd']);
    let suffix = slice_subrange(v, 4, v.len());
    assert(suffix@ =~= v@.skip(4));
    chars_all_digits(suffix)
}

fn device_matches_exec(e: &CardEntry, pci_id: &str) -> (r: bool)
    ensures
        r == device_matches(*e, pci_id@),
{
    if !card_name_ok_exec(e.name.as_str()) {
        return false;
    }
    match &e.device_target {
        Some(t) => match last_component(t.as_str()) {
            Some(n) => crate::text::str_eq(n.as_str(), pci_id),
            None => false,
        },
        None => false,
    }
}

/// The position of the card for `pci_id` among the DRM directory's entries
/// (`None` when the directory could not be listed).
pub fn locate_device(pci_id: &str, cards: Option<&Vec<DrmCard>>) -> (r: Result<usize, HelperError>)
    ensures
        match r {
            Ok(i) => locate_device_spec(pci_id@, cards_view(cards)) == Ok::<int, HelperError>(i as int),
            Err(e) => locate_device_spec(pci_id@, cards_view(cards)) == Err::<int, HelperError>(e),
        },
{
    if !valid_pci_id(pci_id) {
        return Err(HelperError::InvalidPci);
    }
    let cs = match cards {
        Some(cs) => cs,
        None => return Err(HelperError::DrmMissing),
    };
    let mut i: usize = 0;
    assert(cs@.skip(0) =~= cs@);
    while i < cs.len()
        invariant
            i <= cs.len(),
            first_device(cs@, pci_id@) == i + first_device(cs@.skip(i as int), pci_id@),
            cards == Some(cs),
            pci_id_valid(pci_id@),
        decreases cs.len() - i,
    {
        if device_matches_exec(&cs[i].entry, pci_id) {
            if is_amd_device_exec(&cs[i].entry) {
                return Ok(i);
            } else {
                return Err(HelperError::NotAmdgpu);
            }
        }
        assert(cs@.skip(i as int).drop_first() =~= cs@.skip(i + 1));
        i = i + 1;
    }
    assert(cs@.skip(i as int) =~= Seq::<DrmCard>::empty());
    Err(HelperError::GpuNotFound)
}

/// Where the requested control file is on the located card.
pub fn locate_control(probe: &ControlProbe) -> (r: Result<ControlSite, HelperError>)
    ensures
        r == locate_control_spec(*probe),
{
    if probe.direct_is_file {
        return Ok(ControlSite::Direct);
    }
    let hs = match &probe.hwmon {
        Some(hs) => hs,
        None => return Err(HelperError::ControlMissing),
    };
    let mut j: usize = 0;
    assert(hs@.skip(0) =~= hs@);
    while j < hs.len()
        invariant
            j <= hs.len(),
            first_hwmon_with_control(hs@) == j + first_hwmon_with_control(hs@.skip(j as int)),
            probe.hwmon == Some(*hs),
            !probe.direct_is_file,
        decreases hs.len() - j,
    {
        let n = chars_of(hs[j].name_text.as_str());
        if chars_eq_str(n.as_slice(), "amdgpu") && hs[j].has_control {
            return Ok(ControlSite::Hwmon(j));
        }
        assert(hs@.skip(j as int).drop_first() =~= hs@.skip(j + 1));
        j = j + 1;
    }
    assert(hs@.skip(j as int) =~= Seq::<HwmonDir>::empty());
    Err(HelperError::ControlMissing)
}

/// The card and the file that the helper writes `value` to for the control
/// `control` of the card `pci_id`, or why it refuses.
pub fn write_control(control: &str, value: &str, pci_id: &str, cards: Option<&Vec<DrmCard>>) -> (r:
    Result<(usize, ControlSite), HelperError>)
    ensures
        match r {
            Ok((i, site)) => write_target_spec(control@, value@, pci_id@, cards_view(cards)) == Ok::<(int, ControlSite), HelperError>((i as int, site)),
            Err(e) => write_target_spec(control@, value@, pci_id@, cards_view(cards)) == Err::<(int, ControlSite), HelperError>(e),
        },
{
    if !valid_value(control, value) {
        return Err(HelperError::ValueRejected);
    }
    if !control_is_allowed(control) {
        return Err(HelperError::ControlRejected);
    }
    let i = match locate_device(pci_id, cards) {
        Ok(i) => i,
        Err(e) => return Err(e),
    };
    let cs = match cards {
        Some(cs) => cs,
        None => return Err(HelperError::DrmMissing),
    };
    match locate_control(&cs[i].control) {
        Ok(site) => Ok((i, site)),
        Err(e) => Err(e),
    }
}

/// How a run of the helper ended.
pub enum HelperOutcome {
    /// It was not given exactly a PCI address, a control and a value.
    Usage,
    /// The value was written.
    Written,
    /// It refused the request.
    Refused(HelperError),
    /// The system refused to open or write the control file for lack of
    /// permission.
    PermissionDenied,
    /// Opening or writing the control file failed otherwise; the text
    /// describes the error.
    Failed(String),
}

/// The exit status for each outcome: 64 for a wrong invocation, 77 to ask
/// for authorization, 1 for any other failure.
pub open spec fn exit_status_spec(o: HelperOutcome) -> u8 {
    match o {
        HelperOutcome::Usage => 64,
        HelperOutcome::Written => 0,
        HelperOutcome::PermissionDenied => 77,
        _ => 1,
    }
}

/// The line printed on standard error for each outcome.
pub open spec fn exit_message_spec(o: HelperOutcome) -> Option<Seq<char>> {
    match o {
        HelperOutcome::Usage => Some("uso: amdgpu-control-helper <pci> <controle> <valor>"@),
        HelperOutcome::Written => None,
        HelperOutcome::Refused(e) => Some(helper_message(e)),
        HelperOutcome::PermissionDenied => Some("este ajuste precisa de autorização do Polkit"@),
        HelperOutcome::Failed(t) => Some(t@),
    }
}

/// The exit status of the helper and the line it prints for an outcome.
pub fn exit_report(o: &HelperOutcome) -> (r: (u8, Option<String>))
    ensures
        r.0 == exit_status_spec(*o),
        match r.1 {
            Some(m) => exit_message_spec(*o) == Some(m@),
            None => exit_message_spec(*o) is None,
        },
{
    match o {
        HelperOutcome::Usage => (64, Some(String::from_str("uso: amdgpu-control-helper <pci> <controle> <valor>"))),
        HelperOutcome::Written => (0, None),
        HelperOutcome::Refused(e) => (1, Some(String::from_str(e.message()))),
        HelperOutcome::PermissionDenied => (77, Some(String::from_str("este ajuste precisa de autorização do Polkit"))),
        HelperOutcome::Failed(t) => (1, Some(t.clone())),
    }
}

} // verus!
