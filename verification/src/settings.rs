//! The saved settings: per-card tuning keyed by PCI address and the
//! selected card, with the edits the application makes to them.

use vstd::prelude::*;
use crate::paths::{config_base, config_dir, join, join_path, opt_chars};
use crate::text::str_eq;
use crate::writer::PendingChanges;

verus! {

/// The tuning saved for one card.
#[derive(Clone, Debug, Default, PartialEq)]
pub struct DeviceSettings {
    pub performance: Option<String>,
    pub profile: Option<u32>,
    pub power_watts: Option<i32>,
    pub fan_automatic: Option<bool>,
    pub fan_percent: Option<i32>,
    pub sclk_min: Option<i32>,
    pub sclk_max: Option<i32>,
    pub mclk_max: Option<i32>,
    pub voltage_offset: Option<i32>,
}

/// `DeviceSettings` with its text as characters.
pub struct DeviceSettingsView {
    pub performance: Option<Seq<char>>,
    pub profile: Option<u32>,
    pub power_watts: Option<i32>,
    pub fan_automatic: Option<bool>,
    pub fan_percent: Option<i32>,
    pub sclk_min: Option<i32>,
    pub sclk_max: Option<i32>,
    pub mclk_max: Option<i32>,
    pub voltage_offset: Option<i32>,
}

pub open spec fn opt_text(s: Option<String>) -> Option<Seq<char>> {
    match s {
        Some(s) => Some(s@),
        None => None,
    }
}

impl View for DeviceSettings {
    type V = DeviceSettingsView;

    open spec fn view(&self) -> DeviceSettingsView {
        DeviceSettingsView {
            performance: opt_text(self.performance),
            profile: self.profile,
            power_watts: self.power_watts,
            fan_automatic: self.fan_automatic,
            fan_percent: self.fan_percent,
            sclk_min: self.sclk_min,
            sclk_max: self.sclk_max,
            mclk_max: self.mclk_max,
            voltage_offset: self.voltage_offset,
        }
    }
}

/// Settings of a card that has none saved.
pub open spec fn empty_device_view() -> DeviceSettingsView {
    DeviceSettingsView {
        performance: None,
        profile: None,
        power_watts: None,
        fan_automatic: None,
        fan_percent: None,
        sclk_min: None,
        sclk_max: None,
        mclk_max: None,
        voltage_offset: None,
    }
}

/// What saving applied changes does to a card's settings: each pending
/// value replaces the saved one, and any clock or voltage change also saves
/// the manual performance level that it needs.
pub open spec fn merge_spec(saved: DeviceSettingsView, p: PendingChanges) -> DeviceSettingsView {
    let overdrive = p.sclk_min is Some || p.sclk_max is Some || p.mclk_max is Some
        || p.voltage_offset is Some;
    DeviceSettingsView {
        performance: if overdrive {
            Some("manual"@)
        } else {
            match p.performance {
                Some(v) => Some(v@),
                None => saved.performance,
            }
        },
        profile: if p.profile is Some {
            p.profile
        } else {
            saved.profile
        },
        power_watts: if p.power_watts is Some {
            p.power_watts
        } else {
            saved.power_watts
        },
        fan_automatic: if p.fan_automatic is Some {
            p.fan_automatic
        } else {
            saved.fan_automatic
        },
        fan_percent: if p.fan_percent is Some {
            p.fan_percent
        } else {
            saved.fan_percent
        },
        sclk_min: if p.sclk_min is Some {
            p.sclk_min
        } else {
            saved.sclk_min
        },
        sclk_max: if p.sclk_max is Some {
            p.sclk_max
        } else {
            saved.sclk_max
        },
        mclk_max: if p.mclk_max is Some {
            p.mclk_max
        } else {
            saved.mclk_max
        },
        voltage_offset: if p.voltage_offset is Some {
            p.voltage_offset
        } else {
            saved.voltage_offset
        },
    }
}

/// Saving applied changes keeps every one of them: each field the pending
/// changes set is saved with that value, every other field keeps its saved
/// value; the performance level saved is the pending one, or `manual` when
/// an overdrive value (clock or voltage offset) is among the changes, since
/// those are applied under the manual level.
pub proof fn lemma_merge_keeps_changes(saved: DeviceSettingsView, p: PendingChanges)
    ensures
        ({
            let m = merge_spec(saved, p);
            &&& p.profile matches Some(x) ==> m.profile == Some(x)
            &&& p.power_watts matches Some(x) ==> m.power_watts == Some(x)
            &&& p.fan_automatic matches Some(x) ==> m.fan_automatic == Some(x)
            &&& p.fan_percent matches Some(x) ==> m.fan_percent == Some(x)
            &&& p.sclk_min matches Some(x) ==> m.sclk_min == Some(x)
            &&& p.sclk_max matches Some(x) ==> m.sclk_max == Some(x)
            &&& p.mclk_max matches Some(x) ==> m.mclk_max == Some(x)
            &&& p.voltage_offset matches Some(x) ==> m.voltage_offset == Some(x)
            &&& p.profile is None ==> m.profile == saved.profile
            &&& p.power_watts is None ==> m.power_watts == saved.power_watts
            &&& p.fan_automatic is None ==> m.fan_automatic == saved.fan_automatic
            &&& p.fan_percent is None ==> m.fan_percent == saved.fan_percent
            &&& p.sclk_min is None ==> m.sclk_min == saved.sclk_min
            &&& p.sclk_max is None ==> m.sclk_max == saved.sclk_max
            &&& p.mclk_max is None ==> m.mclk_max == saved.mclk_max
            &&& p.voltage_offset is None ==> m.voltage_offset == saved.voltage_offset
            &&& (p.sclk_min is Some || p.sclk_max is Some || p.mclk_max is Some
                || p.voltage_offset is Some) ==> m.performance == Some("manual"@)
            &&& !(p.sclk_min is Some || p.sclk_max is Some || p.mclk_max is Some
                || p.voltage_offset is Some) ==> m.performance == match p.performance {
                Some(v) => Some(v@),
                None => saved.performance,
            }
        }),
{
}

/// After `update_device`, the card's saved settings hold every pending
/// change (as `lemma_merge_keeps_changes` says of the merge), starting
/// from empty settings for a card that had none; other cards and the
/// selection are untouched.
pub proof fn lemma_update_saves_changes(before: SettingsView, after: SettingsView, pci: Seq<char>, p: PendingChanges)
    requires
        after.selected_gpu == before.selected_gpu,
        after.devices == before.devices.insert(
            pci,
            merge_spec(
                if before.devices.contains_key(pci) {
                    before.devices[pci]
                } else {
                    empty_device_view()
                },
                p,
            ),
        ),
    ensures
        after.devices.contains_key(pci),
        p.power_watts matches Some(x) ==> after.devices[pci].power_watts == Some(x),
        p.profile matches Some(x) ==> after.devices[pci].profile == Some(x),
        p.fan_automatic matches Some(x) ==> after.devices[pci].fan_automatic == Some(x),
        p.fan_percent matches Some(x) ==> after.devices[pci].fan_percent == Some(x),
        p.sclk_min matches Some(x) ==> after.devices[pci].sclk_min == Some(x),
        p.sclk_max matches Some(x) ==> after.devices[pci].sclk_max == Some(x),
        p.mclk_max matches Some(x) ==> after.devices[pci].mclk_max == Some(x),
        p.voltage_offset matches Some(x) ==> after.devices[pci].voltage_offset == Some(x),
        forall|k: Seq<char>| k != pci ==> (#[trigger] after.devices.contains_key(k)
            == before.devices.contains_key(k)) && (before.devices.contains_key(k)
            ==> after.devices[k] == before.devices[k]),
{
    lemma_merge_keeps_changes(
        if before.devices.contains_key(pci) {
            before.devices[pci]
        } else {
            empty_device_view()
        },
        p,
    );
}

/// Saves applied changes into a card's settings.
pub fn merge_settings(saved: &mut DeviceSettings, pending: &PendingChanges)
    ensures
        final(saved)@ == merge_spec(old(saved)@, *pending),
{
    if let Some(value) = &pending.performance {
        saved.performance = Some(value.clone());
    }
    if let Some(value) = pending.profile {
        saved.profile = Some(value);
    }
    if let Some(value) = pending.power_watts {
        saved.power_watts = Some(value);
    }
    if let Some(value) = pending.fan_automatic {
        saved.fan_automatic = Some(value);
    }
    if let Some(value) = pending.fan_percent {
        saved.fan_percent = Some(value);
    }
    if let Some(value) = pending.sclk_min {
        saved.sclk_min = Some(value);
        saved.performance = Some(String::from_str("manual"));
    }
    if let Some(value) = pending.sclk_max {
        saved.sclk_max = Some(value);
        saved.performance = Some(String::from_str("manual"));
    }
    if let Some(value) = pending.mclk_max {
        saved.mclk_max = Some(value);
        saved.performance = Some(String::from_str("manual"));
    }
    if let Some(value) = pending.voltage_offset {
        saved.voltage_offset = Some(value);
        saved.performance = Some(String::from_str("manual"));
    }
}

/// Application-wide settings.
#[derive(Clone, Debug, Default, PartialEq)]
pub struct AppSettings {
    pub selected_gpu: Option<String>,
}

/// Whether the application settings hold nothing, in which case the
/// settings file leaves them out.
pub fn app_settings_empty(settings: &AppSettings) -> (r: bool)
    ensures
        r == (settings.selected_gpu is None),
{
    settings.selected_gpu.is_none()
}

/// The saved settings of one card, under its PCI address.
#[derive(Clone, Debug)]
pub struct DeviceEntry {
    pub pci_id: String,
    pub settings: DeviceSettings,
}

/// The whole settings file: the application settings and, per PCI address,
/// a card's settings (each address at most once).
#[derive(Clone, Debug)]
pub struct SettingsFile {
    pub app: AppSettings,
    pub devices: Vec<DeviceEntry>,
}

/// The card settings by PCI address.
pub open spec fn devices_view(es: Seq<DeviceEntry>) -> Map<Seq<char>, DeviceSettingsView>
    decreases es.len(),
{
    if es.len() == 0 {
        Map::empty()
    } else {
        devices_view(es.drop_last()).insert(es.last().pci_id@, es.last().settings@)
    }
}

/// No PCI address occurs twice.
pub open spec fn keys_unique(es: Seq<DeviceEntry>) -> bool {
    forall|i: int, j: int|
        0 <= i < es.len() && 0 <= j < es.len() && i != j ==> (#[trigger] es[i]).pci_id@ != (
        #[trigger] es[j]).pci_id@
}

/// `SettingsFile` as values: the selected card and the card settings.
pub struct SettingsView {
    pub selected_gpu: Option<Seq<char>>,
    pub devices: Map<Seq<char>, DeviceSettingsView>,
}

impl View for SettingsFile {
    type V = SettingsView;

    open spec fn view(&self) -> SettingsView {
        SettingsView {
            selected_gpu: opt_text(self.app.selected_gpu),
            devices: devices_view(self.devices@),
        }
    }
}

impl SettingsFile {
    /// No PCI address occurs twice.
    pub open spec fn wf(&self) -> bool {
        keys_unique(self.devices@)
    }

    /// Empty settings.
    pub fn new() -> (r: SettingsFile)
        ensures
            r.wf(),
            r@.selected_gpu is None,
            r@.devices == Map::<Seq<char>, DeviceSettingsView>::empty(),
    {
        SettingsFile { app: AppSettings { selected_gpu: None }, devices: Vec::new() }
    }

    /// The saved settings of the card `pci_id`.
    pub fn device(&self, pci_id: &str) -> (r: Option<&DeviceSettings>)
        requires
            self.wf(),
        ensures
            match r {
                Some(d) => self@.devices.contains_key(pci_id@) && self@.devices[pci_id@] == d@,
                None => !self@.devices.contains_key(pci_id@),
            },
    {
        match position(&self.devices, pci_id) {
            Some(i) => {
                proof {
                    lemma_devices_view_at(self.devices@, i as int);
                }
                Some(&self.devices[i].settings)
            },
            None => {
                proof {
                    lemma_devices_view_absent(self.devices@, pci_id@);
                }
                None
            },
        }
    }
}

impl Default for SettingsFile {
    fn default() -> (r: SettingsFile)
        ensures
            r.wf(),
            r@.selected_gpu is None,
            r@.devices == Map::<Seq<char>, DeviceSettingsView>::empty(),
    {
        SettingsFile::new()
    }
}

/// The position of the entry for `pci_id`.
fn position(es: &Vec<DeviceEntry>, pci_id: &str) -> (r: Option<usize>)
    ensures
        match r {
            Some(i) => i < es@.len() && es@[i as int].pci_id@ == pci_id@,
            None => forall|i: int| 0 <= i < es@.len() ==> (#[trigger] es@[i]).pci_id@ != pci_id@,
        },
{
    let mut i: usize = 0;
    while i < es.len()
        invariant
            i <= es.len(),
            forall|j: int| 0 <= j < i ==> (#[trigger] es@[j]).pci_id@ != pci_id@,
        decreases es.len() - i,
    {
        if str_eq(es[i].pci_id.as_str(), pci_id) {
            return Some(i);
        }
        i = i + 1;
    }
    None
}

proof fn lemma_devices_view_absent(es: Seq<DeviceEntry>, k: Seq<char>)
    requires
        forall|i: int| 0 <= i < es.len() ==> (#[trigger] es[i]).pci_id@ != k,
    ensures
        !devices_view(es).contains_key(k),
    decreases es.len(),
{
    if es.len() > 0 {
        assert forall|i: int| 0 <= i < es.drop_last().len() implies (#[trigger] es.drop_last()[i]).pci_id@ != k by {}
        lemma_devices_view_absent(es.drop_last(), k);
    }
}

proof fn lemma_devices_view_at(es: Seq<DeviceEntry>, i: int)
    requires
        keys_unique(es),
        0 <= i < es.len(),
    ensures
        devices_view(es).contains_key(es[i].pci_id@),
        devices_view(es)[es[i].pci_id@] == es[i].settings@,
    decreases es.len(),
{
    let last = es.len() - 1;
    if i < last {
        assert forall|a: int, b: int|
            0 <= a < es.drop_last().len() && 0 <= b < es.drop_last().len() && a != b implies (
            #[trigger] es.drop_last()[a]).pci_id@ != (#[trigger] es.drop_last()[b]).pci_id@ by {}
        lemma_devices_view_at(es.drop_last(), i);
    }
}

proof fn lemma_keys_unique_drop_last(es: Seq<DeviceEntry>)
    requires
        keys_unique(es),
        es.len() > 0,
    ensures
        keys_unique(es.drop_last()),
{
    assert forall|a: int, b: int|
        0 <= a < es.drop_last().len() && 0 <= b < es.drop_last().len() && a != b implies (
        #[trigger] es.drop_last()[a]).pci_id@ != (#[trigger] es.drop_last()[b]).pci_id@ by {}
}

proof fn lemma_devices_view_update(es: Seq<DeviceEntry>, i: int, e: DeviceEntry)
    requires
        keys_unique(es),
        0 <= i < es.len(),
        e.pci_id@ == es[i].pci_id@,
    ensures
        keys_unique(es.update(i, e)),
        devices_view(es.update(i, e)) == devices_view(es).insert(e.pci_id@, e.settings@),
    decreases es.len(),
{
    let u = es.update(i, e);
    assert forall|a: int, b: int| 0 <= a < u.len() && 0 <= b < u.len() && a != b implies (
    #[trigger] u[a]).pci_id@ != (#[trigger] u[b]).pci_id@ by {}
    let last = es.len() - 1;
    if i == last {
        assert(u.drop_last() =~= es.drop_last());
        lemma_keys_unique_drop_last(es);
        if devices_view(es.drop_last()).contains_key(e.pci_id@) {
            assert(false) by {
                lemma_devices_view_contains(es.drop_last(), e.pci_id@);
            }
        }
        assert(devices_view(u) =~= devices_view(es).insert(e.pci_id@, e.settings@));
    } else {
        lemma_keys_unique_drop_last(es);
        assert(u.drop_last() =~= es.drop_last().update(i, e));
        lemma_devices_view_update(es.drop_last(), i, e);
        assert(devices_view(u) =~= devices_view(es).insert(e.pci_id@, e.settings@));
    }
}

proof fn lemma_devices_view_contains(es: Seq<DeviceEntry>, k: Seq<char>)
    ensures
        devices_view(es).contains_key(k) ==> exists|j: int| 0 <= j < es.len() && (#[trigger] es[j]).pci_id@ == k,
    decreases es.len(),
{
    if es.len() > 0 {
        lemma_devices_view_contains(es.drop_last(), k);
    }
}

proof fn lemma_devices_view_remove(es: Seq<DeviceEntry>, i: int)
    requires
        keys_unique(es),
        0 <= i < es.len(),
    ensures
        keys_unique(es.remove(i)),
        devices_view(es.remove(i)) == devices_view(es).remove(es[i].pci_id@),
    decreases es.len(),
{
    let r = es.remove(i);
    let k = es[i].pci_id@;
    assert forall|a: int, b: int| 0 <= a < r.len() && 0 <= b < r.len() && a != b implies (
    #[trigger] r[a]).pci_id@ != (#[trigger] r[b]).pci_id@ by {}
    let last = es.len() - 1;
    lemma_keys_unique_drop_last(es);
    if i == last {
        assert(r =~= es.drop_last());
        if devices_view(es.drop_last()).contains_key(k) {
            assert(false) by {
                lemma_devices_view_contains(es.drop_last(), k);
            }
        }
        assert(devices_view(r) =~= devices_view(es).remove(k));
    } else {
        assert(r.drop_last() =~= es.drop_last().remove(i));
        lemma_devices_view_remove(es.drop_last(), i);
        assert(devices_view(r) =~= devices_view(es).remove(k));
    }
}

/// Saves applied changes for the card `pci_id`, starting from empty settings
/// when it had none.
pub fn update_device(settings: &mut SettingsFile, pci_id: &str, pending: &PendingChanges)
    requires
        old(settings).wf(),
    ensures
        final(settings).wf(),
        final(settings)@.selected_gpu == old(settings)@.selected_gpu,
        final(settings)@.devices == old(settings)@.devices.insert(
            pci_id@,
            merge_spec(
                if old(settings)@.devices.contains_key(pci_id@) {
                    old(settings)@.devices[pci_id@]
                } else {
                    empty_device_view()
                },
                *pending,
            ),
        ),
{
    match position(&settings.devices, pci_id) {
        Some(i) => {
            proof {
                lemma_devices_view_at(settings.devices@, i as int);
            }
            let mut entry = DeviceEntry {
                pci_id: settings.devices[i].pci_id.clone(),
                settings: copy_settings(&settings.devices[i].settings),
            };
            merge_settings(&mut entry.settings, pending);
            let ghost before = settings.devices@;
            settings.devices.set(i, entry);
            proof {
                lemma_devices_view_update(before, i as int, settings.devices@[i as int]);
                assert(settings.devices@ =~= before.update(i as int, settings.devices@[i as int]));
            }
        },
        None => {
            proof {
                lemma_devices_view_absent(settings.devices@, pci_id@);
            }
            let mut fresh = DeviceSettings {
                performance: None,
                profile: None,
                power_watts: None,
                fan_automatic: None,
                fan_percent: None,
                sclk_min: None,
                sclk_max: None,
                mclk_max: None,
                voltage_offset: None,
            };
            merge_settings(&mut fresh, pending);
            let ghost before = settings.devices@;
            settings.devices.push(DeviceEntry { pci_id: String::from_str(pci_id), settings: fresh });
            proof {
                assert(settings.devices@.drop_last() =~= before);
                assert forall|a: int, b: int|
                    0 <= a < settings.devices@.len() && 0 <= b < settings.devices@.len() && a != b implies (
                    #[trigger] settings.devices@[a]).pci_id@ != (#[trigger] settings.devices@[b]).pci_id@ by {}
            }
        },
    }
}

/// A copy of a card's settings.
pub fn copy_settings(d: &DeviceSettings) -> (r: DeviceSettings)
    ensures
        r@ == d@,
{
    DeviceSettings {
        performance: match &d.performance {
            Some(p) => Some(p.clone()),
            None => None,
        },
        profile: d.profile,
        power_watts: d.power_watts,
        fan_automatic: d.fan_automatic,
        fan_percent: d.fan_percent,
        sclk_min: d.sclk_min,
        sclk_max: d.sclk_max,
        mclk_max: d.mclk_max,
        voltage_offset: d.voltage_offset,
    }
}

/// Forgets the saved settings of the card `pci_id`.
pub fn clear_device(settings: &mut SettingsFile, pci_id: &str)
    requires
        old(settings).wf(),
    ensures
        final(settings).wf(),
        final(settings)@.selected_gpu == old(settings)@.selected_gpu,
        final(settings)@.devices == old(settings)@.devices.remove(pci_id@),
{
    match position(&settings.devices, pci_id) {
        Some(i) => {
            let ghost before = settings.devices@;
            settings.devices.remove(i);
            proof {
                lemma_devices_view_remove(before, i as int);
            }
        },
        None => {
            proof {
                lemma_devices_view_absent(settings.devices@, pci_id@);
                assert(devices_view(settings.devices@) =~= devices_view(settings.devices@).remove(pci_id@));
            }
        },
    }
}

/// Remembers the card `pci_id` as the selected one.
pub fn set_selected_gpu(settings: &mut SettingsFile, pci_id: &str)
    ensures
        final(settings).wf() == old(settings).wf(),
        final(settings)@.selected_gpu == Some(pci_id@),
        final(settings)@.devices == old(settings)@.devices,
{
    settings.app.selected_gpu = Some(String::from_str(pci_id));
}

/// Adds or replaces the settings of one card.
fn insert_entry(settings: &mut SettingsFile, entry: DeviceEntry)
    requires
        old(settings).wf(),
    ensures
        final(settings).wf(),
        final(settings)@.selected_gpu == old(settings)@.selected_gpu,
        final(settings)@.devices == old(settings)@.devices.insert(
            entry.pci_id@,
            entry.settings@,
        ),
{
    match position(&settings.devices, entry.pci_id.as_str()) {
        Some(i) => {
            let ghost before = settings.devices@;
            let ghost e = entry;
            settings.devices.set(i, entry);
            proof {
                lemma_devices_view_update(before, i as int, e);
                assert(settings.devices@ =~= before.update(i as int, e));
            }
        },
        None => {
            proof {
                lemma_devices_view_absent(settings.devices@, entry.pci_id@);
            }
            let ghost before = settings.devices@;
            settings.devices.push(entry);
            proof {
                assert(settings.devices@.drop_last() =~= before);
                assert forall|a: int, b: int|
                    0 <= a < settings.devices@.len() && 0 <= b < settings.devices@.len() && a != b implies (
                    #[trigger] settings.devices@[a]).pci_id@ != (#[trigger] settings.devices@[b]).pci_id@ by {}
            }
        },
    }
}

/// The settings in effect: the ones read from the settings file, or empty
/// settings when it could not be read or parsed. A card listed more than
/// once keeps its last entry, as a JSON object read into a map does.
pub fn load(read: Option<SettingsFile>) -> (r: SettingsFile)
    ensures
        r.wf(),
        match read {
            Some(s) => r@ == s@,
            None => r@.selected_gpu is None && r@.devices == Map::<Seq<char>, DeviceSettingsView>::empty(),
        },
{
    match read {
        Some(s) => {
            let mut out = SettingsFile::new();
            let ghost all = s.devices@;
            let mut n: usize = 0;
            assert(all.take(0) =~= Seq::<DeviceEntry>::empty());
            while n < s.devices.len()
                invariant
                    out.wf(),
                    all == s.devices@,
                    out@.selected_gpu is None,
                    n <= all.len(),
                    out@.devices == devices_view(all.take(n as int)),
                decreases all.len() - n,
            {
                let e = DeviceEntry {
                    pci_id: s.devices[n].pci_id.clone(),
                    settings: copy_settings(&s.devices[n].settings),
                };
                proof {
                    assert(all.take(n as int + 1).drop_last() =~= all.take(n as int));
                }
                insert_entry(&mut out, e);
                n = n + 1;
            }
            proof {
                assert(all.take(n as int) =~= all);
            }
            out.app = s.app;
            out
        },
        None => SettingsFile::new(),
    }
}

/// `<config>/amdgpu-control`, the directory of the settings file.
pub open spec fn settings_dir_spec(xdg: Option<Seq<char>>, home: Option<Seq<char>>) -> Seq<char> {
    join_path(config_base(xdg, home), "amdgpu-control"@)
}

/// `<config>/amdgpu-control/settings.json`.
pub open spec fn settings_path_spec(xdg: Option<Seq<char>>, home: Option<Seq<char>>) -> Seq<char> {
    join_path(settings_dir_spec(xdg, home), "settings.json"@)
}

/// Where the settings file lives, from the values of `XDG_CONFIG_HOME` and
/// `HOME` (each absent when unset).
pub fn settings_path(xdg: Option<&str>, home: Option<&str>) -> (r: String)
    ensures
        r@ == settings_path_spec(opt_chars(xdg), opt_chars(home)),
{
    let base = config_dir(xdg, home);
    let dir = join(base.as_str(), "amdgpu-control");
    join(dir.as_str(), "settings.json")
}

/// How the settings file is stored: create `directory`, write `contents`
/// to `temporary` (readable by its owner only), then rename `temporary`
/// over `target`, so that a reader never sees half a file.
pub struct SavePlan {
    pub directory: String,
    pub temporary: String,
    pub target: String,
    pub contents: Vec<u8>,
}

/// One file-system step of storing the settings file.
pub enum FileStep {
    CreateDir(Seq<char>),
    Write(Seq<char>, Seq<u8>),
    Rename(Seq<char>, Seq<char>),
}

/// The steps that `SavePlan` stands for, in order: create the directory,
/// write the contents to the temporary file, rename it over the target.
pub open spec fn save_steps(p: SavePlan) -> Seq<FileStep> {
    seq![
        FileStep::CreateDir(p.directory@),
        FileStep::Write(p.temporary@, p.contents@),
        FileStep::Rename(p.temporary@, p.target@),
    ]
}

/// The files by path after one step.
pub open spec fn apply_step(files: Map<Seq<char>, Seq<u8>>, s: FileStep) -> Map<Seq<char>, Seq<u8>> {
    match s {
        FileStep::CreateDir(_) => files,
        FileStep::Write(p, c) => files.insert(p, c),
        FileStep::Rename(a, b) => if files.contains_key(a) {
            files.remove(a).insert(b, files[a])
        } else {
            files
        },
    }
}

/// The files by path after the steps, in order.
pub open spec fn run_steps(files: Map<Seq<char>, Seq<u8>>, steps: Seq<FileStep>) -> Map<Seq<char>, Seq<u8>>
    decreases steps.len(),
{
    if steps.len() == 0 {
        files
    } else {
        run_steps(apply_step(files, steps[0]), steps.drop_first())
    }
}

/// What the file at `p` holds, if it exists.
pub open spec fn file_at(files: Map<Seq<char>, Seq<u8>>, p: Seq<char>) -> Option<Seq<u8>> {
    if files.contains_key(p) {
        Some(files[p])
    } else {
        None
    }
}

/// Storing the settings replaces the file at once: whatever the files were,
/// when the steps of the plan that `save` makes stop after any but the last
/// (a failed step), the settings file holds what it held before; once all
/// have run, it holds the new contents: the payload and a newline.
pub proof fn lemma_save_replaces_at_once(
    xdg: Option<Seq<char>>,
    home: Option<Seq<char>>,
    payload: Seq<u8>,
    plan: SavePlan,
    files: Map<Seq<char>, Seq<u8>>,
    k: int,
)
    requires
        plan.directory@ == settings_dir_spec(xdg, home),
        plan.target@ == settings_path_spec(xdg, home),
        plan.temporary@ == join_path(settings_dir_spec(xdg, home), "settings.tmp"@),
        plan.contents@ == payload.push(10u8),
        0 <= k < 3,
    ensures
        file_at(run_steps(files, save_steps(plan).take(k)), plan.target@) == file_at(
            files,
            plan.target@,
        ),
        file_at(run_steps(files, save_steps(plan)), plan.target@) == Some(payload.push(10u8)),
{
    reveal_strlit("settings.tmp");
    reveal_strlit("settings.json");
    assert(plan.temporary@.len() + 1 == plan.target@.len());
    let t = plan.target@;
    let steps = save_steps(plan);
    let f1 = apply_step(files, steps[0]);
    let f2 = apply_step(f1, steps[1]);
    let f3 = apply_step(f2, steps[2]);
    assert(steps.take(0).len() == 0);
    assert(steps.take(1).drop_first() =~= Seq::<FileStep>::empty());
    assert(steps.take(2).drop_first().drop_first() =~= Seq::<FileStep>::empty());
    assert(steps.take(2).drop_first()[0] == steps[1]);
    assert(steps.take(1)[0] == steps[0]);
    assert(steps.take(2)[0] == steps[0]);
    assert(run_steps(f1, Seq::<FileStep>::empty()) == f1);
    assert(run_steps(f2, Seq::<FileStep>::empty()) == f2);
    assert(run_steps(files, steps.take(1)) == run_steps(f1, steps.take(1).drop_first()));
    assert(run_steps(files, steps.take(1)) == f1);
    assert(run_steps(files, steps.take(2)) == run_steps(f1, steps.take(2).drop_first()));
    assert(run_steps(f1, steps.take(2).drop_first()) == run_steps(
        f2,
        steps.take(2).drop_first().drop_first(),
    ));
    assert(run_steps(f1, steps.take(2).drop_first()) == f2);
    assert(steps.drop_first().drop_first().drop_first() =~= Seq::<FileStep>::empty());
    assert(steps.drop_first()[0] == steps[1]);
    assert(steps.drop_first().drop_first()[0] == steps[2]);
    assert(run_steps(f3, Seq::<FileStep>::empty()) == f3);
    let rest2 = steps.drop_first().drop_first();
    assert(rest2.drop_first() =~= Seq::<FileStep>::empty());
    assert(run_steps(f2, rest2) == run_steps(f3, rest2.drop_first()));
    assert(run_steps(f2, rest2) == f3);
    assert(run_steps(f1, steps.drop_first()) == run_steps(f2, rest2));
    assert(run_steps(files, steps) == run_steps(f1, steps.drop_first()));
    assert(run_steps(files, steps) == f3);
    assert(file_at(f2, t) == file_at(files, t));
    assert(f2.contains_key(plan.temporary@));
}

/// The plan that stores `payload` (the settings as JSON) as the settings
/// file: the payload and a final newline go to `settings.tmp` beside
/// `settings.json`, which the rename then replaces.
pub fn save(xdg: Option<&str>, home: Option<&str>, payload: &[u8]) -> (r: SavePlan)
    ensures
        r.directory@ == settings_dir_spec(opt_chars(xdg), opt_chars(home)),
        r.target@ == settings_path_spec(opt_chars(xdg), opt_chars(home)),
        r.temporary@ == join_path(settings_dir_spec(opt_chars(xdg), opt_chars(home)), "settings.tmp"@),
        r.contents@ == payload@.push(10u8),
        r.temporary@ != r.target@,
{
    let base = config_dir(xdg, home);
    let directory = join(base.as_str(), "amdgpu-control");
    let target = join(directory.as_str(), "settings.json");
    let temporary = join(directory.as_str(), "settings.tmp");
    let mut contents: Vec<u8> = Vec::new();
    let mut i: usize = 0;
    while i < payload.len()
        invariant
            i <= payload.len(),
            contents@ == payload@.take(i as int),
        decreases payload.len() - i,
    {
        contents.push(payload[i]);
        i = i + 1;
        assert(contents@ =~= payload@.take(i as int));
    }
    assert(payload@.take(payload.len() as int) =~= payload@);
    contents.push(10u8);
    proof {
        reveal_strlit("settings.tmp");
        reveal_strlit("settings.json");
        assert(temporary@.len() + 1 == target@.len());
    }
    SavePlan { directory, temporary, target, contents }
}

} // verus!
