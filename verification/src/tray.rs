//! The system tray: the snapshot it shows, the labels of workload
//! profiles, and the menu's choices and what choosing them changes.

use vstd::prelude::*;
use crate::gpu::PowerProfile;
use crate::text::{chars_eq_str, chars_of, str_to_lowercase, string_from_chars, to_lowercase};

verus! {

/// A card as the tray lists it.
#[derive(Clone, Debug, Default)]
pub struct TrayGpu {
    pub pci_id: String,
    pub label: String,
}

/// A workload profile as the tray lists it.
#[derive(Clone, Debug, Default)]
pub struct TrayProfile {
    pub index: u32,
    pub label: String,
    pub active: bool,
}

/// Everything the tray shows.
#[derive(Clone, Debug)]
pub struct TraySnapshot {
    pub gpu_title: String,
    pub tooltip: String,
    pub gpus: Vec<TrayGpu>,
    pub selected_gpu: usize,
    pub performance: String,
    pub profiles: Vec<TrayProfile>,
}

pub open spec fn tray_gpu_view(g: TrayGpu) -> (Seq<char>, Seq<char>) {
    (g.pci_id@, g.label@)
}

pub open spec fn tray_profile_view(p: TrayProfile) -> (u32, Seq<char>, bool) {
    (p.index, p.label@, p.active)
}

/// `TraySnapshot` as values.
pub struct TraySnapshotView {
    pub gpu_title: Seq<char>,
    pub tooltip: Seq<char>,
    pub gpus: Seq<(Seq<char>, Seq<char>)>,
    pub selected_gpu: usize,
    pub performance: Seq<char>,
    pub profiles: Seq<(u32, Seq<char>, bool)>,
}

impl View for TraySnapshot {
    type V = TraySnapshotView;

    open spec fn view(&self) -> TraySnapshotView {
        TraySnapshotView {
            gpu_title: self.gpu_title@,
            tooltip: self.tooltip@,
            gpus: self.gpus@.map_values(|g: TrayGpu| tray_gpu_view(g)),
            selected_gpu: self.selected_gpu,
            performance: self.performance@,
            profiles: self.profiles@.map_values(|p: TrayProfile| tray_profile_view(p)),
        }
    }
}

/// What the tray shows before there is a card to show.
pub open spec fn default_snapshot_view() -> TraySnapshotView {
    TraySnapshotView {
        gpu_title: "AMDGPU Control"@,
        tooltip: "Monitoramento da GPU AMD"@,
        gpus: seq![],
        selected_gpu: 0,
        performance: "auto"@,
        profiles: seq![],
    }
}

impl Default for TraySnapshot {
    fn default() -> (r: TraySnapshot)
        ensures
            r@ == default_snapshot_view(),
    {
        let r = TraySnapshot {
            gpu_title: String::from_str("AMDGPU Control"),
            tooltip: String::from_str("Monitoramento da GPU AMD"),
            gpus: Vec::new(),
            selected_gpu: 0,
            performance: String::from_str("auto"),
            profiles: Vec::new(),
        };
        assert(r@.gpus =~= Seq::<(Seq<char>, Seq<char>)>::empty());
        assert(r@.profiles =~= Seq::<(u32, Seq<char>, bool)>::empty());
        r
    }
}

/// Every `_` turned into a space.
pub open spec fn underscores_to_spaces(s: Seq<char>) -> Seq<char> {
    s.map_values(
        |c: char|
            if c == '_' {
                ' '
            } else {
                c
            },
    )
}

/// The label of a firmware workload profile: a Portuguese name for the
/// known ones, else the name in lower case with spaces for underscores.
pub open spec fn profile_label_spec(name: Seq<char>) -> Seq<char> {
    if name == "BOOTUP_DEFAULT"@ {
        "Padrão"@
    } else if name == "3D_FULL_SCREEN"@ {
        "Jogo em tela cheia"@
    } else if name == "POWER_SAVING"@ {
        "Economia de energia"@
    } else if name == "VIDEO"@ {
        "Vídeo"@
    } else if name == "VR"@ {
        "Realidade virtual"@
    } else if name == "COMPUTE"@ {
        "Computação"@
    } else if name == "CUSTOM"@ {
        "Personalizado"@
    } else if name == "WINDOW_3D"@ {
        "Jogo em janela"@
    } else {
        str_to_lowercase(underscores_to_spaces(name))
    }
}

/// The label of a firmware workload profile.
pub fn profile_label(name: &str) -> (r: String)
    ensures
        r@ == profile_label_spec(name@),
{
    let n = chars_of(name);
    let n = n.as_slice();
    if chars_eq_str(n, "BOOTUP_DEFAULT") {
        String::from_str("Padrão")
    } else if chars_eq_str(n, "3D_FULL_SCREEN") {
        String::from_str("Jogo em tela cheia")
    } else if chars_eq_str(n, "POWER_SAVING") {
        String::from_str("Economia de energia")
    } else if chars_eq_str(n, "VIDEO") {
        String::from_str("Vídeo")
    } else if chars_eq_str(n, "VR") {
        String::from_str("Realidade virtual")
    } else if chars_eq_str(n, "COMPUTE") {
        String::from_str("Computação")
    } else if chars_eq_str(n, "CUSTOM") {
        String::from_str("Personalizado")
    } else if chars_eq_str(n, "WINDOW_3D") {
        String::from_str("Jogo em janela")
    } else {
        let mut spaced: Vec<char> = Vec::new();
        let mut i: usize = 0;
        while i < n.len()
            invariant
                i <= n.len(),
                spaced@ == underscores_to_spaces(n@.take(i as int)),
            decreases n.len() - i,
        {
            spaced.push(
                if n[i] == '_' {
                    ' '
                } else {
                    n[i]
                },
            );
            i = i + 1;
            assert(spaced@ =~= underscores_to_spaces(n@.take(i as int)));
        }
        assert(n@.take(n.len() as int) =~= n@);
        let s = string_from_chars(spaced.as_slice());
        to_lowercase(s.as_str())
    }
}

/// A card's name and PCI address, as the tray lists it.
pub struct TrayCard {
    pub pci_id: String,
    pub name: String,
}

/// The tray entry of a card: `<name> · <pci>`.
pub open spec fn card_label(c: TrayCard) -> Seq<char> {
    c.name@ + " · "@ + c.pci_id@
}

/// The snapshot for the card at `selected` among `cards`: its name as the
/// title, the given tooltip, performance level and profiles; the default
/// snapshot when there is no card there.
pub open spec fn snapshot_spec(
    cards: Seq<TrayCard>,
    selected: usize,
    tooltip: Seq<char>,
    performance: Seq<char>,
    profiles: Seq<PowerProfile>,
) -> TraySnapshotView {
    if selected < cards.len() {
        TraySnapshotView {
            gpu_title: cards[selected as int].name@,
            tooltip,
            gpus: cards.map_values(|c: TrayCard| (c.pci_id@, card_label(c))),
            selected_gpu: selected,
            performance,
            profiles: profiles.map_values(
                |p: PowerProfile| (p.index, profile_label_spec(p.name@), p.active),
            ),
        }
    } else {
        default_snapshot_view()
    }
}

/// What the tray shows for the card at `selected` among `cards`, whose
/// telemetry summary is `tooltip`, performance level `performance` and
/// workload profiles `profiles`.
pub fn snapshot_for(
    cards: &Vec<TrayCard>,
    selected: usize,
    tooltip: &str,
    performance: &str,
    profiles: &Vec<PowerProfile>,
) -> (r: TraySnapshot)
    ensures
        r@ == snapshot_spec(cards@, selected, tooltip@, performance@, profiles@),
{
    if selected >= cards.len() {
        return TraySnapshot::default();
    }
    let mut gpus: Vec<TrayGpu> = Vec::new();
    let mut i: usize = 0;
    while i < cards.len()
        invariant
            i <= cards.len(),
            gpus@.len() == i,
            forall|k: int|
                0 <= k < i ==> tray_gpu_view(#[trigger] gpus@[k]) == (
                    cards@[k].pci_id@,
                    card_label(cards@[k]),
                ),
        decreases cards.len() - i,
    {
        let mut label = cards[i].name.clone();
        label.append(" · ");
        label.append(cards[i].pci_id.as_str());
        gpus.push(TrayGpu { pci_id: cards[i].pci_id.clone(), label });
        i = i + 1;
    }
    assert(gpus@.map_values(|g: TrayGpu| tray_gpu_view(g)) =~= cards@.map_values(
        |c: TrayCard| (c.pci_id@, card_label(c)),
    ));
    let mut items: Vec<TrayProfile> = Vec::new();
    let mut j: usize = 0;
    while j < profiles.len()
        invariant
            j <= profiles.len(),
            items@.len() == j,
            forall|k: int|
                0 <= k < j ==> tray_profile_view(#[trigger] items@[k]) == (
                    profiles@[k].index,
                    profile_label_spec(profiles@[k].name@),
                    profiles@[k].active,
                ),
        decreases profiles.len() - j,
    {
        let label = profile_label(profiles[j].name.as_str());
        items.push(TrayProfile { index: profiles[j].index, label, active: profiles[j].active });
        j = j + 1;
    }
    assert(items@.map_values(|p: TrayProfile| tray_profile_view(p)) =~= profiles@.map_values(
        |p: PowerProfile| (p.index, profile_label_spec(p.name@), p.active),
    ));
    TraySnapshot {
        gpu_title: cards[selected].name.clone(),
        tooltip: String::from_str(tooltip),
        gpus,
        selected_gpu: selected,
        performance: String::from_str(performance),
        profiles: items,
    }
}

/// The performance levels the tray and the window offer, in menu order.
pub open spec fn performance_value(i: int) -> Seq<char> {
    if i == 0 {
        "auto"@
    } else if i == 1 {
        "low"@
    } else if i == 2 {
        "high"@
    } else {
        "manual"@
    }
}

/// The menu position of a performance level; 0 for an unknown one.
pub open spec fn performance_index_spec(level: Seq<char>) -> usize {
    if level == "auto"@ {
        0
    } else if level == "low"@ {
        1
    } else if level == "high"@ {
        2
    } else if level == "manual"@ {
        3
    } else {
        0
    }
}

/// The menu position of a performance level; 0 for an unknown one.
pub fn performance_index(level: &str) -> (r: usize)
    ensures
        r == performance_index_spec(level@),
        r < 4,
{
    let l = chars_of(level);
    let l = l.as_slice();
    if chars_eq_str(l, "auto") {
        0
    } else if chars_eq_str(l, "low") {
        1
    } else if chars_eq_str(l, "high") {
        2
    } else if chars_eq_str(l, "manual") {
        3
    } else {
        0
    }
}

/// The performance level at a menu position.
pub fn performance_at(i: usize) -> (r: Option<&'static str>)
    ensures
        match r {
            Some(v) => i < 4 && v@ == performance_value(i as int),
            None => i >= 4,
        },
{
    if i == 0 {
        Some("auto")
    } else if i == 1 {
        Some("low")
    } else if i == 2 {
        Some("high")
    } else if i == 3 {
        Some("manual")
    } else {
        None
    }
}

/// The choices the tray menu starts with.
pub struct TrayMenu {
    /// The selected card, when there is more than one card to choose from.
    pub gpu_choice: Option<usize>,
    /// The selected performance level.
    pub performance_choice: usize,
    /// The active workload profile, when there are profiles.
    pub profile_choice: Option<usize>,
}

/// The tray icon and its state.
pub struct AmdTray {
    pub snapshot: TraySnapshot,
}

/// The position of the first active profile in the list, or 0.
pub open spec fn first_active(ps: Seq<(u32, Seq<char>, bool)>) -> int {
    if exists|k: int| 0 <= k < ps.len() && ps[k].2 {
        choose|k: int| 0 <= k < ps.len() && ps[k].2 && forall|m: int| 0 <= m < k ==> !ps[m].2
    } else {
        0
    }
}

impl AmdTray {
    /// The tray identifier.
    pub fn id() -> (r: &'static str)
        ensures
            r@ == "amdgpu-control"@,
    {
        "amdgpu-control"
    }

    /// The icon name.
    pub fn icon_name() -> (r: &'static str)
        ensures
            r@ == "io.github.amdgpucontrol.Control-gpu-symbolic"@,
    {
        "io.github.amdgpucontrol.Control-gpu-symbolic"
    }

    /// The tray title: the selected card's name.
    pub fn title(&self) -> (r: String)
        ensures
            r@ == self.snapshot@.gpu_title,
    {
        self.snapshot.gpu_title.clone()
    }

    /// The menu's initial choices: the selected card (bounded by the last
    /// one) when there are several, the current performance level, and the
    /// first active profile (or the first) when there are profiles.
    pub fn menu(&self) -> (r: TrayMenu)
        ensures
            r.gpu_choice == if self.snapshot@.gpus.len() > 1 {
                Some(
                    if self.snapshot.selected_gpu < self.snapshot@.gpus.len() - 1 {
                        self.snapshot.selected_gpu
                    } else {
                        (self.snapshot@.gpus.len() - 1) as usize
                    },
                )
            } else {
                None
            },
            r.performance_choice == performance_index_spec(self.snapshot@.performance),
            r.profile_choice == if self.snapshot@.profiles.len() > 0 {
                Some(first_active(self.snapshot@.profiles) as usize)
            } else {
                None
            },
    {
        let n = self.snapshot.gpus.len();
        let gpu_choice = if n > 1 {
            Some(
                if self.snapshot.selected_gpu < n - 1 {
                    self.snapshot.selected_gpu
                } else {
                    n - 1
                },
            )
        } else {
            None
        };
        let performance_choice = performance_index(self.snapshot.performance.as_str());
        let ghost pv = self.snapshot@.profiles;
        let profile_choice = if self.snapshot.profiles.len() > 0 {
            let mut k: usize = 0;
            while k < self.snapshot.profiles.len() && !self.snapshot.profiles[k].active
                invariant
                    k <= self.snapshot.profiles.len(),
                    pv == self.snapshot@.profiles,
                    forall|m: int| 0 <= m < k ==> !(#[trigger] pv[m]).2,
                decreases self.snapshot.profiles.len() - k,
            {
                k = k + 1;
            }
            if k < self.snapshot.profiles.len() {
                assert(pv[k as int].2);
                Some(k)
            } else {
                Some(0)
            }
        } else {
            None
        };
        TrayMenu { gpu_choice, performance_choice, profile_choice }
    }

    /// Choosing a card in the menu: it becomes the selected one and its PCI
    /// address is returned to pass on; nothing happens for a position past
    /// the end.
    pub fn select_gpu(&mut self, selected: usize) -> (r: Option<String>)
        ensures
            match r {
                Some(pci) => selected < old(self).snapshot@.gpus.len() && pci@
                    == old(self).snapshot@.gpus[selected as int].0 && final(self).snapshot@
                    == (TraySnapshotView { selected_gpu: selected, ..old(self).snapshot@ }),
                None => selected >= old(self).snapshot@.gpus.len() && final(self).snapshot@
                    == old(self).snapshot@,
            },
    {
        if selected >= self.snapshot.gpus.len() {
            return None;
        }
        let pci = self.snapshot.gpus[selected].pci_id.clone();
        self.snapshot.selected_gpu = selected;
        Some(pci)
    }

    /// Choosing a performance level in the menu: it becomes the shown one
    /// and is returned to pass on; nothing happens for a position past the
    /// end.
    pub fn select_performance(&mut self, selected: usize) -> (r: Option<&'static str>)
        ensures
            match r {
                Some(v) => selected < 4 && v@ == performance_value(selected as int)
                    && final(self).snapshot@ == (TraySnapshotView {
                    performance: v@,
                    ..old(self).snapshot@
                }),
                None => selected >= 4 && final(self).snapshot@ == old(self).snapshot@,
            },
    {
        match performance_at(selected) {
            Some(v) => {
                self.snapshot.performance = String::from_str(v);
                Some(v)
            },
            None => None,
        }
    }

    /// Choosing a workload profile in the menu: exactly the profiles with
    /// its index become active, and the index is returned to pass on;
    /// nothing happens for a position past the end.
    pub fn select_profile(&mut self, selected: usize) -> (r: Option<u32>)
        ensures
            match r {
                Some(index) => {
                    &&& selected < old(self).snapshot@.profiles.len()
                    &&& index == old(self).snapshot@.profiles[selected as int].0
                    &&& final(self).snapshot@ == (TraySnapshotView {
                        profiles: old(self).snapshot@.profiles.map_values(
                            |p: (u32, Seq<char>, bool)| (p.0, p.1, p.0 == index),
                        ),
                        ..old(self).snapshot@
                    })
                },
                None => selected >= old(self).snapshot@.profiles.len() && final(self).snapshot@
                    == old(self).snapshot@,
            },
    {
        if selected >= self.snapshot.profiles.len() {
            return None;
        }
        let index = self.snapshot.profiles[selected].index;
        let ghost before = self.snapshot@;
        let mut profiles: Vec<TrayProfile> = Vec::new();
        std::mem::swap(&mut profiles, &mut self.snapshot.profiles);
        let mut i: usize = 0;
        while i < profiles.len()
            invariant
                i <= profiles.len(),
                profiles@.len() == before.profiles.len(),
                forall|k: int| 0 <= k < i ==> tray_profile_view(#[trigger] profiles@[k]) == (
                    before.profiles[k].0,
                    before.profiles[k].1,
                    before.profiles[k].0 == index,
                ),
                forall|k: int| i <= k < profiles@.len() ==> tray_profile_view(#[trigger] profiles@[k]) == before.profiles[k],
            decreases profiles.len() - i,
        {
            let active = profiles[i].index == index;
            let label = profiles[i].label.clone();
            let idx = profiles[i].index;
            profiles.set(i, TrayProfile { index: idx, label, active });
            i = i + 1;
        }
        self.snapshot.profiles = profiles;
        assert(self.snapshot@.profiles =~= before.profiles.map_values(
            |p: (u32, Seq<char>, bool)| (p.0, p.1, p.0 == index),
        ));
        Some(index)
    }
}

} // verus!
