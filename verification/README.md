# amdgpu-control

A control panel and tray icon for AMD graphics cards driven by the `amdgpu`
kernel driver, with a small privileged helper that writes the driver's
sysfs control files.

The library under `src/` holds the decisions, verified with Verus:

- `text`, `paths`: character-level text handling and path arithmetic as
  `str` and `std::path` perform them.
- `gpu`: reading the driver's tables (DPM clock states, workload profiles,
  overdrive ranges, voltage offset), card capabilities, card discovery and
  the choice of the card to show.
- `helper`: what the privileged helper accepts and where it writes.
- `writer`, `plans`: the control writes that applying, rolling back,
  resetting and restoring settings perform, and the steps of one write.
- `acceptance`: proofs that those writes pass the helper's checks.
- `settings`, `autostart`: the settings file and the session autostart
  entry.
- `tray`, `ui`: what the tray and the window show and what a choice in them
  changes.
- `pattern`: the regular expressions, through the `regex` crate.

`app/` is the program around it: the GTK window, the status notifier icon,
the helper's entry point and every file and process access.
