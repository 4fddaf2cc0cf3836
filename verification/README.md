# xone_tray

A system-tray controller for the xone Xbox wireless dongle driver on Linux,
with its logic verified by Verus.

- `src/` is the verified library:
  - `text.rs`: Unicode trimming, `u32` parsing, decimal formatting and
    comparison of decimal numbers of any size, line and pattern search, each proved against a `Seq<char>` specification.
  - `sysfs.rs`: choosing the dongle and the controller LEDs, reading the
    `pairing`, `active_clients`, brightness and mode attributes, the texts
    written to them, and the name shown for each LED.
  - `update.rs`: finding, in the release API's response, a release that is
    not older than the running version (versions compare by their numbers).
  - `udev.rs`: the command that installs the udev rule, and its outcome.
  - `tray.rs`: the tray's state, how it follows the driver, and the menu.
- `app/` holds the program: file, process and network access, the D-Bus tray
  service (ksni) and the release request (ureq).
- `tests/` runs the library on concrete inputs.
