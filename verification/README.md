# phone

A utility to connect Android devices through `adb` and to use their screen or
camera with `scrcpy`.

- `src/` is the verified library (Verus): text scanning of adb output
  (`text`, `adb`), the table of known devices (`devices`), finding devices in
  adb's output (`scan`), choosing a device and what is run on it (`select`),
  the camera decisions (`camera`), the devices file (`storage`) and the steps
  of pairing a new device (`pairing`).
- `app/main.rs` is the command-line program: argument parsing, running
  adb/scrcpy/ps, files and user interaction, carrying out what the library decides.
- `tests/` exercises the library on concrete values.
