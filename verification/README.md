# motherboard

Control software for the main board (a Raspberry Pi) of a DIY 3D printer. The
board reads a G-code program, turns it into commands for the motor controller
(an Arduino) and feeds them over a serial link, a few ahead of the one being
executed, while a web interface shows the printer's state.

## Layout

- `src/` is the library, written in Verus and verified:
  - `text.rs`: whitespace, trimming, splitting into pieces and words;
  - `binary32.rs`: `as` casts of IEEE 754 binary32 values, given as bit
    patterns, to integer types;
  - `printer.rs`: the position encoders, the settings, program loading and the
    print state machine (homing, printing, the controller's messages), with
    the properties it keeps;
  - `printer/gcode.rs` and its submodules: reading a G-code line into fields
    and the commands built from them;
  - `printer/serial.rs`: framing of the messages to and from the controller;
  - `network.rs`: the network service's access to the printer;
  - `gcode_manager.rs`, `gcode_parser.rs`: a second, simpler program model.
- `tests/` holds the tests of the library.
- `app/` is the program around it: the serial port, the listening thread, the
  console output, reading numbers as `f32`, and the Dioxus LiveView web page.
