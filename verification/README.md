# lightset

Sets a solid RGB color on ASUS Aura lighting and ENE RGB DRAM from Linux. The
protocol logic is a library verified with Verus; the command around it is
ordinary Rust.

```sh
lightset set ff0000
lightset off
```

Run `lightset` as root. Do not grant users access to the HID or I²C devices. On
a compatible ASUS motherboard, enable **Windows Dynamic Lighting** in the BIOS:
it exposes the Aura controller through the standard HID LampArray interface.

A debug build also has `lightset probe`, which reports the configured DRAM
addresses and the mapper. It selects ENE registers to read them, so it needs I²C
write access, but it changes neither colors nor address mappings.

To support different hardware, add a profile in `src/profile.rs`.

## How procedures are written

A procedure that talks to hardware is a function of the answers received so far
(`src/session.rs`). Where the answers end, it stops and names the action whose
answer it needs next. The caller performs the action, records the answer and
runs the procedure again. The contract of a procedure says, for every list of
answers, what it asks for next or how it ends. A statement about what any list
of answers leads to is therefore a statement about every step of every run.

## Layout

- `src/profile.rs`: which hardware is supported, and when a profile is usable.
- `src/color.rs`, `src/text.rs`, `src/order.rs`: colors, texts, sorting.
- `src/hid.rs`, `src/lamp_array.rs`, `src/lamp_lighting.rs`: finding HID
  LampArray devices, their reports, and the order in which reports set a color.
- `src/session.rs`, `src/request.rs`, `src/fault.rs`: procedures, what they ask
  for, and how it can fail.
- `src/replay.rs`, `src/ene_dram/replay.rs`: why procedures can be run again
  from the start with more answers.
- `src/smbus.rs`: register accesses as calls of the Linux I²C device interface.
- `src/controller.rs`: the register writes that show a color.
- `src/ene_dram/`: identifying, mapping, diagnosing and lighting DRAM
  controllers. `safety.rs` states what these procedures may ask of a bus.
- `src/report.rs`: in which order the backends are tried, and what the user is
  told.
- `app/`: the command, with all input and output.

What is trusted: the error codes of `libc`, `String::from_utf8_lossy`, and the
`Debug` form of a string, each behind a small wrapper with its contract.
