# chip8

A CHIP-8 virtual machine whose core is verified with Verus.

- `src/graphics.rs`: the 64 x 32 display, sprite drawing and the lit/dark pixel lists.
- `src/keypad.rs`: the hexadecimal keypad and its keyboard layout (SDL key codes).
- `src/font.rs`: the built-in glyphs of the digits `0` to `F`.
- `src/machine.rs`: the machine state, its mathematical model `Machine`, the
  instruction set, the fetch-execute cycle, the timers, and the laws they obey.
- `src/platform.rs`: the trusted calls into `rand` and `std::time`.
- `app/main.rs`: the SDL front end (window, key events, drawing, ROM file).
