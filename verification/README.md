# Allwinner A10/A20 boot loader

A boot loader for Allwinner A10/A20 boards: it sets up the console UART, the
AXP209 power chip (over TWI), the CPU and DRAM clocks and the DRAM controller,
then receives the kernel, device tree and initramfs as Motorola S-records on
the console and starts the kernel.

## Layout

- `src/` — the verified library (Verus).
  - `devices/io.rs` — `RegOp`, one access to the memory-mapped bus, and the
    model of what stores and read-modify-writes do to the word registers.
  - `devices/{ccu,gpio,i2c,rsb,uart}.rs` — each device routine appends the
    accesses it makes, in order, to a register program (`Vec<RegOp>`); its
    contract states that program exactly. Values the hardware returns (a
    received character, a register read back) are arguments of the routine
    that decides on them.
  - `boot.rs` — board bring-up, the S-record loader (a state machine fed the
    characters it asks for), timers and interrupts, the PMIC power-up plan and
    the I2C traffic of each of its steps, the sleep test, and the shell's
    command parser with the accesses each command makes at once (commands that
    need assembly or values read back are finished by the runtime).
  - `uart.rs`, `hello.rs` — the small stand-alone console program.
- `app/` — the firmware around the library: it runs register programs with
  volatile loads and stores, and holds the inline assembly, interrupt entry
  points and the panic handler. Built with `--cfg console_demo` it is the
  stand-alone console program instead of the boot loader.
- `tests/` — tests of the library on concrete values.
