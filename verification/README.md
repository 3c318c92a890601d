# chips

A verified RV32IM + Zicsr functional model of a RISC-V core, written in Verus.

- `src/isa.rs` — field and immediate layouts, `decode`, ABI register names.
- `src/word.rs` — the mathematical reading of 32-bit words (`signed`, `wrap32`).
- `src/alu.rs` — the `OP`/`OP-IMM` groups and the M extension.
- `src/mem.rs` — sparse little-endian byte memory.
- `src/csr.rs` — the CSR store and standard CSR addresses.
- `src/arch.rs` — the architectural state and the semantics of one step
  (`step_spec`) and of a run (`run_spec`), with the laws every step keeps.
- `src/cpu.rs` — `Cpu::step` and `Cpu::run`, proved to compute `step_spec`
  and `run_spec` exactly.
- `src/cli.rs` — the driver's hexadecimal start-address argument.
- `app/main.rs` — the command-line driver: load a raw image, run it, dump
  the registers.
