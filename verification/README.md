# nucleus

A CLI-first STM32 developer platform, with its core written and proved in
Verus: the alternate-function database, the pin-mux / clock / DMA / IRQ
solver, the constraint auto-router, the HAL code generator, the ITM/SWO
decoder and trace translator, the project ledger and test history, the
language-server analysis, and the decisions of the hardware-in-the-loop
runner.

Layout:

- `src/` — the verified library. `db` (pin data, clock trees, DMA and IRQ
  maps, and the reader of ST's pin-data XML), `compiler` (configuration
  model, solver, router, code generator, test plans), `itm` and `trace`
  (SWO decoding), `ledger` and `history`, `lsp`, `hil` (backend vocabulary,
  the GDB remote protocol, run bookkeeping, assertion verdicts, lockstep
  comparison), `sdk` (the on-device test-agent mailbox) and `cli` (the
  command-line tool's decisions).
- `tests/` — tests of the library, run against the real outside crates.
- `app/` — the `nucleus` binary: argument parsing, files, processes,
  sockets, TOML and JSON (de)serialization, and the floating-point frequency
  check of `pin … toggles at …` assertions.
