# base_lib

Verified core of the B.A.S.E. tool chain, written in Verus.

- `src/` — the library. Every function has a contract, proved by Verus except
  for four small trusted wrappers around outside code (`object`'s ELF parser,
  `char::is_alphanumeric`, `str::to_lowercase` and the `Debug` text of a
  string), whose contracts name what those calls return:
  - `sir`, `target`, `lift`, `encode`, `decode`, `roundtrip`, `semexec`,
    `verify`, `emit`, `elf` — static recompilation: x86 lifting to the SIR,
    per-ISA encoders and decoders (with the codec round-trip law for every
    operation an encoder accepts on registers within the target's register
    window, ColdFire memory moves excepted, which its decoder does not read
    back; on the targets that clamp higher registers a second law states that
    they round-trip as the window's top register, while x86 keeps the low
    three bits of a register number), the
    reference executor with memory (load-after-store, behavioural
    equivalence of round-tripped code on 32-bit targets), coverage by
    dimension, differential sweep, assembly emitters, ELF code selection;
  - `hw`, `fw`, `graphviz`, `bir` — the inferred hardware model, firmware
    generators, DOT rendering and the BIR bridge;
  - `temporal`, `smt` — temporal contracts and their SMT-LIB2 obligations;
  - `mmio`, `classify` — MMIO scans, boot-header stripping and the
    `--classify` option parser;
  - `lab_gate` — the HIL lab Gate A report;
  - `text` — number rendering shared by all text producers.
- `tests/` — behavioural tests run against the compiled library.
- `app/` — the `base` command line (file, environment and terminal I/O).
