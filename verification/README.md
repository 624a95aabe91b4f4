# disasm_core

Static disassembly and container triage over in-memory byte blobs, verified
with Verus. Container parsing is done by goblin and instruction decoding by
Capstone; everything around those calls is proved against its contract.

## Layout

- `src/` — the verified library.
  - `probe`, `sections`, `imports`, `entrypoint`: container sniffing and
    static extraction over goblin's reports (`objfile` holds the trusted
    goblin boundary, `container` the plain header records, `binds` the
    check of a Mach-O bind-opcode stream before goblin lists its imports,
    `machentry` the check of a Mach-O `LC_MAIN` entry before goblin parses
    the binary).
  - `engine`, `sweep`: Capstone handle selection, the linear sweep with
    bad-byte resume, region selection and the bounded `disassemble`.
  - `strings`, `groups`, `capabilities`, `mappings`: ASCII / UTF-16LE string
    extraction, group normalization and the ATT&CK-tagged heuristic matcher.
  - `meta`: JSON encoders for the worker's discovery metadata; `json` a
    reader for that JSON, through which their output is read back.
  - `laws`: properties of the library as a whole.
  - `text`, `limits`: character-sequence helpers and the output caps.
- `tests/` — scenarios and golden vectors, run against the real goblin and
  Capstone.
- `app/` — the DuckDB worker: Arrow adapters, argument handling, file input
  and the floating-point section entropy. It builds on the VGI worker SDK.
