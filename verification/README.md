# boxedcat

The decision logic of the BoxedCat local development stack for Windows
(Apache, MariaDB, PHP and friends), written in Verus with its contracts proved.

- `src/` — the verified library:
  - `stack/` — port succession (`ports`), version registry (`versions`),
    installation discovery and `--version` parsing (`discovery`), virtual-host
    generation and project listing (`vhosts`), the `.test` DNS proxy with a
    project table (`resolver`).
  - `dns.rs` — the standalone `.test` DNS responder's per-packet decision.
  - `services/` — the managed services: fixed facts, start/stop commands,
    status rules, `tasklist` and `php` output reading.
  - `host.rs` — what the C interface decides: name checks, adapter choice,
    download addresses, TCP-table ports, service and port tables, project scan.
  - `cert.rs` — the self-signed development certificate (through `rcgen` and
    `time`).
  - `text.rs` — character-sequence helpers and their specifications.
- `tests/` — tests on concrete values.
- `app/` — the exported C interface and everything that touches the machine:
  files, processes, sockets, threads and the Windows API (`windows-sys`).
