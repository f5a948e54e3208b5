# FanTom

Backend of the FanTom dashboard, which reads, edits and flashes the ROMs of
engine control units through the interactive shell of the nisprog programmer.

- `src/` is the library `fantom`. Every function in it carries a contract that
  Verus proves. Three wrappers call the standard library for Unicode letter case
  and for the decoding of printed bytes (`src/unicode.rs`), and one declaration
  describes `String::push` (`src/text.rs`); these four are taken on trust.
- `tests/` runs the library on concrete values.
- `app/` is the Tauri application: it reads and writes files, starts the
  programmer, and hands the library what it finds.

## Sessions

| session | commands |
| ------- | -------- |
| dump    | `npconn`, `setdev N`, `npconf p3 0`, `runkernel K`, `dumpmem F START LEN`, `stopkernel`, `npdisc` |
| flash   | `npconn`, `setdev N`, `npconf p3 0`, `runkernel K`, `flrom F`, answers, `stopkernel`, `npdisc` |
| verify  | `npconn`, `setdev N`, `runkernel K`, `flverif F`, `stopkernel`, `npdisc` |

Every session is closed with `exit`. A flash session answers `p`, a practice run,
unless other answers are given.
