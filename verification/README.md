# utmmmmm

A universal Turing machine that can run any Turing machine described by a
table of rules, itself included, written in Verus.  What is proved: how
machines run, compilation, the tape encoding and decoding of a guest (a
decode reads back an encode), the exact rule list of the universal machine,
the infinite self-simulating tape reading back as itself, and the tower's
bookkeeping, and the first part of a simulated step: from an encoded
guest the universal machine walks to the end of its rules and searches
them from the right, passing over the rules for other states, stopping on
the last rule for the current state and, for a single rule for the symbol
under the head, matching that symbol (`utm_run.rs`, over the transition
table read off the rule list in `utm_lookup.rs`).  What is not proved yet:
the rest of a simulated step (a failing symbol comparison, noop groups,
writing the new state and symbol, moving the head, halting), and so that
running the universal machine on an encoded guest carries out the guest's
steps; the tests check that on concrete machines.

## Layout

- `src/` — the verified library.
  - `tm.rs`: machine descriptions, running machines, `step`, `run_tm`,
    `run_until_enters_state`, their variants that grow the tape with a
    `TapeExtender`, and their step semantics.
  - `compiled.rs`: machines compiled to byte-indexed tables; running a
    compiled machine is running its guest.
  - `utm_symbols.rs`, `utm.rs`: the universal machine's states, symbols and
    rule set, and the machine itself.
  - `binary.rs`, `encoding.rs`, `rule_order.rs`: the tape layout that a guest
    is encoded into, the grouping and ordering of its rules, and decoding;
    `roundtrip.rs` proves that decoding an encoding gives the guest back.
  - `infinity.rs`: the infinite tape of a universal machine running itself,
    a fixed point that decodes to itself.
  - `delta.rs`, `savepoint.rs`, `tower.rs`: towers of universal machines,
    their snapshots, and what changed between two views of a tape.
  - `prefixes.rs`: covering a set of codes with bit-string prefixes.
  - `intervals.rs`: which transitions fire between two head moves of a run.
  - `keyed.rs`, `json_export.rs`: name-keyed maps and the display form of a
    machine description.
  - `toy_machines.rs`: small example machines.
  - `byte_machine.rs`, `byte_utm.rs`, `byte_roundtrip.rs`,
    `byte_infinity.rs`, `byte_toys.rs`: machines over byte-numbered states
    and symbols, a two-sided tape and a run loop, the universal machine for
    that format with the header of the tape on which it runs itself, the
    proofs that decoding reads back what encoding wrote and that the
    infinite tape reads back as itself, and small example machines.
  - `display.rs`, `diagram.rs`: a window of a tape around its head, and the
    phases and drawn rules of the universal machine's flowchart.
  - `confusion.rs`: common prefixes of codes and the cost they add to a
    bit-by-bit rule search.
  - `state_log.rs`: reading state logs of head positions over time.
  - `rule_search.rs`: the cost of a bit-by-bit rule search over sampled
    transitions.
- `tests/` — tests of the library.
- `app/` — the command-line program: JSON export, the tower runner with
  savepoints on disk, reports, a Mermaid flowchart of the universal
  machine, and a picture of a state log.
