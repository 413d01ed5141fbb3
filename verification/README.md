# linxira-chwd-detector

Read-only hardware detection for Linxira: PCI, DMI and CPU evidence is
normalised and matched against driver profiles, giving a deterministic
report of stable profile IDs (`cpu.*`, `graphics.*`, `vm.*`).

- `src/` is the library, verified with Verus:
  - `text.rs`: trimming, ASCII case folding, hex digits, substring search
    and the lexicographic order of text, each against a spec over `Seq<char>`;
  - `order.rs`: sorted sets of strings and warnings, stable sort of devices
    by bus address, and the uniqueness of these results;
  - `normalize.rs`: normal form of PCI identifiers and dropped devices;
  - `matching.rs`: the profile table, hardware-ID matching, VM profiles and
    hybrid graphics;
  - `collect.rs`: evidence from what was read, CPU fields of `/proc/cpuinfo`,
    inference of the virtualization environment;
  - `detection.rs`: the report (`detect`, `collect_and_detect`);
  - `laws.rs`: stable IDs, hybrid graphics, normal form, determinism,
    idempotence of detection and of `normalize_hex`, and warnings for
    missing evidence;
  - `invariance.rs`: the report does not depend on the order of its inputs.
- `app/main.rs` reads `/sys` and `/proc`, calls the library and prints the
  report as JSON.
- `tests/` runs the library on concrete evidence.
