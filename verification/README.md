# cytrace

An on-premise, air-gapped software dependency risk report generator. Syft
makes a CycloneDX SBOM of a target, Grype matches it against an offline
vulnerability database snapshot, and cytrace grades the findings, applies the
`--fail-on` gate and writes a single-file HTML report. A web service mode
offers the same behind a password login.

The library in `src/` is written in Verus: each public function carries a
contract, and the properties the tool relies on are stated and proved as
public proof functions named `law_…`.

## Layout

- `src/types.rs`, `src/severity.rs` — severities, findings, the scan result;
  overall risk, counts per level, the fail-on gate.
- `src/parse.rs` — Grype and CycloneDX documents mapped to the unified types.
- `src/report.rs` — escaping of the JSON data and its injection at the
  template's sentinel.
- `src/i18n.rs` — the bilingual catalog: dotted keys, zh-TW fallback,
  `{{name}}` placeholders.
- `src/timefmt.rs` — Unix seconds to ISO-8601 UTC text.
- `src/engine.rs`, `src/cli.rs` — engine commands and their outcomes, exit
  codes, report names and console messages.
- `src/session.rs`, `src/throttle.rs`, `src/auth.rs`, `src/service.rs`,
  `src/api_error.rs`, `src/config.rs` — the web service's sessions, login
  throttling, password hashing, CSRF rule, session API, errors and settings.
- `src/text.rs` — character-level helpers.
- `app/` — the `cytrace` command, subprocesses, files, JSON encoding and the
  HTTP server around the library.
- `tests/` — tests of the library on concrete values.

At run time the command reads its locale tables from `CYTRACE_LOCALES_DIR`
(default `locales/`) and the report template from `CYTRACE_REPORT_TEMPLATE`
(default `assets/report-template.html`).
