# sd2dinit

sd2dinit converts systemd `.service` unit files into dinit service
descriptions. The library in `src/` holds the whole conversion, written in
Verus with contracts that state what each function gives back; `app/` is the
command-line program around it (argument handling, files, the pacman hook,
the TOML settings file).

## Layout

- `src/text.rs`, `src/paths.rs`, `src/numeral.rs`: strings, paths and
  numerals as sequences of characters, with the spec functions the contracts
  are written in.
- `src/parser.rs`: reading unit files (continuation lines, sections, last
  value wins, empty assignments reset, drop-in overrides).
- `src/config.rs`: settings, the dependency-name map with its built-in
  entries, and the output directory of a unit (user-scope units, under
  `usr/lib/systemd/user/`, go to `user_output_dir`).
- `src/converter.rs`, `src/scope.rs`: the conversion of a unit into a main
  service, pre/post-start services, wrapper scripts, env-file content and
  warnings. `converted` is the spec of the whole conversion; `convert` is
  proved equal to it.
- `src/generator.rs`: the dinit service-file text.
- `src/output.rs`, `src/dropins.rs`: the files a conversion writes and the
  exit status it reports; which drop-in files are applied, in which order.
- `src/shellenv.rs`: shell env-file values and dinit quoting.
- `src/units.rs`: which paths are converted, and what the pacman hook does
  with a line it reads.
- `src/laws.rs`: properties stated for all inputs (last value wins, resets,
  sections coming from header lines, stored entries being trimmed, drop-ins
  touching only the sections they name and reading as if appended, when a
  conversion fails, how the generated services link to each other,
  idempotence of `$VAR` rewriting).
- `src/counting.rs`: laws that count: parse warnings per line, the lines and
  words left after joining continuation lines, and the one `Type` warning of
  an unmapped service type.
- `tests/`: tests of the library on concrete inputs.
