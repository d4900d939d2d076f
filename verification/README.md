# check_npm_version

How out of date are the dependencies of a `package.json`, and which package manager
runs upgrade them. The library in `src/` is verified with Verus; `app/` is the
command-line program around it (files, environment, HTTP, processes).

- `version`, `time`: versions and ranges (parsed and ordered by `semver`) and
  publishing times (parsed by `chrono`).
- `resolve`: for one dependency, the newest version overall, within the declared
  major, within the declared major and minor, and within the declared range.
- `npm_config`, `strmap`: `.npmrc` settings (registries and auth tokens).
- `report`, `render`, `table`, `cells`, `colors`: the report, its framed terminal tables,
  and why their cells fit their columns.
- `upgrade`: install arguments, `name@version` entries and the package manager runs.
- `logger`, `types`, `text`: log levels, shared kinds, character-level text.
