# doc2skill

Turns package documentation (crates.io and docs.rs, NuGet, npm) into agent
skills: `.agents/skills/<name>/SKILL.md`, `references/*.md` and `doc.skill`.

- `src/` is the library, verified with Verus: package specs and version
  resolution, the project manifests (`Cargo.toml`, `*.csproj`,
  `package.json`), the reading of registry answers and documentation pages,
  the skill files, the search prompt's decisions, and what a run reports.
  Each public function states its result in its contract; the `law_*`
  proof functions state what holds across calls.
- `app/` is the command-line program around it: arguments, network and
  file access, prompts and progress bars.
- `tests/` runs the library on concrete values.
