# skills_manager

The decision logic of a manager for AI agent skills, proved with Verus.

The manager keeps skills in one central repository and deploys them to the
skills directories of coding agents, grouped into presets (scenarios). This
crate holds what it decides, as verified functions with contracts:

- `skills`, `updates`: skill records and their views, update checks, git
  updates and local reimports (as steps between the I/O they need), the
  source/center reconciliation, install metadata.
- `cli`, `skill_commands`, `presets`: which skills, presets and agents a
  command names, how tags change, which (skill, agent) pairs a deployment
  changes, listing filters, status reports.
- `deployment`: the check after a deployment or a removal, pair by pair,
  from the target records and what was found on disk.
- `scenarios`, `agents`, `workspace`, `hosts`: deployments a preset asks for,
  which to keep, replace or remove, agent toggles, project and agent-local
  skills and their match in the central repository.
- `project_skills`: where a project keeps its skills, which directory
  enabling, disabling, reading, deleting, exporting or refreshing a
  project's skill touches, and how a project's or an agent's skill enters
  the library.
- `markdown`, `translation`, `translation_service`: the translatable units of
  a skill document, their batching, the service's answers, and the cache key.
- `remote`: remote machines over SSH, listings and shell-safe paths.
- `logs`, `settings`, `ai`: log excerpts and archives (with the home
  directory hidden), version comparison,
  the AI provider settings.
- `text`, `sorting`, `error`: string and ordering helpers, the error type.

Calls into other crates (`pulldown-cmark`, `semver`, `url` through
`reqwest`, `serde_json`, `sha2`, `uuid`) and a few `std` functions stand
behind small trusted wrappers whose contracts say what the call returns.

`tests/` runs the library on concrete values. `app/` is a command-line
front end with the I/O: files, HTTP, `ssh`, the AI bridge process, and JSON
output.
