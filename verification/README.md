# konform

A multi-rule Python linter and language server whose logic is verified with Verus.

* `src/` is the library. Every function states what it returns over a mathematical model, and Verus
  proves it.
* `app/` is the program around it: command line, files, processes, the language server's messages
  and the Zed extension.
* `tests/` runs the library on concrete files and settings.

## Rules

* **KIS001** — `from X import Y` imports a module, not an object. Rewritten where that is safe.
* **KIS002** — `from X import Y as Z` renames only where the name is taken.
* **KPT** — patterns that a project defines by regular expressions.

## The library

| Part | Modules |
| --- | --- |
| Text, lines, paths | `text`, `split`, `ordered`, `sorting`, `line_index`, `paths`, `edit`, `xml` |
| Python sources | `syntax`, `scope`, `imports`, `import_items` |
| Modules of the environment | `module_facts`, `module_probe`, `memo`, `search_path`, `questions` |
| Rules | `rules`, `kis001`, `kis001_fix`, `rewrite`, `kis002`, `kpt`, `kpt_fix`, `kpt_target`, `matching`, `noqa` |
| Running rules | `engine`, `fix_run`, `check_laws`, `kis002_laws`, `noqa_laws` |
| Configuration | `config`, `config_read`, `kpt_read`, `document`, `json`, `parse`, `migrations`, `upgrade`, `overrides` |
| Commands | `cli`, `run`, `git`, `init`, `rule_command`, `diff`, `cache` |
| Output | `types`, `report`, `output`, `formats`, `statistics`, `theme`, `zuul` |
| Editors | `lsp_position`, `lsp_session`, `lsp_actions`, `lsp_diff`, `zed` |

Names that begin with `law_` are properties of the library as a whole, each proved from what the
functions' contracts state.

The Python parser, TOML, YAML and JSON, regular expressions, globs, hashes, diffs, escape codes, the
concurrent map and the binary format of the cache come from other crates. The library calls them
through small trusted functions; the doc comment of each says what is taken on trust.

`get-size2` stands among the dependencies only to hold the version that the crates of the Python
parser build with.
