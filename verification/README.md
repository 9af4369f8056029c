# mati

The rules behind `mati`, a command line program that keeps what is known of a
project — gotchas, decisions, files and how they change together — and makes
coding agents read it before they touch a file.

`src/` is the library, verified with Verus. Every public function has a contract
that says what it returns; public `law_…` proof functions state what holds
between functions, such as that applying sandbox rules twice changes nothing,
that a further file never weakens a refusal, or that no start of the daemon
leaves its sentinel behind. Calls into other crates stand behind small wrappers whose
contracts are not proved; each says so.

| Part | Modules |
| --- | --- |
| Text, paths, dates, JSON | `text`, `paths`, `civil`, `json`, `strset`, `ranking`, `colors`, `host` |
| Hooks | `hook`, `enforce`, `gate`, `globs`, `hooks` |
| Daemon and store access | `daemon`, `startup`, `sentinel`, `proxy` |
| First analysis | `init`, `signals`, `language` |
| Records | `record`, `show`, `listing`, `history`, `search`, `stale` |
| Gotchas and the sandbox | `gotcha`, `sandbox` |
| Views of the project | `diff`, `explain`, `gaps`, `clusters` |
| Health and settings | `check`, `doctor`, `repair`, `config`, `policy`, `eval`, `enrich` |

Floats do not occur in the library: a score is the bit pattern of a float that is
not negative, which orders as the float does, together with its text.

`app/` is the program around it: arguments, files, sockets, processes and tables.
The knowledge store and the source analysis run as a program of their own, which
`app/engine.rs` talks to. `tests/` holds the tests of the library.
