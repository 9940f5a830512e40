# vcs-flow-commit

The decisions behind `commit`, an interactive terminal tool that commits picked
changes to git or jj, offers to push them, and helps to open a pull request. They are
written in Rust and verified with Verus; the terminal, the files and the other
programs are driven by a thin application around them.

- `src/` is the library. Every function states what it returns or changes, and Verus
  proves it. Flows that need the outside between their decisions are functions from
  the reply to the last step to the next step, so that what they do is proved for
  every reply.
- `app/` is the program: arguments, screens, commands, settings files.
- `tests/` runs the library on concrete values.

| Module | What it decides |
|---|---|
| `session` | the rounds of a session, the way to a commit plan, what is drafted from |
| `tree`, `forest` | the compressed tree of changes and what is selected of it |
| `tree_laws`, `selection_laws` | what holds of every tree and of every selection |
| `patch`, `partial`, `commit` | cutting patches into hunks, and making a commit |
| `push`, `integrate` | where a push goes, and integrating what is there first |
| `pr`, `revert` | the pull request step, and reverting files of the branch |
| `ai`, `ai_loop` | prompts, what is kept of a draft, and trying another model |
| `settings`, `prompt`, `repo`, `vcs` | settings, answers, repositories and their replies |
| `ui` | keys, rows, panes and texts of the screens |

What is not proved is marked `external_body` or `assume_specification` in the source,
with what is claimed of it: `String::push`, `String::from_utf8_lossy`,
`str::to_lowercase`, the filesets of `vcs-jj`, and the highlighting of `syntect`.
