# stale-urls

`stale-urls` checks commit-pinned GitHub source links in the current repository
for stale line references. It recognizes links of this form in tracked files:

```text
https://github.com/OWNER/REPOSITORY/blob/FULL_40_CHARACTER_COMMIT/PATH#L10-L20
```

Tracked symbolic links are read as their stored link values and are never
followed.

A run scans the tracked files, prepares a cached clone of every repository that
is linked to, checks each link against the current default branch, and
investigates the links whose lines are no longer where they were. It exits
unsuccessfully if a link is stale or cannot be checked.

## Layout

The library under `src/` is verified with [Verus](https://github.com/verus-lang/verus).
It does no input or output of its own: Git, the file system and the terminal are
reached through functions that the caller hands in. Whatever is asked of them or
told to them goes through a value that logs it, and a contract says by a plan what
is added to that log, step by step, and what is made of the answers.

| Modules | What they hold |
| --- | --- |
| `text`, `order`, `style`, `failure` | texts, their order and styling, errors |
| `plan`, `world`, `tree`, `listener`, `service` | what is asked and told, and its log |
| `candidate`, `url`, `index`, `scan` | finding links in tracked files |
| `git`, `porcelain`, `repository`, `cache` | commands, their replies, cached repositories |
| `lines`, `history`, `verdict` | whether and where the lines of a link were lost |
| `group`, `course`, `outcome`, `check` | the check of all links, phase by phase |
| `quiet`, `phases`, `account`, `isolation`, `agreement` | what holds of every check |
| `report`, `progress`, `summary` | what is written |

`app/` is the program around the library: it runs Git, reads files, and writes
to the terminal.
