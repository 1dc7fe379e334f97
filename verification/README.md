# gongd

A daemon that watches local folders and tells subscribers over a Unix socket what
changed in them. Folders with a `.git` directory are watched in Git mode: their ignore
rules are respected, and changes of Git's own data are told too. A config file decides
which folders are watched; a second socket takes requests that change it.

`src/` is the library, verified with Verus: it decides everything and touches neither
disk nor sockets. What the disk, the environment and the sockets say comes in as plain
values, and what is to be done goes out as plain values.

| modules | about |
| --- | --- |
| `components`, `fs_path`, `order` | paths as byte strings: components, prefixes, joins, order |
| `text`, `views`, `error`, `environment` | text, views of containers, errors, variables |
| `paths`, `args` | `~` and `$NAME` in paths, start-up options |
| `ignore_rules`, `folder`, `repo` | ignore rules, watched folders, repositories |
| `protocol`, `server`, `client` | what goes over the sockets, on either side |
| `clock`, `dedup`, `event`, `translate` | from file-system reports to events |
| `config`, `watch_config`, `skipped`, `watch`, `prune` | from the config file to the watched folders |

Functions named `law_...` state what holds of several functions together.

`app/` is the daemon around the library, and a blocking client: command line, JSON, file
watchers, sockets. `tests/` runs the library on concrete values.

What is believed and not proved are the contracts of the functions that call `ignore`,
and of a few of the standard library: each says so where it stands, in `ignore_rules`,
`text` and `clock`. Those that call `ignore` also believe that `bstr` makes a path of
bytes without changing any, as it does on Unix.
