# btram

btram keeps btrfs snapshot mounts on their newest clean snapshot. It is a companion to
btrbk, which makes the snapshots.

The library in `src/` makes every decision and is verified with Verus. It touches
neither files nor processes: `session::Session` is a state machine that is told what was
read and how commands ended, and answers with what is to be done next. The program in
`app/` reads the configuration and the mount table, lists paths, runs commands and prints
messages.

| module    | what it holds                                                        |
| --------- | -------------------------------------------------------------------- |
| `text`    | string operations on sequences of characters                         |
| `table`   | an ordered map from texts to values                                  |
| `pattern` | the regular expressions, what they accept, the calls into `regex`    |
| `error`   | the errors and their texts                                           |
| `message` | what is told to the user                                             |
| `mounts`  | the lines of the mount table                                         |
| `config`  | the configuration and its loader                                     |
| `subvol`  | the answers of `btrfs subvolume show`, and when a snapshot is clean  |
| `series`  | snapshot names                                                       |
| `latest`  | the search for the latest clean snapshot of a series                 |
| `process` | what is to be done about a mounted file system                       |
| `remount` | the commands that put a subvolume on a mount point                   |
| `session` | a whole run                                                          |
| `laws`    | what holds of every run                                              |

Specifications speak of `Seq<char>` where programs hold a `String`; types that occur in
both have the text type as a parameter.

What is taken on trust, each with its contract: the capture groups of `regex::Regex`, the
result of `regex::escape` (both in `pattern`), and the result of `String::from_utf8` with
the text of its error (in `subvol`).
