# ocfshell

An interactive shell over an [OCFL](https://ocfl.io/) repository on disk, with
built-in commands `ls`, `cd`, `pwd`, `versions` and `exit`, outside programs,
and pipelines joined by ` | `.

The library (`src/`) is verified with Verus:

- `text`: whitespace, prefixes, trimming, splitting a line at ` | ` and into
  words, decimal numerals, and joining paths as `PathBuf::push` does.
- `ocfl`: storage layouts, inventories and versions; how an object identifier
  maps to its directory under the n-tuple layout (SHA-256 through `sha2`, hex
  through `hex`), where the layout declaration (read with `serde_json`) puts
  the extension's configuration, how a logical path resolves to a content
  path, what `versions` answers, and how the walk for objects steps (stopping
  on an interrupt).
- `process`: what a command line comes to (stages, pipes, `exit`), and what
  `ls`, `cd` and `pwd` answer once the repository has answered.
- `steps`: `ls`, `cd` and `pwd` as step functions: from the answers so far to
  the next question for the repository (the `OcflApi` trait) or the answer.
- `shell`: what the prompt does with what it read and with what processing
  gave, where the history file lives and what a failed load of it leads to.
- `interrupt`: the flag that SIGINT raises.

The program (`app/`) reads the terminal (`rustyline`), the file system
(`walkdir`, `serde_json`), installs the SIGINT handler (`signal-hook`), spawns
outside programs, performs the plans that the library makes and answers the
step functions' questions.
