# warp_ssh

The SSH side of a terminal application, as a verified Verus library.

- `src/` decides and computes: which program is started and with which arguments, what its output
  means, which node of the SSH manager is connected to which host. The contracts of its public
  functions say what they return and change.
- `tests/` runs the library.
- `app/` is ordinary Rust around it: it starts the processes, writes the temporary files, and talks to
  the application.

| module | what it holds |
|---|---|
| `text` | lines, words, trimming and numbers, over sequences of characters |
| `table` | a map from texts to values (internal) |
| `process` | programs to start and what came back, as plain values |
| `ids` | the names of terminals, sessions and hosts |
| `ssh` | commands through the socket of an existing SSH connection |
| `settings` | the user's settings and what they make of SSH |
| `connection_model` | the connections of the nodes, their terminals, sessions and hosts |
| `sftp_browser_model` | the hosts that are browsed, and the programs that reach them |
| `sftp_listing` | what `sftp` prints: directories and the files in them |
| `autoupdate` | the names of the packages |

Proof functions whose names begin with `law_` state what holds of several functions together.
