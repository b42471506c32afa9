# herdr_share

Sharing a terminal through a relay: a host asks the relay for a code, guests join
with that code, and the relay passes the host's output on to them, replaying what
came before they joined.

`src/` is the library. It decides; it does no input or output of its own.

| module       | what it holds                                                     |
|--------------|-------------------------------------------------------------------|
| `protocol`   | the lines that hosts, guests and the relay exchange               |
| `connection` | one connection to the relay, as the relay sees it                 |
| `client`     | the same connections, as hosts and guests see them                |
| `relay`      | the table of running sessions                                     |
| `channel`    | the broadcast channel to the guests                               |
| `session`    | what a sharing process remembers                                  |
| `guest`      | a guest's keys and scrollback                                     |
| `registry`   | the file that lists the running shares                            |
| `code`       | session codes                                                     |
| `network`    | which relay, reads, terminal size, clipboard commands             |
| `cli`        | `herdr share`, `herdr join` and `herdr relay`                     |
| `text`       | trimming, splitting and numbers                                   |

Every function there has a contract that Verus proves. The functions named `law_…`
state what holds of several of them together, such as that a guest sees the whole
of the host's output whenever it joins, or that a saved share is found again. Only
the calls into `tokio`'s broadcast channel, `sha2` and a few items of the standard
library are taken on trust; their contracts stand beside them.

`app/` connects the library to sockets, files, processes and terminals. `tests/`
runs it on concrete values.
