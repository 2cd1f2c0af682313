# oxy

The core of a remote-access session: two peers, a client and a server, that exchange messages
over an encrypted connection, and with them terminals, piped commands, files, forwarded ports and
network tunnels.

`src/` decides and is verified with Verus. It does no I/O: it is told what happened, and answers
with the state that follows and a list of actions. `app/` performs the actions on real transports,
files, terminals and processes.

| module | what it holds |
| --- | --- |
| `frame` | cutting messages into frames of a fixed size |
| `noise`, `zlib`, `words` | the calls into `snow`, `libflate` and `shlex` |
| `channel` | sealing, sending, receiving, opening |
| `delivery` | what is sent arrives |
| `message`, `action` | what the peers say, and what the program is asked to do |
| `state` | one end of a connection |
| `transfer` | files on their way to the peer |
| `file_delivery` | files reach the peer |
| `arguments`, `startup` | the command line, and the beginning and end of a session |
| `notify` | news from streams, terminals, child processes and signals |
| `transport` | the steps through the news of the main transport |
| `laws` | what holds across the functions |

What `snow`, `libflate` and `shlex` do is not proved here. The functions in `noise`, `zlib` and
`words` that are marked `external_body` say what is believed of them.
