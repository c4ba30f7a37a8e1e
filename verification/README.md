# replstoke

Keep a REPL warm and call it like a one-shot tool: a server wraps a
long-running REPL process, and short-lived clients send it input and read back
its response, up to an end-of-response marker.

This crate is the verified core of the tool, written in Verus:

| module       | what it holds |
|--------------|---------------|
| `marker`     | the streaming end-of-response marker scanners, with the laws that chunking never changes what they report |
| `protocol`   | the framed server-to-client packet format: encoding, incremental decoding, `ctl` messages, and the round-trip laws |
| `cli`        | the command line tokenizer |
| `validate`   | mode selection, option checks and defaults, from tokens to a typed configuration |
| `config`     | the typed configuration |
| `server`     | the server's control state machine, its supervision decisions (readiness, warmup, draining, the crash-loop breaker) and the watching of the REPL's output |
| `client`     | the client's response handling, framed and raw |
| `names`      | default socket / pidfile names and discovery among a directory's file names |
| `utc`        | Gregorian UTC timestamps |
| `general`    | what `--kill` reads from a pidfile |
| `bytes`, `text`, `error` | byte, text and error helpers with exact contracts |

`app/` is the program around it: argument access, sockets, processes, threads,
signals, clocks, the conversion of duration texts (floating point) and printing.
Every decision the program takes is made by a function of the library.

`tests/` exercises the library through its public interface.
