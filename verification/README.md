# pi-matrix-transport

A sidecar that connects a coding agent to end-to-end encrypted Matrix rooms. It takes messages
from one allowed sender into a durable first-in-first-out queue, hands them out over a private
Unix socket, and sends the answers back: as encrypted text and, for voice messages, also as a
spoken overview. It is off unless it is switched on.

The logic is a Verus library: what it does is stated in contracts and proved. The program around
it talks to the homeserver, the database, the file system, the socket and the two outside
commands.

## The library (`src/`)

| Module | What it holds |
|---|---|
| `model` | the queue as mathematics: its tables, and what each operation does to them |
| `records`, `store`, `keyed` | the queue itself, with a journal of the rows to write to disk |
| `queue_laws` | what holds of the queue as a whole: order, deduplication, restart |
| `exchange`, `exchange_laws` | the course of a request, step by step, and what holds of every course |
| `protocol` | requests, responses, and the lines that carry them |
| `inbound` | which messages are admitted, and what of each is queued |
| `outbound` | transaction ids, formatted replies, names of audio files |
| `speech`, `speech_laws` | from Markdown to speakable text |
| `projects` | project slugs and room names |
| `config`, `paths`, `files` | configuration, paths, and private files |
| `trust` | whether the device may be used |
| `schema` | stored names, and how older tables are brought up to date |
| `ids`, `encoding`, `clock`, `text` | identifiers, base64, hexadecimal and decimal text, time, characters |

The functions marked `external_body` and the items under `assume_specification` call other crates
or the standard library. Their contracts are believed, not proved; the comment above each says
what is claimed.

Operations that read the clock come in two forms: one takes the time (`claim_at`) and has an exact
contract, the other (`claim`) reads it.

## The program (`app/`)

`main` starts up; `startup` reads the environment, secrets and directories; `database` keeps the
rows in SQLite; `socket` and `wire` carry requests and responses as JSON; `matrix`, `media` and
`inbox` do the work on the homeserver.

A change of the queue is written to the database before anything else happens. Where it cannot be
written, the queue goes back to what the database holds.
