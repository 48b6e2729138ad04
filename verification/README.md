# awaken_foundation

Verified building blocks for services, written in Verus. `src/` is the library:
every function states what it returns or changes, and every statement is proved.

| module | what it decides |
|---|---|
| `api_contract` | list queries from decoded query pairs, their allowlist, pagination, credential references |
| `query` | parameterized SQL for PostgreSQL and SQLite, keyset cursors, grouped windows, the string filter grammar |
| `scoped_migration` | migrations and bundles, their identity, the lint, the plan, and runs as conversations with a database |
| `sql_migration` | the plain-SQL ledger and the split of SQL text into statements |
| `config` | layered, namespaced settings |
| `connection`, `connection_auth` | connection failures, pairing, header material that is safe to send |
| `transports` | HTTP addresses and exchanges, the NATS byte stream |
| `guardrail` | the layering rule on workspace manifests |

`query::laws` and the proof functions beside the code state what holds of the
library as a whole: that values never reach SQL text, that a keyset condition
selects exactly the rows beyond the cursor, that a run applies exactly its plan and
applies nothing twice.

Numbers with a fraction are kept as the numerals that write them; drivers turn them
into floating point. Numerals compare as the double-precision numbers that they write.

What the library believes of other crates stands in the wrappers marked
`external_body`: SHA-256 (`checksum`), equality of double-precision numbers
(`api_contract::numeral`), JSON and base64 (`query::cursor`), URLs
(`transports::http`), and the debug form of a string (`connection_auth`).

`app/` drives the library: the guardrail task, the wire forms with `serde`, the
connection traits, the HTTP and NATS transports, and the migration runners over
`rusqlite` and `sqlx`. `tests/` runs the library, the SQLite runs against a real
database.
