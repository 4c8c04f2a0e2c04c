# agent-salon

A gathering place for coding-agent sessions. Sessions connect with a label and
exchange channel notifications, targeted by label or broadcast; external
processes drop messages in through a webhook. Every message is stored and can
be browsed on an admin page.

`src/` holds the rules of the salon, verified with Verus:

| module | what it decides |
|--------|-----------------|
| `config` | settings from the environment and a config file |
| `mcp` | the session registry, and the tools that sessions call |
| `delivery` | the delivery of one notification: probes, retries, outcomes, the stored row |
| `http` | the webhook's request, and the replies |
| `db` | what is stored of a message, how it is read back, and the SQL that finds it |
| `store` | what the statements ask of the table, and what follows |
| `admin` | the admin pages |
| `metrics`, `jsonl`, `log` | what is counted and logged |
| `text`, `json`, `html`, `time`, `ids` | the texts they are made of, and the calls into the crates that make them |

`app/` is the daemon around it: sockets, the database, files and the clock's
waits. `tests/` run the library.

The delivery is a machine that asks for one action at a time (`next_action`)
and is told what came of it (`step`); the daemon's loop performs the actions.
