# daimonos_session

The session side of an agent daemon: the protocol between the daemon and its
clients, the life of a session, and what is stored of it.

- `src/` is the library, verified with Verus: its functions state in `requires`
  and `ensures` what they take and what they return, over the models that stand
  beside each type. What is believed without proof are the three wrappers in
  `foreign`, which call other crates, and one contract of std in `text`.
- `app/` runs the library: JSON on the wire and on disk, the SQLite store,
  tokio tasks, and the local socket. It performs what the library decides.
- `tests/` runs the library on concrete values.

## Modules

| Module | Contents |
| --- | --- |
| `session_protocol` | Messages, events, limits and their validation |
| `session_timeline` | The reducer from events to a bounded timeline |
| `session_core` | Turns, prompts, events, approvals, tools, persistence, reconstruction |
| `session_store` | Stored sessions, writers and their generations, summaries and scans |
| `session_interchange` | Session archives |
| `session_factory` | What a session opens with |
| `session_daemon` | The registry of sessions, connections, listings, eviction and shutdown |
| `providers` | Conversation messages |
| `foreign` | Calls into other crates, with what is relied on of each |
| `text`, `keyed` | Text and keyed lists |

Proof functions whose names begin with `law_` state what holds across several
operations, such as that a saved session loads again, that the first answer to
an approval counts, or that the pages of a listing cover it once and in order.
