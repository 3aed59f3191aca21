# patchcord

An audio patchbay for sharing the sound of chosen applications on PipeWire: it
keeps a virtual sink, and a virtual microphone if one is wanted, routes
applications into it, and links applications into the capture nodes of Discord.

- `src/` is the library, written in Verus. Every operation that takes several
  looks at the world is a function from a state and an event to the next state
  and the next step; its contract says exactly which. What the steps ask for is
  done elsewhere.
- `app/` does it: it runs the command-line tools, talks to the PipeWire server on
  a thread of its own, reads and writes files, and holds the functions that
  stand before those of `libpulse`.
- `tests/` runs the library.

| module | what it is about |
| --- | --- |
| `text`, `table`, `routes`, `json` | texts, tables by id, sets of routes, JSON values |
| `models`, `routing`, `listing` | nodes and ports, which port is joined to which, what is offered |
| `error`, `cmd`, `detect`, `snapshot`, `state` | the session on `pactl`, `pw-dump` and `pw-link` |
| `pw_backend`, `state_native`, `discord_capture` | the session on the live graph |
| `config`, `patchbay`, `protocol` | the setup, the choice of a backend, requests and answers |
| `capture_shim`, `setup` | what Discord may record, and patching its voice module |
| `spike` | the decisions of a trial run |

What is believed without proof is said at the items that call `miniserde`,
`arwen` and the standard library: `json`, `setup`, `cmd` and `text`.
