# gnutbot

A chat bot for XMPP whose decisions are verified with Verus.

- `src/` is the verified library:
  - `text` — whitespace, words, prefixes, decimal numbers, string order;
  - `jid` — Jabber IDs;
  - `sendable` — the received message, its flattened form, picking the
    body and subject by language, finding the delay note;
  - `command` — replies and their addressing, the one-slot hand-over to a
    plugin, the broadcast to all plugins;
  - `pipes` — stanza routing, the rooms the bot is in, the channel
    fan-out;
  - `into_stream` — a future seen as a stream of one item;
  - `first_ready` — polling several sources in turn, first ready answers;
  - `plugins` — `^quote`, `^throw`, `^botsnack`/`^goodbot`, `^join`;
  - `xmpp`, `chance` — the calls into `xmpp_parsers` and `random`.
- `app/` is the program: the connection (`tokio_xmpp`), the
  futures sinks and streams around the library's state machines, and the
  conversions to the stanza types of `xmpp_parsers`.
- `tests/` runs the library on concrete messages.
