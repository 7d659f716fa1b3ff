//! gnutbot: a chat bot for XMPP.
//!
//! The library holds what the bot decides: how incoming stanzas are
//! routed, how a message is flattened for the plugins and built back into a
//! stanza, which rooms the bot is in, how messages are handed to the
//! plugins one at a time, and what each plugin (`^quote`, `^throw`,
//! `^botsnack`, `^join`) answers. The connection, the futures plumbing and
//! the conversions to the types of `xmpp_parsers` live in the program
//! around it.
pub mod text;
pub mod jid;
pub mod xmpp;
pub mod sendable;
pub mod command;
pub mod chance;
pub mod plugins;
pub mod pipes;
pub mod into_stream;
pub mod first_ready;
