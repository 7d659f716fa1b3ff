[package]
name = "gnutbot"
version = "0.1.0"
edition = "2021"
publish = false

[dependencies]
futures = "0.1"
tokio = "0.1"
tokio-xmpp = "1"
xmpp-parsers = "0.13"
random = "0.12"
