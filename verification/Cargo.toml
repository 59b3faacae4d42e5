[package]
name = "syslog_forwarder"
version = "0.1.0"
edition = "2021"
publish = false

[dependencies]
bytes = "=1.12.1"
getopts = "=0.2.24"
lazy_static = "=1.5.1"
mio = { version = "=1.2.4", features = ["os-poll", "net", "os-ext"] }
nix = { version = "=0.31.3", features = ["signal"] }
