//! Core of a protocol-multiplexing tunnel endpoint: the bounded inbound
//! buffer fed by a message-framed transport, the prefix classifier that picks
//! the tunnel protocol, and the session decisions around them.
use vstd::prelude::*;

pub mod bytes_buf;
pub mod config;
pub mod proxy_list;
pub mod route;
pub mod sniff;
pub mod stream;
