//! Minimal Minecraft **Java Edition** (1.7+) server list ping.
//!
//! The modern protocol, over TCP:
//!
//! ```text
//! Client → Server: Handshake    (0x00) protocol, host, port, next_state=1
//! Client → Server: Status req   (0x00)
//! Server → Client: Status resp  (0x00) JSON: version / players / description…
//! Client → Server: Ping         (0x01) i64 timestamp     [optional]
//! Server → Client: Pong         (0x01) same timestamp    [optional]
//! ```
//!
//! * [`models`] holds the address, the options and the results, [`address_laws`]
//!   what holds of addresses and their texts. [`ip`] reads and writes IP literals,
//!   and [`ip_laws`] says what they look like.
//! * [`protocol`] builds and reads packets and frames, over the numbers of
//!   [`wire`]; [`protocol_laws`] says how they read back and when they are refused.
//! * [`srv`] picks among SRV records, [`srv_laws`] says how fairly, and
//!   [`resolve`] applies the choice to an address.
//! * [`session`] makes the decisions of one ping, and [`session_laws`] says what
//!   they add up to. The caller does the I/O.
//! * [`chat`] renders a Chat component, a [`json`] value, into `§`-coded legacy
//!   text or into plain text, with the styles of [`style`]. [`client`] models the
//!   client that reads the codes. [`chat_laws`] says what each shape of component
//!   shows, [`component_laws`] what components share, and [`style_laws`] how styles
//!   and colors come about.
//! * [`text`] holds what the others need of characters and numerals, with
//!   [`text_laws`].

pub mod address_laws;
pub mod chat;
pub mod chat_laws;
pub mod client;
pub mod component_laws;
pub mod error;
pub mod ip;
pub mod ip_laws;
pub mod json;
pub mod models;
pub mod protocol;
pub mod protocol_laws;
pub mod resolve;
pub mod session;
pub mod session_laws;
pub mod srv;
pub mod srv_laws;
pub mod style;
pub mod style_laws;
pub mod text;
pub mod text_laws;
pub mod wire;

pub use error::Error;
pub use models::{
    PingOptions, PingResult, PlayerSample, Players, ResolvedAddress, ServerAddress, StatusResponse,
    Version, DEFAULT_PORT,
};
