//! Protocol logic of a small Minecraft server: wire integers, serialisation,
//! packet framing and reading, and the per-connection state machine.
pub mod client;
pub mod handlers;
pub mod leb;
pub mod mserialize;
pub mod mpacket;
pub mod mstring;
pub mod muuid;
pub mod varint;
