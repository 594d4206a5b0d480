//! Authoritative simulation for a multiplayer duck arena: bread physics,
//! pickups, round scoring, lobby state and the text protocol.
//!
//! Lengths are thousandths of a world unit, headings thousandths of a
//! radian, and times milliseconds since the epoch, all integers: the
//! session layer converts the clients' floats at the edge.
pub mod physics;
pub mod podium;
pub mod lobby;
pub mod codec;
pub mod command;
pub mod world;
pub mod chance;
