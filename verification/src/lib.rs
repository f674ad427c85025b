//! Regional message routing for a regionally distributed WebSocket chat
//! service.
//!
//! Clients connect to the regional server nearest to them; a message for a
//! user of another region travels between regions over NATS. The modules:
//!
//! - `server`: the decisions of a regional server — connect, disconnect,
//!   route a client's message, deliver a forwarded message, track presence —
//!   with the laws that tie them together;
//! - `maps`: the server's connection and presence maps (`dashmap::DashMap`);
//! - `nats`: the messages that regions exchange and their subjects;
//! - `router`: the global router's region map, route answers and listings;
//! - `config`: a server's configuration and port-number reading;
//! - `client`: the command-line client's arguments, URLs and output lines;
//! - `text`: character-level string operations with their meaning.
pub mod client;
pub mod config;
pub mod maps;
pub mod nats;
pub mod router;
pub mod server;
pub mod text;
