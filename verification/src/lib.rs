//! Waldo Royale's rules: the random stream every player shares, scoring, the protocol, the
//! lobby as a state machine with no I/O, and what the server, the hosting browser and the
//! client decide around it.

pub mod figure;
pub mod laws;
pub mod lobby;
pub mod model;
pub mod net;
pub mod netplay;
pub mod ordering;
pub mod peer;
pub mod protocol;
pub mod rendezvous;
pub mod rng;
pub mod routing;
pub mod rules;
pub mod scene;
pub mod scoring;
pub mod server;
pub mod session;
pub mod shapes;
pub mod signal;
pub mod state;
pub mod text;
pub mod ui;
pub mod worldgen;
