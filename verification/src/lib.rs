//! The part of an IRC client that decides: what the messages of a server change, show and ask
//! for, what is sent for what the user types, and what the window shows of it.
//!
//! Connections, the configuration file and the window itself are the business of the program
//! around the library. It hands in plain values and carries out what comes back.

// Text, ordered lists, and tables of lists.
pub mod text;
pub mod text_laws;
pub mod sorting;
pub mod roster;
pub mod roster_laws;
pub mod letter_case;
pub mod clock;

// What comes in and what goes out.
pub mod message;
pub mod events;
pub mod config;

// Capabilities and authentication, before the client registers.
pub mod caps;
pub mod sasl;
pub mod negotiate;
pub mod negotiate_laws;

// A session with a server.
pub mod ctcp;
pub mod session_model;
pub mod session;
pub mod session_laws;
pub mod routing_laws;

// What the user types, and what the window shows.
pub mod outgoing;
pub mod outgoing_laws;
pub mod workspace;
pub mod workspace_laws;
