//! The verified core of a server agent.
//!
//! Agents connect to a server with a token, report how their machines are doing,
//! and run the commands that an operator enters at the server's console. This
//! library decides all of that: who is let in, what is kept, what is printed, and
//! which command goes where. Sockets, files, processes and the terminal are left
//! to the programs around it.
//!
//! - [`text`]: white space, words, fields, columns and numbers.
//! - [`messages`]: what the two sides exchange.
//! - [`channel`] and [`clock`]: the ways out of the library.
//! - [`tls`]: certificates and keys.
//! - [`server`]: what the server knows.
//! - [`console`]: how it is run.
//! - [`agent`]: what an agent does.
//! - [`laws`]: what holds of all of this together.
//! - [`text_operations`], [`agent_operations`], [`server_operations`],
//!   [`console_operations`], [`tls_operations`]: what the calls give for what they
//!   are given.

pub mod agent;
pub mod agent_operations;
pub mod channel;
pub mod clock;
pub mod console;
pub mod console_operations;
pub mod laws;
pub mod messages;
pub mod server;
pub mod server_operations;
pub mod text;
pub mod text_operations;
pub mod tls;
pub mod tls_operations;
