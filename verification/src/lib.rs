//! A small SMTP submission relay that forwards mail to the Cloudflare Email Service.
//!
//! The relay's rules stand here: what its configuration has to look like, which clients and
//! messages it accepts, what it spools and how delivery is retried, what it sends, and what the
//! replies mean.

pub mod cloudflare;
pub mod config;
pub mod mime;
pub mod queue;
pub mod reload;
pub mod smtp_server;
pub mod text;
pub mod tls;
