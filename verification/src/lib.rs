//! A shell proxy for readers with little room: commands are run as they are
//! typed, and of what they write only what matters is passed on.
//!
//! Output is cut into lines ([`line_buffer`]), each line is judged by general
//! signs and by the grammar of the tool that wrote it ([`classifier`],
//! [`grammar`]), and what is left is condensed ([`emit`]) and put for showing
//! ([`format`]). Failures are explained ([`enrich`]), runs are logged
//! ([`audit`]), and long-lived shells are kept in sessions ([`session`]).
//! Everything here computes; reading, writing and running are left to the
//! caller.
pub mod agents;
pub mod audit;
pub mod calendar;
pub mod category;
pub mod classifier;
pub mod config;
pub mod config_loader;
pub mod distance;
pub mod emit;
pub mod enrich;
pub mod format;
pub mod grammar;
pub mod json;
pub mod line_buffer;
pub mod management;
pub mod metrics;
pub mod order;
pub mod outside;
pub mod paths;
pub mod preflight;
pub mod proxy;
pub mod pty;
pub mod session;
pub mod stat;
pub mod strmap;
pub mod text;
