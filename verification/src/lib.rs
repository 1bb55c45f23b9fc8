//! Decision logic of the dsh command line tools.
//!
//! Every module is a set of functions from plain values to plain values: the
//! text of a file, the output of a command or the arguments of a subcommand
//! come in, and a report, a request or the next step goes out.
pub mod text;
pub mod num;
pub mod order;
pub mod json;
pub mod args;
pub mod release;
pub mod table;
pub mod report;
pub mod deploy;
pub mod guard;
pub mod clock;
pub mod version;
pub mod raise;
pub mod path;
pub mod bus;
pub mod stamp;
pub mod bus_http;
pub mod http;
pub mod board;
pub mod follow;
pub mod handoff;
pub mod messages;
pub mod assess;
pub mod workflow;
pub mod drain;
pub mod condense;
pub mod noise;
pub mod channel;
pub mod gate;
pub mod ledger;
pub mod repo;
pub mod health;
pub mod pitfalls;
pub mod proxy;
pub mod cli;
