//! IDE-grade Rust debugging for coding agents.

pub mod answer;
pub mod batch;
pub mod breaks;
pub mod cargo;
pub mod cli;
pub mod client;
pub mod daemon;
pub mod dap;
pub mod decimal;
pub mod frame;
pub mod ids;
pub mod inspect;
pub mod json;
pub mod launch;
pub mod locals;
pub mod loops;
pub mod lsp;
pub mod mcp;
pub mod num;
pub mod ops;
pub mod places;
pub mod predicate;
pub mod render;
pub mod report;
pub mod requests;
pub mod rpncalc;
pub mod run;
pub mod session;
pub mod stack;
pub mod state;
pub mod subcommands;
pub mod text;
pub mod tools;
pub mod util;
pub mod wants;
