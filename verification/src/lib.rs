//! Nucleus: the STM32 constraint database, pin-mux solver, clock-tree
//! resolver, ITM/SWO decoder and project ledger behind the `nucleus` tool.

pub mod db;
pub mod text;
pub mod itm;
pub mod compiler;
pub mod ledger;
pub mod history;
pub mod hil;
pub mod cli;
pub mod trace;
pub mod sdk;
pub mod lsp;
