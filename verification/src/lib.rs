//! Configuration model, validation, shell and PowerShell scripts, the
//! Windows Terminal command line of a project launcher, and the order in
//! which a launch prepares and opens its projects.
use vstd::prelude::*;

pub mod text;
pub mod strmap;
pub mod model;
pub mod validate;
pub mod quote;
pub mod encode;
pub mod scripts;
pub mod terminal;
pub mod resolve;
pub mod browser;
pub mod panes_tree;
pub mod output;
pub mod launch;
pub mod laws;
pub mod flow;
pub mod preparing;
pub mod separators;
pub mod replay;
pub mod setup_laws;

verus! {
} // verus!
