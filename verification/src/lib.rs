//! gitgui library: the terminal protocols, parsers and git text
//! transformations behind the terminal git GUI.
use vstd::prelude::*;

pub mod agent;
pub mod cli;
pub mod demo;
pub mod git;
pub mod render;
pub mod runtime;
pub mod seqs;
pub mod shell;
pub mod split;
pub mod term;
pub mod text;

verus! {

} // verus!
