//! Core of a desktop launcher: pattern capture, action dispatch, fuzzy ranking,
//! keyword and snippet automata, the script-filter result cache, the file index
//! bookkeeping and the in-memory record store, each with a verified contract.
use vstd::prelude::*;

pub mod text;
pub mod action;
pub mod pattern;
pub mod automaton;
pub mod dispatch;
pub mod fuzzy;
pub mod indexer;
pub mod file_index;
pub mod search;
pub mod script;
pub mod snippet_matcher;
pub mod store;
pub mod records;
pub mod snippet_store;

verus! {

} // verus!
