use vstd::prelude::*;

pub mod ast_deps;
pub mod atomic;
pub mod build_steps;
pub mod builder;
pub mod checkpoint;
pub mod extractor;
pub mod json;
pub mod mapping;
pub mod output;
pub mod paths;
pub mod patterns;
pub mod resolve;
pub mod runtime;
pub mod scan_tree;
pub mod scanner;
pub mod script_view;
pub mod search;
pub mod sidecar;
pub mod sorted_map;
pub mod sorting;
pub mod syntax;
pub mod table;
pub mod text;
pub mod text_map;
pub mod treesitter_deps;
pub mod tui;
pub mod vc;
pub mod walk;

verus! {

} // verus!
