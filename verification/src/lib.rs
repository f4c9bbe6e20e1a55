use vstd::prelude::*;

pub mod text;
pub mod similarity;
pub mod truncation;
pub mod edit_strategies;
pub mod fuzzy_match;
pub mod indent_match;
pub mod edit;
pub mod patch_parse;
pub mod patch_apply;
pub mod agent;
pub mod read;
pub mod integration;
pub mod artifacts;
pub mod bash;
pub mod web_fetch;
pub mod search_tools;
pub mod ls;
pub mod agent_tools;
pub mod misc_tools;
pub mod registry;
pub mod builtin;
pub mod upload;
pub mod ping;
pub mod tasks;
pub mod lsp_results;
pub mod similar_files;
pub mod spider;
pub mod rtk;

verus! {
} // verus!
