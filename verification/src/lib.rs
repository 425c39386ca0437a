//! LGO: the gear-set optimizer library for Lord of the Rings Online.
use vstd::prelude::*;

pub mod build_db;
pub mod build_profiles;
pub mod cache;
pub mod cli;
pub mod coverage;
pub mod derivations;
pub mod gear;
pub mod gear_doc;
pub mod gear_file;
pub mod gearstats;
pub mod install;
pub mod json;
pub mod merge;
pub mod objective;
pub mod optimizer;
pub mod order;
pub mod plugindata;
pub mod report;
pub mod report_files;
pub mod scrap;
pub mod slot_resolver;
pub mod sorting;
pub mod stat;
pub mod stat_names;
pub mod text;
pub mod toml_doc;
pub mod virtue_apply;
pub mod virtues;
pub mod wiki;
pub mod wiki_names;

verus! {
} // verus!
