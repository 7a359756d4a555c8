//! Verified core logic of a JavaScript/TypeScript project analyzer.
use vstd::prelude::*;

pub mod boundary;
pub mod boundary_coverage;
pub mod cloud_client;
pub mod coverage_gaps;
pub mod fixability;
pub mod grouping;
pub mod health_config;
pub mod health_targets;
pub mod lexical;
pub mod lexorder;
pub mod list_output;
pub mod package_assets;
pub mod path_order;
pub mod radix;
pub mod runtime_filter;
pub mod security_output;
pub mod stable_sort;
pub mod suffix_array;
pub mod parse_scripts;
pub mod pr_comment;
pub mod plugins;
pub mod text;
pub mod unused_svelte_event;
pub mod walkthrough;

verus! {

} // verus!
