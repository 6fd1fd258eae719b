//! Verified core of the rigg workspace tool.
pub mod text;
pub mod resources;
pub mod adopt;
pub mod binding;
pub mod ask;
pub mod workspace;
pub mod store;
pub mod proposals;
pub mod auth;
pub mod diff_output;
pub mod project_graph;
pub mod endpoints;
pub mod api_versions;
pub mod docs;
pub mod commands;
pub mod json;
pub mod site_auth;
pub mod credentials;
pub mod rewrite;
pub mod agent;
pub mod ordering;
pub mod environments;
pub mod project_report;
pub mod indexer_runs;
pub mod long_text;
pub mod sorting;
pub mod canonical;
