//! Verified core of a CI/CD variable propagator.
//!
//! The library holds the logic of a tool that enumerates the projects a
//! bearer token can reach on a source-control host and writes a pipeline
//! variable to each eligible project: group-tree traversal, eligibility
//! planning, request-path and JSON-body rendering, and outcome
//! classification. All HTTP transport lives outside the library and hands
//! it plain values.

mod json;
mod model;
mod outcome;
mod paths;
mod plan;
mod traverse;

pub use json::esc;
pub use json::esc_byte;
pub use json::hex_digit;
pub use json::json_object_bytes;
pub use model::Group;
pub use model::MAINTAINER_ACCESS_LEVEL;
pub use model::PipelineVariable;
pub use model::Project;
pub use model::eligible;
pub use outcome::Summary;
pub use outcome::UpdateOutcome;
pub use outcome::WriteAction;
pub use outcome::count_rejected;
pub use outcome::count_skipped;
pub use outcome::count_transport_failed;
pub use outcome::count_updated;
pub use outcome::is_success_status;
pub use outcome::lemma_counts_partition;
pub use outcome::outcome_of_write_response;
pub use outcome::plan_write_action;
pub use outcome::status_is_success;
pub use outcome::summarize;
pub use paths::dec_rep;
pub use paths::group_projects_path;
pub use paths::group_projects_path_spec;
pub use paths::group_subgroups_path;
pub use paths::group_subgroups_path_spec;
pub use paths::membership_groups_path;
pub use paths::membership_groups_path_spec;
pub use paths::membership_projects_path;
pub use paths::membership_projects_path_spec;
pub use paths::project_variable_path;
pub use paths::project_variable_path_spec;
pub use paths::project_variables_path;
pub use paths::project_variables_path_spec;
pub use paths::push_u64_dec;
pub use plan::count_eligible_with_id;
pub use plan::count_id;
pub use plan::eligible_ids;
pub use plan::lemma_count_id_zero_iff_absent;
pub use plan::lemma_eligible_planned_exactly_once;
pub use plan::lemma_ineligible_id_never_planned;
pub use plan::lemma_plan_counts_eligible;
pub use plan::plan_flat_run;
pub use traverse::GroupNode;
pub use traverse::Traversal;
pub use traverse::child_of;
pub use traverse::collect_group_tree;
pub use traverse::concat_projects;
pub use traverse::lemma_leaf_root_single_level;
pub use traverse::lemma_uniform_tree_yield;
pub use traverse::tree_wf;
