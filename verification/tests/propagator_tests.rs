use varprop::{
    collect_group_tree, outcome_of_write_response, plan_flat_run, plan_write_action,
    status_is_success, summarize, GroupNode, PipelineVariable, Project, Traversal,
    UpdateOutcome, WriteAction,
};

fn project(id: u64, name: &str, access_level: Option<u64>) -> Project {
    Project { id, name: name.to_string(), access_level }
}

#[test]
fn pipeline_variable_serializes_to_exact_json() {
    let v = PipelineVariable::new("K".to_string(), "V".to_string());
    let expected = "{\"key\":\"K\",\"value\":\"V\",\"variable_type\":\"env_var\"}";
    assert_eq!(v.to_json_bytes(), expected.as_bytes().to_vec());
}

#[test]
fn serialized_variable_has_exactly_the_three_fields() {
    let v = PipelineVariable::new("K".to_string(), "V".to_string());
    let bytes = v.to_json_bytes();
    let parsed: serde_json::Value = serde_json::from_slice(&bytes).unwrap();
    let obj = parsed.as_object().unwrap();
    assert_eq!(obj.len(), 3);
    assert_eq!(obj.get("key").unwrap().as_str().unwrap(), "K");
    assert_eq!(obj.get("value").unwrap().as_str().unwrap(), "V");
    assert_eq!(obj.get("variable_type").unwrap().as_str().unwrap(), "env_var");
}

#[test]
fn json_escaping_round_trips_through_a_json_parser() {
    let key = "with \"quotes\" and \\slashes\\";
    let value = "line\nbreak\ttab and caf\u{e9} \u{1f600}";
    let v = PipelineVariable::new(key.to_string(), value.to_string());
    let bytes = v.to_json_bytes();
    let parsed: serde_json::Value = serde_json::from_slice(&bytes).unwrap();
    assert_eq!(parsed.get("key").unwrap().as_str().unwrap(), key);
    assert_eq!(parsed.get("value").unwrap().as_str().unwrap(), value);
}

#[test]
fn control_bytes_take_the_six_byte_escape() {
    let v = PipelineVariable::new("K".to_string(), "a\u{1}b".to_string());
    let expected = "{\"key\":\"K\",\"value\":\"a\\u0001b\",\"variable_type\":\"env_var\"}";
    assert_eq!(v.to_json_bytes(), expected.as_bytes().to_vec());
}

#[test]
fn flat_plan_skips_below_maintainer_and_keeps_order() {
    let projects = vec![
        project(7, "alpha", Some(50)),
        project(8, "beta", Some(39)),
        project(9, "gamma", Some(40)),
        project(10, "delta", None),
        project(11, "epsilon", Some(60)),
    ];
    assert_eq!(plan_flat_run(&projects), vec![7, 9, 11]);
}

#[test]
fn flat_plan_of_ineligible_projects_is_empty() {
    let projects = vec![project(1, "a", Some(0)), project(2, "b", Some(39)), project(3, "c", None)];
    assert_eq!(plan_flat_run(&projects), Vec::<u64>::new());
}

#[test]
fn maintainer_on_a_and_guest_on_b_writes_only_to_a() {
    let projects = vec![project(1, "A", Some(40)), project(2, "B", Some(10))];
    let plan = plan_flat_run(&projects);
    assert_eq!(plan, vec![1]);
    let path = varprop::project_variable_path(plan[0], "FOO");
    assert_eq!(path, b"/projects/1/variables/FOO".to_vec());
}

#[test]
fn request_paths_render_exactly() {
    assert_eq!(varprop::membership_projects_path(), b"/projects?membership=true".to_vec());
    assert_eq!(varprop::membership_groups_path(), b"/groups?membership=true".to_vec());
    assert_eq!(
        varprop::group_projects_path(42),
        b"/groups/42/projects?per_page=100&with_shared=false&archived=false".to_vec()
    );
    assert_eq!(varprop::group_subgroups_path(0), b"/groups/0/subgroups?per_page=100".to_vec());
    assert_eq!(
        varprop::project_variable_path(18446744073709551615, "CI_KEY"),
        b"/projects/18446744073709551615/variables/CI_KEY".to_vec()
    );
}

// A tree of two top-level chains, three levels deep, two projects per
// group: the walk must visit all six groups once each and collect exactly
// 3 * 2 * 2 project identifiers.
#[test]
fn uniform_tree_yields_depth_times_branches_times_projects() {
    let tree = vec![
        GroupNode { projects: vec![100, 101], subgroups: vec![1] },
        GroupNode { projects: vec![102, 103], subgroups: vec![2] },
        GroupNode { projects: vec![104, 105], subgroups: vec![] },
        GroupNode { projects: vec![106, 107], subgroups: vec![4] },
        GroupNode { projects: vec![108, 109], subgroups: vec![5] },
        GroupNode { projects: vec![110, 111], subgroups: vec![] },
    ];
    let t = collect_group_tree(&tree, &vec![0, 3]);
    let mut visited = t.visited.clone();
    visited.sort();
    assert_eq!(visited, vec![0, 1, 2, 3, 4, 5]);
    assert_eq!(t.project_ids.len(), 3 * 2 * 2);
    let mut ids = t.project_ids.clone();
    ids.sort();
    assert_eq!(ids, (100..112).collect::<Vec<u64>>());
}

#[test]
fn leaf_root_terminates_after_a_single_level() {
    let tree = vec![
        GroupNode { projects: vec![900], subgroups: vec![] },
        GroupNode { projects: vec![901], subgroups: vec![] },
    ];
    let t = collect_group_tree(&tree, &vec![1]);
    assert_eq!(t.visited, vec![1]);
    assert_eq!(t.project_ids, vec![901]);
}

#[test]
fn shared_subgroup_is_fetched_only_once() {
    let tree = vec![
        GroupNode { projects: vec![1], subgroups: vec![2] },
        GroupNode { projects: vec![2], subgroups: vec![2] },
        GroupNode { projects: vec![3], subgroups: vec![] },
    ];
    let t = collect_group_tree(&tree, &vec![0, 1]);
    let mut visited = t.visited.clone();
    visited.sort();
    assert_eq!(visited, vec![0, 1, 2]);
    assert_eq!(t.project_ids.len(), 3);
}

#[test]
fn no_roots_yield_nothing() {
    let tree = vec![GroupNode { projects: vec![1, 2], subgroups: vec![] }];
    let t = collect_group_tree(&tree, &vec![]);
    assert!(t.visited.is_empty());
    assert!(t.project_ids.is_empty());
}

#[test]
fn duplicate_roots_are_walked_once() {
    let tree = vec![GroupNode { projects: vec![5], subgroups: vec![] }];
    let t = collect_group_tree(&tree, &vec![0, 0, 0]);
    assert_eq!(t.visited, vec![0]);
    assert_eq!(t.project_ids, vec![5]);
}

#[test]
fn traversal_worklist_dedups_and_drains() {
    let mut t = Traversal::new();
    assert!(t.is_done());
    t.enqueue(5);
    t.enqueue(5);
    t.enqueue(6);
    assert_eq!(t.pending, vec![5, 6]);
    let g = t.next_group().unwrap();
    assert_eq!(g, 6);
    t.enqueue(6);
    assert_eq!(t.pending, vec![5]);
    t.record_project_ids(&vec![70, 71]);
    assert_eq!(t.project_ids, vec![70, 71]);
    assert_eq!(t.next_group(), Some(5));
    assert!(t.is_done());
    assert_eq!(t.next_group(), None);
}

#[test]
fn success_statuses_report_updated() {
    assert!(status_is_success(200));
    assert!(status_is_success(204));
    assert!(!status_is_success(199));
    assert!(!status_is_success(300));
    assert!(matches!(outcome_of_write_response(200, String::new()), UpdateOutcome::Updated));
}

#[test]
fn failure_statuses_keep_status_and_body_for_diagnosis() {
    let o = outcome_of_write_response(403, "{\"message\":\"forbidden\"}".to_string());
    match o {
        UpdateOutcome::Rejected { status, body } => {
            assert_eq!(status, 403);
            assert_eq!(body, "{\"message\":\"forbidden\"}");
        }
        _ => panic!("a non-success status must report a rejection"),
    }
    let o = outcome_of_write_response(500, "oops".to_string());
    assert!(matches!(o, UpdateOutcome::Rejected { status: 500, .. }));
}

#[test]
fn write_action_updates_existing_and_creates_missing() {
    assert!(matches!(plan_write_action(true), WriteAction::UpdateExisting));
    assert!(matches!(plan_write_action(false), WriteAction::CreateNew));
}

#[test]
fn summary_counts_every_outcome_once() {
    let outcomes = vec![
        UpdateOutcome::Updated,
        UpdateOutcome::Rejected { status: 404, body: "missing".to_string() },
        UpdateOutcome::Updated,
        UpdateOutcome::TransportFailed { detail: "connection reset".to_string() },
        UpdateOutcome::SkippedMissing,
        UpdateOutcome::Updated,
    ];
    let s = summarize(&outcomes);
    assert_eq!(s.updated, 3);
    assert_eq!(s.rejected, 1);
    assert_eq!(s.transport_failed, 1);
    assert_eq!(s.skipped, 1);
}

#[test]
fn is_eligible_follows_the_maintainer_threshold() {
    assert!(project(1, "a", Some(40)).is_eligible());
    assert!(project(1, "a", Some(60)).is_eligible());
    assert!(!project(1, "a", Some(39)).is_eligible());
    assert!(!project(1, "a", None).is_eligible());
    assert_eq!(varprop::MAINTAINER_ACCESS_LEVEL, 40);
}
