use executive::control_error::AgentControlErrorKind;
use executive::live_runs::{sort_by_id, validate_background_resources, ManagedResource};

fn ids(values: &[&str]) -> Vec<String> {
    values.iter().map(|v| v.to_string()).collect()
}

#[test]
fn duplicate_resource_is_rejected() {
    let err = validate_background_resources(&ids(&["same", "same"]), 16).unwrap_err();
    assert_eq!(err.kind, AgentControlErrorKind::InvalidRequest);
    assert_eq!(err.message, "background resource IDs must be unique");
}

#[test]
fn resource_declarations_are_checked_in_order() {
    assert!(validate_background_resources(&ids(&["a", "b"]), 2).is_ok());
    assert_eq!(
        validate_background_resources(&ids(&["a", "b", "c"]), 2).unwrap_err().message,
        "too many background resources"
    );
    assert_eq!(
        validate_background_resources(&ids(&["a", " ", "a"]), 8).unwrap_err().message,
        "background resource ID must not be empty"
    );
}

#[test]
fn quiesce_snapshot_is_sorted_by_id() {
    let sorted = sort_by_id(vec![
        ("z".to_string(), 1),
        ("a".to_string(), 2),
        ("m".to_string(), 3),
        ("ab".to_string(), 4),
    ]);
    let order: Vec<(&str, i32)> = sorted.iter().map(|(id, v)| (id.as_str(), *v)).collect();
    assert_eq!(order, vec![("a", 2), ("ab", 4), ("m", 3), ("z", 1)]);
}

#[test]
fn managed_resource_reparents_once_per_action() {
    let mut resource = ManagedResource::new("process:child".into());
    assert!(resource.reparent("process:child", "process:parent", "k1").is_ok());
    // Repeating the applied action is a no-op, whatever the owners say.
    assert!(resource.reparent("x", "y", "k1").is_ok());
    let err = resource.reparent("x", "y", "k2").unwrap_err();
    assert_eq!(err.message, "managed settlement resource owner mismatch");
    assert!(resource.reparent("elsewhere", "process:parent", "k3").is_ok());
    assert!(resource.terminate("stop"));
    assert!(!resource.terminate("stop"));
}

use executive::live_runs::{AgentBudget, ReparentAuthority};

fn path(parts: &[&str]) -> Vec<String> {
    parts.iter().map(|p| p.to_string()).collect()
}

#[test]
fn reparent_authority_covers_tools_and_roots() {
    let parent = ReparentAuthority {
        writable_roots: Some(vec![path(&["/", "work"])]),
        allowed_tools: ids(&["file_read", "bash_exec"]),
        budget: budget(10, Some(10_000_000)),
    };
    let child = ReparentAuthority {
        writable_roots: Some(vec![path(&["/", "work", "sub"])]),
        allowed_tools: ids(&["file_read"]),
        budget: budget(10, Some(10_000_000)),
    };
    assert!(parent.covers(&child));
    assert!(!child.covers(&parent));
    let outside = ReparentAuthority {
        writable_roots: Some(vec![path(&["/", "workspace"])]),
        allowed_tools: vec![],
        budget: budget(10, None),
    };
    assert!(!parent.covers(&outside));
    let no_workspace = ReparentAuthority {
        writable_roots: None,
        allowed_tools: vec![],
        budget: budget(10, None),
    };
    assert!(!parent.covers(&no_workspace));
    assert!(no_workspace.covers(&no_workspace.clone()));
}

fn budget(tokens: u64, cost: Option<u64>) -> AgentBudget {
    AgentBudget {
        max_input_tokens: tokens,
        max_output_tokens: tokens,
        max_tool_calls: tokens as u32,
        max_elapsed_ms: tokens,
        max_cost_micro: cost,
        max_depth: tokens as u16,
    }
}

#[test]
fn reparent_requires_parent_workspace_tools_and_budget_to_cover_child() {
    let parent = ReparentAuthority::new(
        Some(vec![path(&["/", "repo"])]),
        vec!["read".into(), "write".into()],
        budget(10, Some(10_000_000)),
    );
    let child = ReparentAuthority::new(
        Some(vec![path(&["/", "repo", "child"])]),
        vec!["read".into()],
        budget(5, Some(5_000_000)),
    );
    assert!(parent.covers(&child));
    assert!(parent.accepts_budget(&child));

    let excessive = ReparentAuthority::new(
        child.writable_roots.clone(),
        vec!["shell".into()],
        budget(11, Some(11_000_000)),
    );
    assert!(!parent.covers(&excessive));
    assert!(!parent.accepts_budget(&excessive));
}

#[test]
fn budget_cost_ceilings_compare_as_documented() {
    let unbounded = ReparentAuthority::new(None, vec![], budget(10, None));
    let bounded = ReparentAuthority::new(None, vec![], budget(10, Some(1)));
    assert!(unbounded.accepts_budget(&bounded));
    assert!(unbounded.accepts_budget(&unbounded));
    assert!(!bounded.accepts_budget(&unbounded));
    assert!(bounded.accepts_budget(&bounded));
    let deeper = ReparentAuthority::new(None, vec![], AgentBudget { max_depth: 11, ..budget(10, None) });
    assert!(!unbounded.accepts_budget(&deeper));
}
