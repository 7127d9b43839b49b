use dev_monitor::state::{ScriptState, ScriptStatus};
use dev_monitor::stepper::{stepper, NodeState};
use dev_monitor::steps::StepCatalog;

fn declared(ids: &[&str]) -> Vec<String> {
    ids.iter().map(|s| s.to_string()).collect()
}

#[test]
fn a_running_stage_is_active_and_its_incoming_link_is_travelled() {
    let catalog = StepCatalog::defaults();
    let mut run = ScriptState::default();
    run.status = ScriptStatus::Running;
    run.active_step = Some("landing".into());
    run.step_history = vec!["neo".into()];
    let steps = declared(&["neo", "landing", "raw"]);
    let s = stepper(&catalog, Some(steps.as_slice()), &run);
    let ids: Vec<&str> = s.nodes.iter().map(|n| n.id.as_str()).collect();
    assert_eq!(ids, ["neo", "landing", "raw"]);
    let states: Vec<NodeState> = s.nodes.iter().map(|n| n.state).collect();
    assert_eq!(states, [NodeState::Completed, NodeState::Active, NodeState::Pending]);
    assert!(s.nodes[1].current && !s.nodes[0].current);
    assert_eq!(s.links.len(), 2);
    assert!(s.links[0].done && !s.links[0].in_flight);
    assert!(!s.links[1].done && s.links[1].in_flight);
    assert!(s.zone.is_none());
}

#[test]
fn a_run_that_ends_on_a_branch_draws_the_branch_after_the_chain() {
    let catalog = StepCatalog::defaults();
    let mut run = ScriptState::default();
    run.status = ScriptStatus::Failed(1);
    run.active_step = Some("quarantine".into());
    let steps = declared(&["neo", "landing", "quarantine"]);
    let s = stepper(&catalog, Some(steps.as_slice()), &run);
    assert_eq!(s.nodes.len(), 2);
    assert!(s.nodes.iter().all(|n| !n.current));
    let zone = s.zone.unwrap();
    assert_eq!((zone.id.as_str(), zone.state, zone.current), ("quarantine", NodeState::Failed, true));
}

#[test]
fn a_declaration_of_branches_only_draws_the_whole_chain() {
    let catalog = StepCatalog::defaults();
    let run = ScriptState::default();
    let steps = declared(&["quarantine"]);
    let s = stepper(&catalog, Some(steps.as_slice()), &run);
    assert_eq!(s.nodes.len(), 11);
    assert!(s.nodes.iter().all(|n| n.state == NodeState::Pending));
    assert!(s.nodes[0].current);
}

#[test]
fn a_succeeded_run_completes_every_stage() {
    let catalog = StepCatalog::defaults();
    let mut run = ScriptState::default();
    run.status = ScriptStatus::Succeeded;
    let s = stepper(&catalog, None, &run);
    assert!(s.nodes.iter().all(|n| n.state == NodeState::Completed));
    assert!(s.nodes[10].current);
    assert!(s.links.iter().all(|l| l.done && !l.in_flight));
}
