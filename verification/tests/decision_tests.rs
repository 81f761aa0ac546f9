use dry_exec_core::decision::environment::DeltaSummary;
use dry_exec_core::decision::primitives::{Choice, Noul};
use dry_exec_core::decision::{choice_for, consults_local_scorer, noul_for, refusal_reason};
use dry_exec_core::delta::types::{PageMutation, StateDelta};

fn summary(total: usize, calls: usize, breaches: usize) -> DeltaSummary {
    DeltaSummary {
        total_bytes_mutated: total,
        network_calls: calls,
        schema_breaches: breaches,
        ..Default::default()
    }
}

#[test]
fn choice_and_noul_wire_names() {
    assert_eq!(Choice::Allowed.as_str(), "allowed");
    assert_eq!(Choice::Blocked.as_str(), "blocked");
    assert_eq!(Choice::Violated.as_str(), "violated");
    assert_eq!(Noul::AutoCommit.as_str(), "auto_commit");
    assert_eq!(Noul::Escalate.as_str(), "escalate");
}

#[test]
fn calibrated_delta_is_allowed_and_commits() {
    let s = DeltaSummary { total_bytes_mutated: 4, memory_pages_mutated: 1, ..Default::default() };
    let choice = choice_for(&s, 1_048_576, 16);
    assert_eq!(choice, Choice::Allowed);
    assert_eq!(noul_for(choice, true), Noul::AutoCommit);
}

#[test]
fn allowed_delta_above_threshold_escalates() {
    let choice = choice_for(&summary(1_048_576, 8, 0), 1_048_576, 16);
    assert_eq!(choice, Choice::Allowed);
    assert_eq!(noul_for(choice, false), Noul::Escalate);
}

#[test]
fn breached_ceiling_is_violated_with_reason() {
    let s = summary(8, 1, 0);
    let choice = choice_for(&s, 4, 4);
    assert_eq!(choice, Choice::Violated);
    assert_eq!(noul_for(choice, true), Noul::Escalate);
    assert_eq!(
        refusal_reason(choice, &s, 4).unwrap(),
        "Mutation volume 8 bytes exceeds calibrated ceiling 4 bytes"
    );
}

#[test]
fn refused_route_blocks_with_reason() {
    let s = summary(12, 0, 2);
    let choice = choice_for(&s, 1_048_576, 16);
    assert_eq!(choice, Choice::Blocked);
    assert_eq!(noul_for(choice, true), Noul::Escalate);
    let reason = refusal_reason(choice, &s, 1_048_576).unwrap();
    assert_eq!(reason, "Transparent proxy refused 2 route(s) outside the registered schema");
    assert!(reason.contains("refused 2 route(s)"));
}

#[test]
fn violation_takes_precedence_over_block() {
    assert_eq!(choice_for(&summary(10, 0, 3), 5, 16), Choice::Violated);
    assert_eq!(choice_for(&summary(0, 17, 3), 5, 16), Choice::Violated);
}

#[test]
fn exhausted_ceiling_routes_without_dividing_by_zero() {
    assert_eq!(choice_for(&DeltaSummary::default(), 0, 0), Choice::Allowed);
    assert_eq!(choice_for(&summary(1, 0, 0), 0, 0), Choice::Violated);
    assert_eq!(choice_for(&summary(0, 1, 0), 0, 0), Choice::Violated);
}

#[test]
fn allowed_delta_has_no_refusal_reason() {
    assert!(refusal_reason(Choice::Allowed, &summary(1, 1, 0), 10).is_none());
}

#[test]
fn local_scorer_is_consulted_only_for_allowed_deltas() {
    assert!(consults_local_scorer(Choice::Allowed, true));
    assert!(!consults_local_scorer(Choice::Allowed, false));
    assert!(!consults_local_scorer(Choice::Blocked, true));
    assert!(!consults_local_scorer(Choice::Violated, true));
}

#[test]
fn summary_projects_counts_of_a_hundred_megabyte_delta() {
    let page = PageMutation { page_index: 0, page_address: 0, deltas: Vec::new() };
    let mut delta = StateDelta::empty();
    delta.memory_mutations = vec![page; 25_600];
    delta.total_bytes_mutated = 25_600 * 4096;
    delta.schema_breaches = 3;
    delta.duration_nanos = 77;
    let s = DeltaSummary::from_state_delta(&delta);
    assert_eq!(s.total_bytes_mutated, 104_857_600);
    assert_eq!(s.memory_pages_mutated, 25_600);
    assert_eq!(s.fs_mutations, 0);
    assert_eq!(s.network_calls, 0);
    assert_eq!(s.schema_breaches, 3);
    assert_eq!(s.duration_nanos, 77);
    assert_eq!(DeltaSummary::from(&delta), s);
}
