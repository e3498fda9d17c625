use armory::graph::{build_graph, DependencyGraph, MemberDeps, ReleaseError};
use armory::publish::{publish_workspace, PublishState};
use armory::retry::RetryPolicy;

fn member(name: &str, deps: &[&str]) -> MemberDeps {
    MemberDeps {
        name: name.to_string(),
        local_deps: deps.iter().map(|d| d.to_string()).collect(),
    }
}

fn diamond() -> DependencyGraph {
    // b and c each depend locally on a; none depend on each other
    build_graph(&vec![
        member("a", &[]),
        member("b", &["a"]),
        member("c", &["a"]),
    ])
    .unwrap()
}

#[test]
fn build_graph_resolves_edges() {
    let g = diamond();
    assert_eq!(g.names, vec!["a".to_string(), "b".to_string(), "c".to_string()]);
    assert_eq!(g.deps, vec![vec![], vec![0], vec![0]]);
}

#[test]
fn build_graph_rejects_duplicates() {
    let r = build_graph(&vec![member("a", &[]), member("a", &[])]);
    assert_eq!(r.unwrap_err(), ReleaseError::DuplicateMember("a".to_string()));
}

#[test]
fn build_graph_rejects_unknown_local_dep() {
    let r = build_graph(&vec![member("a", &["ghost_member"])]);
    assert_eq!(
        r.unwrap_err(),
        ReleaseError::UnknownLocalDependency("ghost_member".to_string())
    );
}

#[test]
fn diamond_publishes_prerequisite_first() {
    let g = diamond();
    let state = PublishState::new_for(&g);
    let plan = publish_workspace(&g, &state).unwrap();
    // every member exactly once, a strictly before b and c
    assert_eq!(plan.len(), 3);
    let pos = |m: usize| plan.iter().position(|&x| x == m).unwrap();
    assert!(pos(0) < pos(1));
    assert!(pos(0) < pos(2));
}

#[test]
fn chain_orders_depth_first() {
    // a depends on b, b depends on c: publish order c, b, a
    let g = build_graph(&vec![
        member("a", &["b"]),
        member("b", &["c"]),
        member("c", &[]),
    ])
    .unwrap();
    let state = PublishState::new_for(&g);
    let plan = publish_workspace(&g, &state).unwrap();
    assert_eq!(plan, vec![2, 1, 0]);
}

#[test]
fn walk_is_idempotent_when_all_published() {
    let g = diamond();
    let mut state = PublishState::new_for(&g);
    state.mark_published(0);
    state.mark_published(1);
    state.mark_published(2);
    let plan = publish_workspace(&g, &state).unwrap();
    assert!(plan.is_empty());
}

#[test]
fn walk_skips_already_published_members() {
    let g = diamond();
    let mut state = PublishState::new_for(&g);
    state.mark_published(0);
    let plan = publish_workspace(&g, &state).unwrap();
    assert_eq!(plan.len(), 2);
    assert!(plan.contains(&1));
    assert!(plan.contains(&2));
    assert!(!plan.contains(&0));
}

#[test]
fn cycle_is_rejected_before_any_publish() {
    // a depends on b and b depends on a
    let g = build_graph(&vec![member("a", &["b"]), member("b", &["a"])]).unwrap();
    let state = PublishState::new_for(&g);
    let r = publish_workspace(&g, &state);
    assert_eq!(r.unwrap_err(), ReleaseError::DependencyCycle);
}

#[test]
fn self_cycle_is_rejected() {
    let g = build_graph(&vec![member("a", &["a"])]).unwrap();
    let state = PublishState::new_for(&g);
    assert_eq!(
        publish_workspace(&g, &state).unwrap_err(),
        ReleaseError::DependencyCycle
    );
}

#[test]
fn publish_state_grows_monotonically() {
    let g = diamond();
    let mut state = PublishState::new_for(&g);
    assert!(!state.is_published(1));
    state.mark_published(1);
    assert!(state.is_published(1));
    state.mark_published(2);
    assert!(state.is_published(1) && state.is_published(2));
}

#[test]
fn failed_member_aborts_rest_of_walk() {
    // driver as the release runner would run it: walk the plan, retry each
    // member, stop fatally when the attempt budget is exhausted
    let g = build_graph(&vec![
        member("a", &[]),
        member("b", &["a"]),
        member("c", &["b"]),
    ])
    .unwrap();
    let plan = {
        let state = PublishState::new_for(&g);
        publish_workspace(&g, &state).unwrap()
    };
    assert_eq!(plan, vec![0, 1, 2]);

    let policy = RetryPolicy::standard();
    let mut state = PublishState::new_for(&g);
    let mut attempted: Vec<usize> = Vec::new();
    let mut attempts_on_failure = 0u64;
    let publish_one = |m: usize| m != 1; // member b always fails
    let mut aborted = false;
    for &m in plan.iter() {
        attempted.push(m);
        let mut attempt = 1u64;
        loop {
            if publish_one(m) {
                state.mark_published(m);
                break;
            }
            if !policy.should_retry(attempt) {
                attempts_on_failure = attempt;
                aborted = true;
                break;
            }
            attempt += 1;
        }
        if aborted {
            break;
        }
    }
    assert!(aborted);
    // the failing member was attempted exactly the configured maximum
    assert_eq!(attempts_on_failure, 6);
    // members before the failure stay published, later ones are never attempted
    assert!(state.is_published(0));
    assert!(!state.is_published(1));
    assert!(!state.is_published(2));
    assert_eq!(attempted, vec![0, 1]);
}
