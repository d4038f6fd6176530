use stack_sync::config::Config;
use stack_sync::engine::{
    compose_matches, decide, env_matches, plan_redeploy, plan_sync, BackendCall, EngineError,
    RemoteStackState, SyncDecision,
};
use stack_sync::envfile::EnvVar;

fn var(name: &str, value: &str) -> EnvVar {
    EnvVar {
        name: name.to_string(),
        value: value.to_string(),
    }
}

fn stack(name: &str, enabled: bool) -> Config {
    Config {
        name: name.to_string(),
        compose_file: "compose.yaml".to_string(),
        env_file: None,
        host: "https://portainer.example.com".to_string(),
        endpoint_id: 2,
        enabled,
        base_dir: "/srv".to_string(),
    }
}

fn remote(exists: bool, running: bool, content: &str, env: Vec<EnvVar>) -> RemoteStackState {
    RemoteStackState {
        exists,
        running,
        compose_content: content.to_string(),
        env,
    }
}

const CONTENT: &str = "services:\n  web:\n    image: nginx\n";

#[test]
fn decision_table_rows() {
    assert_eq!(decide(false, false, false, false), SyncDecision::Disabled);
    assert_eq!(decide(false, true, false, true), SyncDecision::Stop);
    assert_eq!(decide(false, true, true, false), SyncDecision::AlreadyStopped);
    assert_eq!(decide(true, false, false, false), SyncDecision::Create);
    assert_eq!(decide(true, true, false, true), SyncDecision::Update);
    assert_eq!(decide(true, true, true, false), SyncDecision::Start);
    assert_eq!(decide(true, true, true, true), SyncDecision::UpToDate);
}

#[test]
fn plan_row_disabled_absent_makes_no_call() {
    let p = plan_sync(&stack("web", false), CONTENT.to_string(), vec![], &remote(false, false, "", vec![]));
    assert_eq!(p.decision, SyncDecision::Disabled);
    assert!(p.call.is_none());
}

#[test]
fn plan_row_disabled_running_stops_only() {
    let p = plan_sync(&stack("web", false), CONTENT.to_string(), vec![], &remote(true, true, CONTENT, vec![]));
    assert_eq!(p.decision, SyncDecision::Stop);
    match p.call {
        Some(BackendCall::Stop { name }) => assert_eq!(name, "web"),
        other => panic!("unexpected call {:?}", other),
    }
}

#[test]
fn plan_row_disabled_stopped_makes_no_call() {
    let p = plan_sync(&stack("web", false), CONTENT.to_string(), vec![], &remote(true, false, "other", vec![]));
    assert_eq!(p.decision, SyncDecision::AlreadyStopped);
    assert!(p.call.is_none());
}

#[test]
fn plan_row_fresh_stack_creates_once() {
    let env = vec![var("FOO", "bar")];
    let p = plan_sync(&stack("web", true), CONTENT.to_string(), env.clone(), &remote(false, false, "", vec![]));
    assert_eq!(p.decision, SyncDecision::Create);
    match p.call {
        Some(BackendCall::Create { name, compose, env: e }) => {
            assert_eq!(name, "web");
            assert_eq!(compose, CONTENT);
            assert_eq!(e, env);
        }
        other => panic!("unexpected call {:?}", other),
    }
}

#[test]
fn plan_row_changed_content_updates_without_force() {
    let p = plan_sync(&stack("web", true), CONTENT.to_string(), vec![], &remote(true, true, "old: 1", vec![]));
    assert_eq!(p.decision, SyncDecision::Update);
    match p.call {
        Some(BackendCall::Update { name, compose, env, force_recreate }) => {
            assert_eq!(name, "web");
            assert_eq!(compose, CONTENT);
            assert!(env.is_empty());
            assert!(!force_recreate);
        }
        other => panic!("unexpected call {:?}", other),
    }
}

#[test]
fn plan_row_changed_env_updates() {
    let p = plan_sync(
        &stack("web", true),
        CONTENT.to_string(),
        vec![var("A", "1")],
        &remote(true, false, CONTENT, vec![var("A", "2")]),
    );
    assert_eq!(p.decision, SyncDecision::Update);
}

#[test]
fn plan_row_stopped_in_sync_starts() {
    let p = plan_sync(&stack("web", true), CONTENT.to_string(), vec![], &remote(true, false, CONTENT, vec![]));
    assert_eq!(p.decision, SyncDecision::Start);
    match p.call {
        Some(BackendCall::Start { name }) => assert_eq!(name, "web"),
        other => panic!("unexpected call {:?}", other),
    }
}

#[test]
fn plan_row_running_in_sync_is_up_to_date() {
    let p = plan_sync(&stack("web", true), CONTENT.to_string(), vec![], &remote(true, true, CONTENT, vec![]));
    assert_eq!(p.decision, SyncDecision::UpToDate);
    assert!(p.call.is_none());
}

#[test]
fn trailing_whitespace_is_tolerated() {
    assert!(compose_matches("a: b\n", "a: b"));
    assert!(compose_matches("a: b", "a: b \t\n\n"));
    assert!(!compose_matches("a: b\n", "a: c"));
    assert!(!compose_matches(" a: b", "a: b"));
}

#[test]
fn env_match_ignores_order_and_last_value_wins() {
    assert!(env_matches(
        &vec![var("A", "1"), var("B", "2")],
        &vec![var("B", "2"), var("A", "1")]
    ));
    assert!(env_matches(
        &vec![var("A", "0"), var("A", "1")],
        &vec![var("A", "1")]
    ));
    assert!(!env_matches(&vec![var("A", "1")], &vec![var("A", "1"), var("B", "2")]));
    assert!(!env_matches(&vec![var("A", "1"), var("A", "2")], &vec![var("A", "1")]));
    assert!(env_matches(&vec![], &vec![]));
}

#[test]
fn second_sync_after_create_is_a_no_op() {
    let s = stack("web", true);
    let env = vec![var("FOO", "bar")];
    let first = plan_sync(&s, CONTENT.to_string(), env.clone(), &remote(false, false, "", vec![]));
    assert_eq!(first.decision, SyncDecision::Create);
    // the target now holds the stack, with the trailing newline dropped
    let after = remote(true, true, CONTENT.trim_end(), env.clone());
    let second = plan_sync(&s, CONTENT.to_string(), env.clone(), &after);
    assert_eq!(second.decision, SyncDecision::UpToDate);
    assert!(second.call.is_none());
    let third = plan_sync(&s, CONTENT.to_string(), env, &after);
    assert_eq!(third.decision, SyncDecision::UpToDate);
    assert!(third.call.is_none());
}

#[test]
fn redeploy_of_missing_stack_is_not_found() {
    let r = plan_redeploy(&stack("web", true), remote(false, false, "", vec![]));
    let err = r.unwrap_err();
    assert_eq!(err, EngineError::NotFound("web".to_string()));
    assert!(err.message().contains("web"));
}

#[test]
fn redeploy_forces_update_with_remote_content() {
    let r = plan_redeploy(&stack("web", true), remote(true, true, "remote: 1", vec![var("X", "y")]));
    match r.unwrap() {
        Some(BackendCall::Update { name, compose, env, force_recreate }) => {
            assert_eq!(name, "web");
            assert_eq!(compose, "remote: 1");
            assert_eq!(env, vec![var("X", "y")]);
            assert!(force_recreate);
        }
        other => panic!("unexpected call {:?}", other),
    }
    assert!(plan_redeploy(&stack("web", false), remote(false, false, "", vec![]))
        .unwrap()
        .is_none());
}
