use nova::runtime::module::{Module, ModuleManager, ModuleState, ModuleSwapError};

#[test]
fn test_module_lifecycle() {
    let mut module = Module::new("test_mod".into());
    assert_eq!(module.state, ModuleState::Loading);

    module.state = ModuleState::Idle;
    module.enter_call();
    assert_eq!(module.state, ModuleState::Running);
    assert_eq!(module.active_calls, 1);

    module.exit_call();
    assert_eq!(module.state, ModuleState::Idle);
    assert_eq!(module.active_calls, 0);
}

#[test]
fn test_module_drain() {
    let mut module = Module::new("test_mod".into());
    module.state = ModuleState::Running;
    module.active_calls = 2;

    module.begin_drain();
    assert_eq!(module.state, ModuleState::Draining);

    module.exit_call();
    assert_eq!(module.state, ModuleState::Draining);

    module.exit_call();
    assert_eq!(module.state, ModuleState::Retired);
    assert!(module.is_drained());
}

#[test]
fn test_hot_swap() {
    let mut manager = ModuleManager::new();

    let v1 = Module::new("math".into());
    manager.register(v1);

    let mut v2 = Module::new("math".into());
    v2.version = 2;
    manager.stage_update(v2);

    manager.swap("math").unwrap();

    let status = manager.status();
    let math = status.iter().find(|(id, _, _)| id == "math").unwrap();
    assert_eq!(math.1, ModuleState::Ready);
}

#[test]
fn swap_without_staged_version_fails() {
    let mut manager = ModuleManager::new();
    manager.register(Module::new("io".into()));
    match manager.swap("io") {
        Err(ModuleSwapError::NoStagedVersion) => {}
        other => panic!("expected NoStagedVersion, got {other:?}"),
    }
    // a staged version is consumed by the swap
    manager.stage_update(Module::new("io".into()));
    assert!(manager.swap("io").is_ok());
    assert!(matches!(manager.swap("io"), Err(ModuleSwapError::NoStagedVersion)));
}

#[test]
fn drain_of_idle_module_retires_at_once() {
    let mut module = Module::new("m".into());
    module.state = ModuleState::Idle;
    module.begin_drain();
    assert_eq!(module.state, ModuleState::Retired);
    assert!(module.is_drained());
    // exit_call at zero active calls leaves the count at zero
    module.exit_call();
    assert_eq!(module.active_calls, 0);
}

#[test]
fn register_replaces_module_with_same_id() {
    let mut manager = ModuleManager::new();
    manager.register(Module::new("a".into()));
    let mut b = Module::new("b".into());
    b.active_calls = 3;
    manager.register(b);
    let mut a2 = Module::new("a".into());
    a2.version = 9;
    manager.register(a2);
    let status = manager.status();
    assert_eq!(status.len(), 2);
    let b = status.iter().find(|(id, _, _)| id == "b").unwrap();
    assert_eq!(b.2, 3);
}

#[test]
fn swapped_out_version_drains_its_calls() {
    let mut manager = ModuleManager::new();
    let mut v1 = Module::new("m".into());
    v1.active_calls = 2;
    manager.register(v1);
    let mut v2 = Module::new("m".into());
    v2.version = 2;
    manager.stage_update(v2);
    assert!(manager.swap("m").is_ok());
    let status = manager.status();
    assert_eq!(status.len(), 1);
    assert_eq!(status[0].1, ModuleState::Ready);
    assert_eq!(status[0].2, 0);
    let draining = manager.draining_status();
    assert_eq!(draining, vec![("m".to_string(), ModuleState::Draining, 2)]);
    assert!(manager.exit_draining_call("m"));
    assert_eq!(manager.draining_status(), vec![("m".to_string(), ModuleState::Draining, 1)]);
    assert!(manager.exit_draining_call("m"));
    assert!(manager.draining_status().is_empty());
    assert!(!manager.exit_draining_call("m"));
}

#[test]
fn idle_version_is_retired_at_once_on_swap() {
    let mut manager = ModuleManager::new();
    manager.register(Module::new("n".into()));
    manager.stage_update(Module::new("n".into()));
    assert!(manager.swap("n").is_ok());
    assert!(manager.draining_status().is_empty());
}

#[test]
fn staging_leaves_active_modules_and_swap_activates_the_staged_version() {
    let mut manager = ModuleManager::new();
    manager.register(Module::new("a".into()));
    manager.register(Module::new("b".into()));
    let mut before = manager.status();
    before.sort_by(|x, y| x.0.cmp(&y.0));
    let mut m = Module::new("b".into());
    m.active_calls = 3;
    manager.stage_update(m);
    let mut after = manager.status();
    after.sort_by(|x, y| x.0.cmp(&y.0));
    assert_eq!(before, after);
    assert!(manager.swap("b").is_ok());
    let status = manager.status();
    let b = status.iter().find(|e| e.0 == "b").unwrap();
    assert_eq!((b.1, b.2), (ModuleState::Ready, 3));
}
