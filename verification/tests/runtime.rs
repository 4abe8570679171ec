use std::sync::Arc;

use armature_rhai::{
    Debouncer, HotReloadExt, RequestBinding, RequestParts, RhaiError, ScriptContext, ScriptContextBuilder,
    ScriptWatcher, StringMap,
};

#[test]
fn test_watcher_creation() {
    let engine = Arc::new(());
    let watcher = ScriptWatcher::new(engine).watch("./scripts").debounce(50);
    assert_eq!(watcher.debounce_ms(), 50);
    assert_eq!(watcher.watch_dirs(), &vec!["./scripts".to_string()]);
}

#[test]
fn engine_watcher_defaults() {
    let engine = Arc::new(7u8);
    let watcher = engine.watcher();
    assert_eq!(watcher.debounce_ms(), 100);
    assert!(watcher.watch_dirs().is_empty());
    assert_eq!(**watcher.engine(), 7);
}

#[test]
fn debouncer_reports_every_changed_script_once_after_quiet_period() {
    let mut d = Debouncer::new(100, 0);
    assert!(d.on_tick(500).is_empty());
    d.on_change("a.rhai".to_string(), 10);
    d.on_change("b.rhai".to_string(), 50);
    d.on_change("a.rhai".to_string(), 60);
    d.on_change("notes.txt".to_string(), 90);
    assert!(d.on_tick(120).is_empty());
    assert!(d.is_pending());
    assert!(d.on_tick(159).is_empty());
    assert_eq!(d.on_tick(160), vec!["a.rhai".to_string(), "b.rhai".to_string()]);
    assert!(!d.is_pending());
    assert!(d.on_tick(400).is_empty());
}

#[test]
fn debouncer_ignores_files_that_are_not_scripts() {
    let mut d = Debouncer::new(0, 0);
    d.on_change("style.css".to_string(), 5);
    d.on_change("dir/script.rhai.bak".to_string(), 5);
    assert!(!d.is_pending());
    d.on_change("dir/x.rhai".to_string(), 5);
    assert_eq!(d.on_tick(5), vec!["dir/x.rhai".to_string()]);
}

#[test]
fn context_locals_and_state() {
    let binding = RequestBinding::from_request(&RequestParts::new("GET", "/"));
    let mut ctx: ScriptContext<i64> = ScriptContext::new(binding.clone());
    ctx.set_local("x", 1);
    ctx.set_local("x", 2);
    assert_eq!(ctx.get_local("x"), Some(&2));
    assert_eq!(ctx.get_state("x"), None);

    let built = ScriptContextBuilder::<i64>::new().state("s", 5).local("l", 6).build();
    assert!(built.is_none());
    let built = ScriptContextBuilder::new().request(binding).state("s", 5).local("l", 6).build().unwrap();
    assert_eq!(built.get_state("s"), Some(&5));
    assert_eq!(built.get_local("l"), Some(&6));
}

#[test]
fn error_messages_read_like_display() {
    assert_eq!(RhaiError::script("oops").message(), "Script error: oops");
    assert_eq!(RhaiError::config("bad").message(), "Configuration error: bad");
    assert_eq!(RhaiError::compilation("a.rhai", "x").message(), "Script compilation error in a.rhai: x");
    assert_eq!(RhaiError::runtime("a.rhai", "y").message(), "Script runtime error in a.rhai: y");
    assert_eq!(RhaiError::Timeout { timeout_ms: 250 }.message(), "Script execution timeout after 250ms");
    assert_eq!(RhaiError::OperationLimit { max_ops: 100000 }.message(), "Script exceeded maximum operations (100000)");
    assert_eq!(RhaiError::Timeout { timeout_ms: 0 }.message(), "Script execution timeout after 0ms");
    assert_eq!(
        RhaiError::InvalidOutput { expected: "map".to_string(), actual: "int".to_string() }.message(),
        "Invalid script output: expected map, got int"
    );
    assert_eq!(RhaiError::ScriptNotFound { path: "x.rhai".to_string() }.message(), "Script not found: x.rhai");
}

#[test]
fn context_with_shared_state_sees_that_state() {
    let binding = RequestBinding::from_request(&RequestParts::new("GET", "/"));
    let mut state: StringMap<i64> = StringMap::new();
    state.insert("visits".to_string(), 3);
    let shared = Arc::new(state);
    let ctx = ScriptContext::with_state(binding, shared.clone());
    assert!(Arc::ptr_eq(&ctx.state, &shared));
    assert_eq!(ctx.get_state("visits"), Some(&3));
    assert_eq!(ctx.get_local("visits"), None);
}
