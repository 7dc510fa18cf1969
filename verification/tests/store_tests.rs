use render_assets::shader::ShaderAssets;
use render_assets::store::Completion;
use render_assets::LoadError;

fn ok(id: &str, token: u64, source: &str) -> Completion<String> {
    Completion { id: id.to_string(), token, result: Ok(source.to_string()) }
}

fn err(id: &str, token: u64, e: LoadError) -> Completion<String> {
    Completion { id: id.to_string(), token, result: Err(e) }
}

#[test]
fn never_requested_id_is_not_ready_and_gets_no_job() {
    let mut shaders = ShaderAssets::new();
    assert!(shaders.get("model").is_none());

    let changed = vec!["model".to_string()];
    let subs = shaders.hot_reload(&changed, None, 1000);
    assert!(subs.is_empty());
    assert!(shaders.get("model").is_none());

    // A stray completion for an id that never was requested is discarded.
    let subs = shaders.hot_reload(&Vec::new(), Some(ok("ghost", 1, "text")), 1001);
    assert!(subs.is_empty());
    assert!(shaders.get("ghost").is_none());
}

#[test]
fn load_twice_submits_at_most_one_job() {
    let mut shaders = ShaderAssets::new();
    let first = shaders.load("model");
    assert!(first.is_some());
    assert_eq!(first.as_ref().unwrap().id, "model");
    let second = shaders.load("model");
    assert!(second.is_none());
}

#[test]
fn reload_keeps_old_module_until_new_one_completes() {
    let mut shaders = ShaderAssets::new();
    let sub = shaders.load("model").unwrap();
    assert_eq!(sub.token, 1);

    // First decode completes: the module materializes.
    let subs = shaders.hot_reload(&Vec::new(), Some(ok("model", 1, "first")), 10);
    assert!(subs.is_empty());
    assert_eq!(shaders.get("model").unwrap().source, "first");
    assert_eq!(shaders.generation("model"), Some(1));
    assert_eq!(shaders.frame_reloaded().as_deref(), Some("model"));

    // A change past the debounce window: exactly one new job, and the old
    // module stays queryable — no gap.
    let changed = vec!["model".to_string()];
    let subs = shaders.hot_reload(&changed, None, 300);
    assert_eq!(subs.len(), 1);
    assert_eq!(subs[0].id, "model");
    assert_eq!(subs[0].token, 2);
    assert_eq!(shaders.get("model").unwrap().source, "first");
    assert!(shaders.frame_reloaded().is_none());

    // The reload's completion replaces the module and bumps the generation.
    let subs = shaders.hot_reload(&Vec::new(), Some(ok("model", 2, "second")), 310);
    assert!(subs.is_empty());
    assert_eq!(shaders.get("model").unwrap().source, "second");
    assert_eq!(shaders.generation("model"), Some(2));
}

#[test]
fn duplicate_change_events_collapse_within_debounce_window() {
    let mut shaders = ShaderAssets::new();
    shaders.load("model");
    shaders.hot_reload(&Vec::new(), Some(ok("model", 1, "v")), 10);

    let changed = vec!["model".to_string()];
    let subs = shaders.hot_reload(&changed, None, 300);
    assert_eq!(subs.len(), 1);

    // Same change reported again 50 ms later: inside the window, no job.
    let subs = shaders.hot_reload(&changed, None, 350);
    assert!(subs.is_empty());
}

#[test]
fn in_flight_reload_suppresses_another_submission() {
    let mut shaders = ShaderAssets::new();
    shaders.load("model");
    shaders.hot_reload(&Vec::new(), Some(ok("model", 1, "v")), 10);

    let changed = vec!["model".to_string()];
    let subs = shaders.hot_reload(&changed, None, 300);
    assert_eq!(subs.len(), 1);

    // Well past the window again, but the job is still in flight.
    let subs = shaders.hot_reload(&changed, None, 900);
    assert!(subs.is_empty());
}

#[test]
fn stale_completion_is_discarded() {
    let mut shaders = ShaderAssets::new();
    shaders.load("model");
    shaders.hot_reload(&Vec::new(), Some(ok("model", 1, "first")), 10);
    let subs = shaders.hot_reload(&vec!["model".to_string()], None, 300);
    assert_eq!(subs[0].token, 2);

    // A leftover result from the superseded first job must not overwrite.
    shaders.hot_reload(&Vec::new(), Some(ok("model", 1, "zombie")), 310);
    assert_eq!(shaders.get("model").unwrap().source, "first");

    // The current job's result applies.
    shaders.hot_reload(&Vec::new(), Some(ok("model", 2, "second")), 320);
    assert_eq!(shaders.get("model").unwrap().source, "second");
}

#[test]
fn failed_load_is_retryable_and_keeps_old_object() {
    let mut shaders = ShaderAssets::new();
    shaders.load("model");
    shaders.hot_reload(&Vec::new(), Some(ok("model", 1, "good")), 10);

    // A reload fails to decode: the old module must stay usable...
    let subs = shaders.hot_reload(&vec!["model".to_string()], None, 300);
    assert_eq!(subs[0].token, 2);
    shaders.hot_reload(&Vec::new(), Some(err("model", 2, LoadError::Decode)), 310);
    assert_eq!(shaders.get("model").unwrap().source, "good");
    assert!(shaders.frame_reloaded().is_none());

    // ...and the id is eligible for a fresh load again.
    let retry = shaders.load("model");
    assert!(retry.is_some());
    assert_eq!(retry.unwrap().token, 3);
}

#[test]
fn not_found_failure_is_retryable() {
    let mut shaders = ShaderAssets::new();
    let sub = shaders.load("missing").unwrap();
    shaders.hot_reload(&Vec::new(), Some(err("missing", sub.token, LoadError::NotFound)), 5);
    assert!(shaders.get("missing").is_none());
    assert!(shaders.load("missing").is_some());
}

#[test]
fn change_for_unmaterialized_id_fires_nothing() {
    let mut shaders = ShaderAssets::new();
    shaders.load("model");
    // The first decode is still pending: a file change cannot trigger a
    // reload of something never materialized.
    let subs = shaders.hot_reload(&vec!["model".to_string()], None, 1000);
    assert!(subs.is_empty());
}

#[test]
fn reloaded_is_debounced() {
    let mut shaders = ShaderAssets::new();
    let changed = vec!["triangle".to_string()];
    // Inside the initial window: no report.
    assert!(!shaders.reloaded("triangle", &changed, 100));
    // Past the window: the change is reported once...
    assert!(shaders.reloaded("triangle", &changed, 250));
    // ...and the window starts over.
    assert!(!shaders.reloaded("triangle", &changed, 300));
    assert!(shaders.reloaded("triangle", &changed, 460));
    assert!(!shaders.reloaded("other", &vec!["x".to_string()], 700));
}
