use std::sync::Arc;

use armature_rhai::paths::path_has_extension;
use armature_rhai::{CacheStats, ScriptCache, ScriptLoader};

#[test]
fn test_script_cache() {
    let engine = rhai::Engine::new();
    let ast = engine.compile("let x = 1;").unwrap();
    let script = Arc::new(ast);

    let mut cache = ScriptCache::new();
    cache.insert("test.rhai".to_string(), script.clone());

    assert!(cache.get("test.rhai").is_some());
    assert!(cache.get("other.rhai").is_none());

    let stats = cache.stats();
    assert_eq!(stats.cached_scripts, 1);
    assert_eq!(stats.hits, 1);
    assert_eq!(stats.misses, 1);
}

#[test]
fn evict_if_stale_only_touches_the_requested_path() {
    let mut cache: ScriptCache<(String, bool)> = ScriptCache::new();
    cache.insert("a.rhai".to_string(), ("a".to_string(), false));
    cache.insert("b.rhai".to_string(), ("b".to_string(), true));

    assert!(!cache.evict_if_stale("a.rhai", |s: &(String, bool)| s.1));
    assert!(cache.get("a.rhai").is_some());
    assert!(cache.get("b.rhai").is_some());

    assert!(cache.evict_if_stale("b.rhai", |s: &(String, bool)| s.1));
    assert!(cache.get("b.rhai").is_none());

    assert!(!cache.evict_if_stale("missing.rhai", |_: &(String, bool)| true));
}

#[test]
fn evict_stale_removes_exactly_the_stale_entries() {
    let mut cache: ScriptCache<u32> = ScriptCache::new();
    for (i, name) in ["a", "b", "c", "d"].iter().enumerate() {
        cache.insert(format!("{name}.rhai"), i as u32);
    }
    let removed = cache.evict_stale(|v: &u32| v % 2 == 1);
    assert_eq!(removed, vec!["b.rhai".to_string(), "d.rhai".to_string()]);
    assert_eq!(cache.stats(), CacheStats { cached_scripts: 2, hits: 0, misses: 0 });
    assert!(cache.get("a.rhai").is_some());
    assert!(cache.get("b.rhai").is_none());
}

#[test]
fn cache_insert_replaces_and_remove_and_clear() {
    let mut cache: ScriptCache<u32> = ScriptCache::new();
    cache.insert("a".to_string(), 1);
    cache.insert("a".to_string(), 2);
    assert_eq!(cache.get("a"), Some(&2));
    assert_eq!(cache.remove("a"), Some(2));
    assert_eq!(cache.remove("a"), None);
    cache.insert("b".to_string(), 3);
    cache.clear();
    let stats = cache.stats();
    assert_eq!((stats.cached_scripts, stats.hits, stats.misses), (0, 1, 0));
}

#[test]
fn loader_resolves_relative_paths_against_its_base() {
    let loader = ScriptLoader::new("/srv/scripts");
    assert_eq!(loader.base_dir(), "/srv/scripts");
    assert_eq!(loader.resolve_path("a/b.rhai"), "/srv/scripts/a/b.rhai");
    assert_eq!(loader.resolve_path("/etc/x.rhai"), "/etc/x.rhai");
    assert_eq!(ScriptLoader::new("dir/").resolve_path("x.rhai"), "dir/x.rhai");
    assert_eq!(ScriptLoader::new("").resolve_path("x.rhai"), "x.rhai");
}

#[test]
fn extension_matches_like_path_extension() {
    assert!(path_has_extension("scripts/a.rhai", "rhai"));
    assert!(path_has_extension("a.b.rhai", "rhai"));
    assert!(!path_has_extension(".rhai", "rhai"));
    assert!(!path_has_extension("scripts/a.rhai/..", "rhai"));
    assert!(path_has_extension("scripts/a.rhai/", "rhai"));
    assert!(!path_has_extension("a.rhaix", "rhai"));
    assert!(path_has_extension("a.", ""));
}

#[test]
fn evict_stale_reports_each_path_once_in_first_insertion_order() {
    let mut cache: ScriptCache<u32> = ScriptCache::new();
    cache.insert("z.rhai".to_string(), 1);
    cache.insert("a.rhai".to_string(), 3);
    cache.insert("z.rhai".to_string(), 5);
    cache.insert("m.rhai".to_string(), 2);
    let removed = cache.evict_stale(|v: &u32| v % 2 == 1);
    assert_eq!(removed, vec!["z.rhai".to_string(), "a.rhai".to_string()]);
    assert_eq!(cache.stats().cached_scripts, 1);
}

#[test]
fn cache_keys_compare_paths_by_component() {
    let mut cache: ScriptCache<u32> = ScriptCache::new();
    cache.insert("a/b.rhai".to_string(), 1);
    assert_eq!(cache.get("a//b.rhai"), Some(&1));
    assert_eq!(cache.get("a/./b.rhai"), Some(&1));
    assert_eq!(cache.get("a/b.rhai/"), Some(&1));
    assert_eq!(cache.get("./a/b.rhai"), None);
    assert_eq!(cache.get("/a/b.rhai"), None);
    cache.insert("a//b.rhai".to_string(), 2);
    assert_eq!(cache.stats().cached_scripts, 1);
    assert_eq!(cache.get("a/b.rhai"), Some(&2));
    let removed = cache.evict_stale(|v: &u32| *v == 2);
    assert_eq!(removed, vec!["a/b.rhai".to_string()]);
    assert_eq!(cache.stats(), CacheStats { cached_scripts: 0, hits: 4, misses: 2 });
    cache.insert("x/y.rhai".to_string(), 3);
    assert_eq!(cache.remove("x/./y.rhai/"), Some(3));
    assert!(!cache.evict_if_stale("x/y.rhai", |_: &u32| true));
}
