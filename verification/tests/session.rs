use chaff::{
    apply_allowed, artifacts_json, categories_to_apply, find_category, load_or_fetch, needs_fetch,
    remove_allowed, CachedDb, CACHE_MAX_AGE_SECS,
    Artifact, Category, Db, Kind, DEFAULT_PROCESSES_PER_CATEGORY, MAX_PROCESSES_PER_CATEGORY,
    MIN_PROCESSES_PER_CATEGORY,
};

fn category(id: &str, kind: Kind) -> Category {
    Category {
        id: id.to_string(),
        name: id.to_uppercase(),
        description: String::new(),
        sample: None,
        artifacts: vec![Artifact { kind, path: "x".to_string() }],
    }
}

fn db() -> Db {
    Db {
        version: "1".to_string(),
        categories: vec![
            category("vm_registry", Kind::RegistryKey),
            category("debuggers", Kind::FakeProcess),
            category("mutexes", Kind::Mutex),
            category("debuggers", Kind::NamedPipe),
        ],
    }
}

#[test]
fn fresh_cache_wins_then_fetch_then_nothing() {
    let fresh = || Some(CachedDb { json: "cached".to_string(), age_secs: 60 });
    let stale = || Some(CachedDb { json: "cached".to_string(), age_secs: CACHE_MAX_AGE_SECS });

    let l = load_or_fetch(fresh(), Some("net".to_string())).unwrap();
    assert_eq!((l.json.as_str(), l.store_in_cache), ("cached", false));

    let l = load_or_fetch(stale(), Some("net".to_string())).unwrap();
    assert_eq!((l.json.as_str(), l.store_in_cache), ("net", true));

    let l = load_or_fetch(None, Some("net".to_string())).unwrap();
    assert_eq!((l.json.as_str(), l.store_in_cache), ("net", true));

    assert!(load_or_fetch(stale(), None).is_none());
    assert!(load_or_fetch(None, None).is_none());
}

#[test]
fn fetch_only_without_a_fresh_cache() {
    assert!(!needs_fetch(&Some(CachedDb { json: String::new(), age_secs: CACHE_MAX_AGE_SECS - 1 })));
    assert!(needs_fetch(&Some(CachedDb { json: String::new(), age_secs: CACHE_MAX_AGE_SECS })));
    assert!(needs_fetch(&None));
    assert_eq!(CACHE_MAX_AGE_SECS, 24 * 60 * 60);
}

#[test]
fn loaded_database_wins_over_bundled() {
    let l = load_or_fetch(None, Some("new".to_string()));
    assert_eq!(artifacts_json(l, "old"), "new");
    assert_eq!(artifacts_json(None, "old"), "old");
}

#[test]
fn buttons_follow_the_session() {
    assert!(apply_allowed(true, false));
    assert!(!apply_allowed(true, true));
    assert!(!apply_allowed(false, false));
    assert!(remove_allowed(true));
    assert!(!remove_allowed(false));
}

#[test]
fn apply_takes_ticked_categories_in_order() {
    let d = db();
    assert_eq!(
        categories_to_apply(&d, &vec![true, true, false, true], 7),
        vec![(0, None), (1, Some(7)), (3, None)]
    );
    assert_eq!(categories_to_apply(&d, &vec![false; 4], 7), vec![]);
}

#[test]
fn find_category_takes_the_first_match() {
    let d = db();
    assert_eq!(find_category(&d, &"debuggers".to_string()), Some(1));
    assert_eq!(find_category(&d, &"mutexes".to_string()), Some(2));
    assert_eq!(find_category(&d, &"pipes".to_string()), None);
}

#[test]
fn process_count_defaults() {
    assert_eq!(DEFAULT_PROCESSES_PER_CATEGORY, 5);
    assert_eq!((MIN_PROCESSES_PER_CATEGORY, MAX_PROCESSES_PER_CATEGORY), (1, 20));
}

#[test]
fn picked_process_category_starts_the_chosen_number() {
    let procs: Vec<Artifact> =
        (0..12).map(|i| Artifact { kind: Kind::FakeProcess, path: format!("p{i}.exe") }).collect();
    let d = Db {
        version: "1".to_string(),
        categories: vec![Category {
            id: "decompilers".to_string(),
            name: "Decompilers".to_string(),
            description: String::new(),
            sample: Some(3),
            artifacts: procs,
        }],
    };
    for per in [1usize, 5, 20] {
        let picked = categories_to_apply(&d, &vec![true], per);
        assert_eq!(picked.len(), 1);
        let (i, limit) = picked[0];
        let sel = chaff::select_artifacts(&d.categories[i], limit);
        assert_eq!(sel.len(), per.min(12));
    }
}
