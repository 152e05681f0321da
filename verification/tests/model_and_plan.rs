use chaff::{
    effective_limit, registry_removal_order, select_artifacts, Artifact, Category, Kind,
};

fn artifact(kind: Kind, path: &str) -> Artifact {
    Artifact { kind, path: path.to_string() }
}

fn category(artifacts: Vec<Artifact>, sample: Option<usize>) -> Category {
    Category {
        id: "c".to_string(),
        name: "C".to_string(),
        description: "d".to_string(),
        sample,
        artifacts,
    }
}

fn processes(n: usize) -> Vec<Artifact> {
    (0..n).map(|i| artifact(Kind::FakeProcess, &format!("p{i}.exe"))).collect()
}

fn assert_distinct_below(sel: &[usize], n: usize) {
    for (a, x) in sel.iter().enumerate() {
        assert!(*x < n);
        for y in &sel[a + 1..] {
            assert_ne!(x, y);
        }
    }
}

#[test]
fn has_processes_only_with_a_fake_process() {
    let c = category(vec![artifact(Kind::Mutex, "m"), artifact(Kind::FakeProcess, "a.exe")], None);
    assert!(c.has_processes());
    let c = category(
        vec![
            artifact(Kind::RegistryKey, "HKLM\\SOFTWARE\\X"),
            artifact(Kind::Mutex, "m"),
            artifact(Kind::NamedPipe, "\\\\.\\pipe\\p"),
        ],
        None,
    );
    assert!(!c.has_processes());
    assert!(!category(vec![], Some(3)).has_processes());
}

#[test]
fn effective_limit_prefers_the_callers_limit() {
    assert_eq!(effective_limit(Some(3), Some(5), 10), 3);
    assert_eq!(effective_limit(None, Some(5), 10), 5);
    assert_eq!(effective_limit(None, None, 10), 10);
    assert_eq!(effective_limit(Some(30), Some(2), 10), 10);
    assert_eq!(effective_limit(None, Some(50), 4), 4);
    assert_eq!(effective_limit(Some(0), Some(5), 4), 0);
}

#[test]
fn other_categories_apply_everything_in_order() {
    let c = category(
        vec![
            artifact(Kind::RegistryKey, "HKLM\\A"),
            artifact(Kind::Mutex, "m"),
            artifact(Kind::NamedPipe, "p"),
        ],
        Some(1),
    );
    assert_eq!(select_artifacts(&c, Some(1)), vec![0, 1, 2]);
    assert_eq!(select_artifacts(&c, None), vec![0, 1, 2]);
    assert_eq!(select_artifacts(&category(vec![], None), Some(2)), Vec::<usize>::new());
}

#[test]
fn process_category_samples_its_limit() {
    let c = category(processes(22), Some(5));
    let sel = select_artifacts(&c, None);
    assert_eq!(sel.len(), 5);
    assert_distinct_below(&sel, 22);

    let sel = select_artifacts(&c, Some(3));
    assert_eq!(sel.len(), 3);
    assert_distinct_below(&sel, 22);

    let sel = select_artifacts(&c, Some(40));
    assert_eq!(sel.len(), 22);
    assert_distinct_below(&sel, 22);
}

#[test]
fn process_category_without_limit_applies_all_in_some_order() {
    let c = category(processes(6), None);
    let mut sel = select_artifacts(&c, None);
    assert_eq!(sel.len(), 6);
    sel.sort();
    assert_eq!(sel, vec![0, 1, 2, 3, 4, 5]);
}

#[test]
fn process_selection_is_shuffled() {
    let c = category(processes(20), None);
    let identity: Vec<usize> = (0..20).collect();
    let mut saw_other_order = false;
    for _ in 0..5 {
        let sel = select_artifacts(&c, None);
        assert_distinct_below(&sel, 20);
        if sel != identity {
            saw_other_order = true;
        }
    }
    assert!(saw_other_order);
}

#[test]
fn mixed_category_keeps_every_other_artifact() {
    let c = category(
        vec![
            artifact(Kind::Mutex, "m"),
            artifact(Kind::FakeProcess, "a.exe"),
            artifact(Kind::RegistryKey, "HKLM\\A"),
            artifact(Kind::FakeProcess, "b.exe"),
            artifact(Kind::FakeProcess, "c.exe"),
        ],
        Some(2),
    );
    let sel = select_artifacts(&c, Some(1));
    assert_eq!(sel.len(), 3);
    assert_eq!(&sel[..2], &[0, 2]);
    assert!([1, 3, 4].contains(&sel[2]));

    let sel = select_artifacts(&c, None);
    assert_eq!(sel.len(), 4);
    assert_eq!(&sel[..2], &[0, 2]);
    assert_distinct_below(&sel, 5);
    assert!(sel[2..].iter().all(|i| c.artifacts[*i].kind == Kind::FakeProcess));

    let sel = select_artifacts(&c, Some(0));
    assert_eq!(sel, vec![0, 2]);

    let one = category(vec![artifact(Kind::Mutex, "m"), artifact(Kind::FakeProcess, "p.exe")], None);
    assert_eq!(select_artifacts(&one, Some(1)), vec![0, 1]);
}

#[test]
fn removal_takes_registry_keys_last_first() {
    let c = category(
        vec![
            artifact(Kind::RegistryKey, "HKLM\\SOFTWARE\\Sysinternals"),
            artifact(Kind::Mutex, "m"),
            artifact(Kind::RegistryKey, "HKLM\\SOFTWARE\\Sysinternals\\Process Monitor"),
            artifact(Kind::FakeProcess, "a.exe"),
            artifact(Kind::RegistryKey, "HKLM\\SOFTWARE\\Sysinternals\\Autoruns"),
        ],
        None,
    );
    assert_eq!(registry_removal_order(&c), vec![4, 2, 0]);
    let none = category(vec![artifact(Kind::Mutex, "m")], None);
    assert_eq!(registry_removal_order(&none), Vec::<usize>::new());
}

#[test]
fn removal_covers_every_selected_registry_key() {
    let c = category(
        vec![
            artifact(Kind::RegistryKey, "HKCU\\A"),
            artifact(Kind::NamedPipe, "p"),
            artifact(Kind::RegistryKey, "HKCU\\A\\B"),
        ],
        None,
    );
    let sel = select_artifacts(&c, None);
    let order = registry_removal_order(&c);
    for i in sel {
        if c.artifacts[i].kind == Kind::RegistryKey {
            assert!(order.contains(&i));
        }
    }
}
