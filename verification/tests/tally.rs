use chaff::{Action, ApplyResult, Applying, Artifact, CatState, Category, Kind, Outcome};

fn artifact(kind: Kind, path: &str) -> Artifact {
    Artifact { kind, path: path.to_string() }
}

fn category(artifacts: Vec<Artifact>, sample: Option<usize>) -> Category {
    Category { id: "c".to_string(), name: "C".to_string(), description: String::new(), sample, artifacts }
}

/// Applies `cat`, answering each action with success except for the names
/// listed in `failing`; ghost processes are their names, handles are numbers.
fn apply(cat: &Category, limit: Option<usize>, failing: &[&str]) -> (ApplyResult<u32, String>, Vec<String>) {
    let mut run: Applying<u32, String> = Applying::start(cat, limit);
    let mut asked = Vec::new();
    let mut next_handle = 0;
    while let Some(action) = run.next_action(cat) {
        let (name, outcome) = match action {
            Action::CreateKey(_, key) => (key.to_string(), Outcome::KeyCreated),
            Action::CreateMutex(n) | Action::CreatePipe(n) => {
                next_handle += 1;
                (n.to_string(), Outcome::HandleOpened(next_handle))
            }
            Action::SpawnGhost(n) => (n.to_string(), Outcome::GhostSpawned(n.to_string())),
        };
        let outcome = if failing.contains(&name.as_str()) { Outcome::Failed } else { outcome };
        assert!(run.accepts(cat, &outcome));
        asked.push(name);
        run.record(outcome);
    }
    (run.finish(), asked)
}

#[test]
fn every_kind_is_asked_for_and_counted() {
    let cat = category(
        vec![
            artifact(Kind::RegistryKey, "HKLM\\SOFTWARE\\VMware, Inc."),
            artifact(Kind::Mutex, "PROCMON_PORT_MUTEX"),
            artifact(Kind::NamedPipe, "\\\\.\\pipe\\VBoxTrayIPC"),
        ],
        None,
    );
    let (r, asked) = apply(&cat, None, &[]);
    assert_eq!(asked, vec!["SOFTWARE\\VMware, Inc.", "PROCMON_PORT_MUTEX", "\\\\.\\pipe\\VBoxTrayIPC"]);
    assert_eq!((r.ok, r.fail, r.reg_count), (3, 0, 1));
    assert_eq!(r.handles, vec![1, 2]);
    assert!(r.ghosts.is_empty());
}

#[test]
fn failures_are_counted() {
    let cat = category(
        vec![artifact(Kind::RegistryKey, "HKCU\\SOFTWARE\\Sysinternals"), artifact(Kind::Mutex, "ProcExpMutex")],
        None,
    );
    let (r, _) = apply(&cat, None, &["SOFTWARE\\Sysinternals"]);
    assert_eq!((r.ok, r.fail, r.reg_count), (1, 1, 0));
    assert_eq!(r.handles.len(), 1);
}

#[test]
fn unknown_hive_fails_without_an_action() {
    let cat = category(vec![artifact(Kind::RegistryKey, "HKXX\\SOFTWARE\\Foo")], None);
    let (r, asked) = apply(&cat, None, &[]);
    assert!(asked.is_empty());
    assert_eq!((r.ok, r.fail, r.reg_count), (0, 1, 0));
    assert!(r.handles.is_empty() && r.ghosts.is_empty());
}

#[test]
fn caller_limit_overrides_sample_for_processes() {
    let cat = category(
        vec![
            artifact(Kind::FakeProcess, "a.exe"),
            artifact(Kind::FakeProcess, "b.exe"),
            artifact(Kind::FakeProcess, "c.exe"),
        ],
        Some(1),
    );
    let (r, asked) = apply(&cat, Some(2), &[]);
    assert_eq!(r.ok + r.fail, 2);
    assert_eq!(r.ghosts.len(), r.ok);
    assert_eq!(r.reg_count, 0);
    assert!(r.handles.is_empty());
    assert_ne!(asked[0], asked[1]);
    for g in &r.ghosts {
        assert!(["a.exe", "b.exe", "c.exe"].contains(&g.as_str()));
    }
}

#[test]
fn mixed_category_applies_all_others_and_samples_processes() {
    let cat = category(
        vec![
            artifact(Kind::Mutex, "cuckoo_agent_ctrl"),
            artifact(Kind::FakeProcess, "cuckoo.exe"),
            artifact(Kind::RegistryKey, "HKLM\\SOFTWARE\\Cuckoo"),
            artifact(Kind::FakeProcess, "sandboxie.exe"),
        ],
        Some(1),
    );
    let (r, asked) = apply(&cat, None, &[]);
    assert_eq!(r.ok + r.fail, 3);
    assert_eq!(asked[0], "cuckoo_agent_ctrl");
    assert_eq!(asked[1], "SOFTWARE\\Cuckoo");
    assert!(asked[2] == "cuckoo.exe" || asked[2] == "sandboxie.exe");
    assert_eq!((r.reg_count, r.handles.len(), r.ghosts.len()), (1, 1, 1));

    let (r, _) = apply(&cat, Some(1), &[]);
    assert_eq!(r.ok + r.fail, 3);
    let (r, _) = apply(&cat, Some(0), &[]);
    assert_eq!(r.ok + r.fail, 2);
    assert!(r.ghosts.is_empty());
}

#[test]
fn outcome_of_another_kind_is_not_accepted() {
    let cat = category(vec![artifact(Kind::Mutex, "m")], None);
    let mut run: Applying<u32, String> = Applying::start(&cat, None);
    assert!(matches!(run.next_action(&cat), Some(Action::CreateMutex("m"))));
    assert!(!run.accepts(&cat, &Outcome::KeyCreated));
    assert!(!run.accepts(&cat, &Outcome::GhostSpawned("x".to_string())));
    assert!(run.accepts(&cat, &Outcome::HandleOpened(1)));
    assert!(run.accepts(&cat, &Outcome::Failed));
    run.record(Outcome::Failed);
    assert!(run.next_action(&cat).is_none());
    assert!(!run.accepts(&cat, &Outcome::Failed));
    let r = run.finish();
    assert_eq!((r.ok, r.fail), (0, 1));
}

#[test]
fn nothing_to_apply() {
    let cat = category(vec![], Some(3));
    let (r, asked) = apply(&cat, Some(2), &[]);
    assert!(asked.is_empty());
    assert_eq!((r.ok, r.fail, r.reg_count), (0, 0, 0));
    let fresh: ApplyResult<u8, u8> = ApplyResult::new();
    assert_eq!((fresh.ok, fresh.fail), (0, 0));
}

#[test]
fn cat_state_counts() {
    let s: CatState<u32, &str> = CatState { reg_count: 4, handles: vec![1, 2, 3], ghosts: vec!["a", "b"] };
    assert_eq!(s.process_count(), 2);
    assert_eq!(s.handle_count(), 3);
    let e: CatState<u32, &str> = CatState { reg_count: 0, handles: vec![], ghosts: vec![] };
    assert_eq!(e.process_count(), 0);
    assert_eq!(e.handle_count(), 0);
}

#[test]
fn tray_icon_is_one_colour() {
    let px = chaff::tray_icon_rgba(chaff::TRAY_ICON_SIDE);
    assert_eq!(px.len(), 32 * 32 * 4);
    for chunk in px.chunks(4) {
        assert_eq!(chunk, &[160u8, 40, 40, 255]);
    }
    assert!(chaff::tray_icon_rgba(0).is_empty());
    assert_eq!(chaff::tray_icon_rgba(1), vec![160, 40, 40, 255]);
}
