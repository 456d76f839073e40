//! Seeding of packages, on a disk that is kept in memory.
use std::collections::BTreeMap;

use foundry_circle::ledger::{comes_before, Ledger};
use foundry_circle::reconcile::{
    check_desired_schema, check_state_schema, check_tree_entry, default_state, key,
    map_symlink_error, mutable_mode, next_step, plan_manifest, preflight, target,
    validate_package, validate_store_path, Check, DesiredManifest, DesiredPackage, Found,
    ManagedPackage, ManagedState, ReconcileError, Sight, Step, TreeEntry, SCHEMA_VERSION,
};

#[derive(Clone, Debug, PartialEq)]
enum Thing {
    Directory(&'static str),
    Link(&'static str),
    File,
}

/// What stands where, and what is recorded.
struct Disk {
    things: BTreeMap<String, Thing>,
    state: Option<ManagedState>,
}

impl Disk {
    fn new(things: &[(&str, Thing)]) -> Disk {
        Disk {
            things: things
                .iter()
                .map(|(path, thing)| (path.to_string(), thing.clone()))
                .collect(),
            state: Some(Ledger::new()),
        }
    }

    fn is_directory(&self, path: &str) -> bool {
        matches!(self.things.get(path), Some(Thing::Directory(_)))
    }

    fn found(&self, path: &str) -> Found {
        match self.things.get(path) {
            None => Found::Nothing,
            Some(Thing::Link(to)) => Found::Link(to.to_string()),
            Some(_) => Found::Other,
        }
    }

    fn sight(&self, check: &Check) -> Sight {
        let leads_to_directory = match self.things.get(&check.target) {
            Some(Thing::Link(to)) => self.is_directory(to),
            _ => self.is_directory(&check.target),
        };
        Sight {
            found: self.found(&check.target),
            leads_to_directory,
            source_is_directory: self.is_directory(&check.source),
        }
    }

    fn reconcile(&mut self, manifest: DesiredManifest) -> Result<(), ReconcileError> {
        check_desired_schema(manifest.schema_version)?;
        let previous = copy(self.state.as_ref().unwrap());
        let directories: Vec<bool> = manifest
            .packages
            .iter()
            .map(|package| self.is_directory(&package.store_path))
            .collect();
        let plan = plan_manifest(&manifest.packages, previous, &directories, "data")?;
        let checks = plan.checks.entries();
        let sights: Vec<Sight> = checks.iter().map(|(_, check)| self.sight(check)).collect();
        preflight(checks, &sights)?;
        for (_, check) in checks {
            match next_step(check, &self.found(&check.target)) {
                Step::Leave => {}
                Step::Seed | Step::Materialize => {
                    let copy = self.things[&check.source].clone();
                    self.things.insert(check.target.clone(), copy);
                }
                Step::Fail(error) => return Err(error),
            }
        }
        self.state = Some(plan.state);
        Ok(())
    }

    fn recorded(&self) -> Vec<String> {
        let entries = self.state.as_ref().unwrap().entries();
        entries.iter().map(|(name, _)| name.clone()).collect()
    }
}

fn copy(state: &ManagedState) -> ManagedState {
    let mut out = Ledger::new();
    for (name, package) in state.entries() {
        out.insert(name.clone(), package.clone());
    }
    out
}

fn p(kind: &str, id: &str, version: &str) -> DesiredPackage {
    DesiredPackage {
        kind: kind.into(),
        id: id.into(),
        state: "present".into(),
        version: version.into(),
        store_path: format!("/store/{version}"),
    }
}

fn manifest(packages: Vec<DesiredPackage>) -> DesiredManifest {
    DesiredManifest {
        schema_version: SCHEMA_VERSION,
        packages,
    }
}

#[test]
fn seeds_once_and_preserves_manual_changes() {
    let mut disk = Disk::new(&[
        ("/source-one", Thing::Directory("v1")),
        ("/source-two", Thing::Directory("v2")),
    ]);
    let first = DesiredPackage {
        store_path: "/source-one".into(),
        ..p("module", "demo", "1")
    };
    let second = DesiredPackage {
        store_path: "/source-two".into(),
        ..p("module", "demo", "2")
    };
    let place = "data/Data/modules/demo";

    disk.reconcile(manifest(vec![first])).unwrap();
    assert_eq!(disk.things[place], Thing::Directory("v1"));

    disk.things.insert(place.into(), Thing::Directory("manual"));
    disk.reconcile(manifest(vec![second])).unwrap();
    assert_eq!(disk.things[place], Thing::Directory("manual"));

    disk.reconcile(manifest(vec![])).unwrap();
    assert_eq!(disk.things[place], Thing::Directory("manual"));
    let recorded = disk.state.as_ref().unwrap().get("module/demo").unwrap();
    assert_eq!(recorded.version, "1");
    assert_eq!(recorded.store_path, "/source-one");
}

#[test]
fn deleted_target_is_not_seeded_again() {
    let mut disk = Disk::new(&[("/store/1", Thing::Directory("seed"))]);
    disk.reconcile(manifest(vec![p("module", "demo", "1")])).unwrap();
    disk.things.remove("data/Data/modules/demo");
    disk.reconcile(manifest(vec![p("module", "demo", "1")])).unwrap();
    assert!(!disk.things.contains_key("data/Data/modules/demo"));
    assert_eq!(disk.recorded(), ["module/demo"]);
}

#[test]
fn accepts_existing_directories_and_absent_only_resets_the_marker() {
    let place = "data/Data/systems/rules";
    let mut disk = Disk::new(&[
        ("/source", Thing::Directory("seed")),
        (place, Thing::Directory("manual")),
    ]);
    let package = DesiredPackage {
        store_path: "/source".into(),
        ..p("system", "rules", "1")
    };

    disk.reconcile(manifest(vec![package.clone()])).unwrap();
    assert_eq!(disk.things[place], Thing::Directory("manual"));
    disk.reconcile(manifest(vec![DesiredPackage {
        state: "absent".into(),
        version: String::new(),
        store_path: String::new(),
        ..package.clone()
    }]))
    .unwrap();
    assert_eq!(disk.things[place], Thing::Directory("manual"));
    assert!(disk.recorded().is_empty());
    disk.things.remove(place);
    disk.reconcile(manifest(vec![package])).unwrap();
    assert_eq!(disk.things[place], Thing::Directory("seed"));
}

#[test]
fn materializes_legacy_recorded_symlinks() {
    let place = "data/Data/modules/demo";
    let mut disk = Disk::new(&[
        ("/source", Thing::Directory("seed")),
        (place, Thing::Link("/source/")),
    ]);
    let mut state = Ledger::new();
    state.insert(
        "module/demo".into(),
        ManagedPackage {
            kind: "module".into(),
            id: "demo".into(),
            version: "1".into(),
            store_path: "/source".into(),
        },
    );
    disk.state = Some(state);
    let package = DesiredPackage {
        store_path: "/source".into(),
        ..p("module", "demo", "1")
    };

    disk.reconcile(manifest(vec![package])).unwrap();
    assert_eq!(disk.things[place], Thing::Directory("seed"));
    disk.things.insert(place.into(), Thing::Directory("manual"));
    assert_eq!(disk.things["/source"], Thing::Directory("seed"));
}

#[test]
fn rejects_invalid_ids_and_duplicate_packages() {
    let mut disk = Disk::new(&[("/source", Thing::Directory("seed"))]);
    let mut unsafe_package = p("module", "..", "1");
    unsafe_package.store_path = "/source".into();
    assert!(matches!(
        disk.reconcile(manifest(vec![unsafe_package])),
        Err(ReconcileError::UnsafeId(id)) if id == ".."
    ));
    let mut package = p("module", "demo", "1");
    package.store_path = "/source".into();
    assert!(matches!(
        disk.reconcile(manifest(vec![package.clone(), package])),
        Err(ReconcileError::UnsafeId(message)) if message.contains("duplicate")
    ));
    assert!(disk.recorded().is_empty());
}

#[test]
fn bad_target_stops_everything() {
    let mut disk = Disk::new(&[
        ("/store/1", Thing::Directory("seed")),
        ("data/Data/modules/zeta", Thing::File),
        ("data/Data/modules/link", Thing::Link("/elsewhere")),
    ]);
    let result = disk.reconcile(manifest(vec![
        p("module", "zeta", "1"),
        p("module", "link", "1"),
        p("module", "alpha", "1"),
    ]));
    // The places are looked at in the order of their keys.
    assert!(matches!(
        result,
        Err(ReconcileError::InvalidTarget(path)) if path == "data/Data/modules/link"
    ));
    assert!(!disk.things.contains_key("data/Data/modules/alpha"));
}

#[test]
fn packages_are_checked() {
    let refused = |package: DesiredPackage, directory: bool| {
        validate_package(&package, directory).unwrap_err().message()
    };
    assert!(validate_package(&p("module", "A.b_c-9", "1"), true).is_ok());
    assert_eq!(refused(p("world", "demo", "1"), true), "package has an unsafe id: world");
    for id in ["", ".", "..", "a/b", "a b", "é"] {
        assert_eq!(
            refused(p("module", id, "1"), true),
            format!("package has an unsafe id: {id}")
        );
    }
    assert_eq!(
        refused(p("module", "demo", " "), true),
        "package has an unsafe id: demo has no version"
    );
    let mut odd = p("system", "demo", "1");
    odd.state = "gone".into();
    assert_eq!(
        refused(odd, true),
        "package has an unsafe id: demo has invalid state gone"
    );
    assert_eq!(
        refused(p("module", "demo", "1"), false),
        "package store path is not an absolute directory: /store/1"
    );
    assert!(validate_store_path("/store", true).is_ok());
    assert!(validate_store_path("store", true).is_err());
    assert_eq!(default_state(), "present");
    assert_eq!(key("module", "demo"), "module/demo");
    assert_eq!(target("/srv/", &p("system", "demo", "1")), "/srv/Data/systems/demo");
}

#[test]
fn schemas_are_checked() {
    assert!(check_desired_schema(1).is_ok());
    assert_eq!(
        check_desired_schema(2).unwrap_err().message(),
        "package has an unsafe id: unsupported desired schema 2"
    );
    assert!(check_state_schema(1).is_ok());
    assert_eq!(
        check_state_schema(0).unwrap_err().message(),
        "package has an unsafe id: unsupported managed state schema 0"
    );
}

#[test]
fn package_errors_have_texts() {
    assert_eq!(
        ReconcileError::Manifest("x".into()).message(),
        "desired package manifest is invalid: x"
    );
    assert_eq!(
        ReconcileError::State("x".into()).message(),
        "managed package state is invalid: x"
    );
    assert_eq!(
        ReconcileError::InvalidTarget("/x".into()).message(),
        "package target is not a directory: /x"
    );
    assert_eq!(
        map_symlink_error(true, "x".into()).message(),
        "reconciliation requires Unix symlink support"
    );
    assert_eq!(map_symlink_error(false, "x".into()).message(), "I/O error: x");
}

#[test]
fn places_are_left_seeded_or_materialized() {
    let check = |recorded: bool| Check {
        target: "data/Data/modules/demo".into(),
        source: "/store/1".into(),
        recorded,
    };
    let link = Found::Link("/store/1".into());
    assert!(matches!(next_step(&check(false), &Found::Nothing), Step::Seed));
    assert!(matches!(next_step(&check(true), &Found::Nothing), Step::Leave));
    assert!(matches!(next_step(&check(false), &link), Step::Materialize));
    assert!(matches!(next_step(&check(true), &link), Step::Materialize));
    let other = Found::Link("/store/2".into());
    assert!(matches!(next_step(&check(false), &other), Step::Leave));
    assert!(matches!(next_step(&check(true), &Found::Other), Step::Leave));
    assert!(matches!(
        next_step(&check(true), &Found::Unreadable("denied".into())),
        Step::Fail(ReconcileError::Io(text)) if text == "denied"
    ));
    let lost = Sight {
        found: Found::Link("/store/1".into()),
        leads_to_directory: false,
        source_is_directory: false,
    };
    assert!(matches!(
        preflight(&vec![("module/demo".to_string(), check(true))], &vec![lost]),
        Err(ReconcileError::InvalidStorePath(path)) if path == "/store/1"
    ));
}

#[test]
fn trees_hold_nothing_that_leads_out() {
    let link = |name: &str, target: &str| TreeEntry::Link {
        name: Some(name.into()),
        target: Some(target.into()),
    };
    assert!(check_tree_entry(&TreeEntry::Directory, "/store").is_ok());
    assert!(check_tree_entry(&TreeEntry::File, "/store").is_ok());
    assert!(check_tree_entry(&link("a/b", "../c"), "/store").is_ok());
    for entry in [
        link("a/b", "../../c"),
        link("a", "/etc"),
        TreeEntry::Link { name: None, target: Some("c".into()) },
        TreeEntry::Other,
    ] {
        assert!(matches!(
            check_tree_entry(&entry, "/store"),
            Err(ReconcileError::InvalidStorePath(path)) if path == "/store"
        ));
    }
    assert_eq!(mutable_mode(0o100444), 0o100644);
    assert_eq!(mutable_mode(0o755), 0o755);
}

#[test]
fn ledger_is_a_sorted_map() {
    let words = ["module/b", "system/a", "module/a", "module", "module/a!", "é", "module/b"];
    let mut ledger: Ledger<usize> = Ledger::new();
    let mut map: BTreeMap<String, usize> = BTreeMap::new();
    for (i, word) in words.iter().enumerate() {
        ledger.insert(word.to_string(), i);
        map.insert(word.to_string(), i);
    }
    ledger.remove("module/a");
    map.remove("module/a");
    ledger.remove("missing");
    let listed: Vec<(String, usize)> = map.into_iter().collect();
    assert_eq!(*ledger.entries(), listed);
    assert_eq!(ledger.get("module/b"), Some(&6));
    assert_eq!(ledger.get("module/a"), None);
    for a in words {
        for b in words {
            assert_eq!(comes_before(a, b), a < b);
        }
    }
}

#[test]
fn manifest_in_effect_changes_nothing_more() {
    let mut disk = Disk::new(&[
        ("/store/1", Thing::Directory("one")),
        ("/store/2", Thing::Directory("two")),
    ]);
    let mut gone = p("module", "gone", "1");
    gone.state = "absent".into();
    let wanted = || {
        manifest(vec![
            p("system", "demo", "2"),
            p("module", "demo", "1"),
            gone.clone(),
        ])
    };
    disk.reconcile(wanted()).unwrap();
    let things = disk.things.clone();
    let recorded = disk.recorded();
    assert_eq!(recorded, ["module/demo", "system/demo"]);
    disk.reconcile(wanted()).unwrap();
    assert_eq!(disk.things, things);
    assert_eq!(disk.recorded(), recorded);
    assert_ne!(
        target("data", &p("module", "demo", "1")),
        target("data", &p("system", "demo", "1"))
    );
}
