use std::cell::RefCell;
use std::collections::HashMap;

use pv_assembler::crd::{PvPart, PvPartSpec};
use pv_assembler::db::Db;
use pv_assembler::errors::Error;
use pv_assembler::opts::{Config, ConfigV1, Opts};
use pv_assembler::pvc_part::{delete, deploy, resolve_files, validate_rel_path};
use pv_assembler::reconcile::{
    determine_action, reconcile_plan, schedule_on_error, schedule_on_success, PvPartAction,
    Schedule, ERROR_REQUEUE_SECONDS, REQUEUE_SECONDS,
};

fn s(x: &str) -> String {
    x.to_string()
}

fn team_a_config() -> Opts {
    let config = match Config::V1(ConfigV1 { volumes: vec![s("data")] }) {
        Config::V1(v1) => v1,
    };
    Opts::new(s("team-a"), config)
}

fn spec_with(files: Vec<(&str, &str)>) -> PvPartSpec {
    PvPartSpec {
        target_volume: s("data"),
        files: files.into_iter().map(|(k, v)| (s(k), s(v))).collect(),
    }
}

/// Write every resolved file, delete every released one: the commit step a
/// real deployment performs against the filesystem.
fn commit_into<'a>(
    fs: &'a RefCell<HashMap<String, String>>,
    resolved: &'a [(String, String)],
) -> impl Fn(Vec<String>) -> Result<(), Error> + 'a {
    move |to_delete: Vec<String>| {
        let mut fs = fs.borrow_mut();
        for (path, content) in resolved {
            fs.insert(path.clone(), content.clone());
        }
        for path in &to_delete {
            fs.remove(path);
        }
        Ok(())
    }
}

#[test]
fn path_validation() {
    assert!(validate_rel_path(&s("index.html")));
    assert!(validate_rel_path(&s("a/b/c.txt")));
    assert!(validate_rel_path(&s("...")));
    assert!(!validate_rel_path(&s("")));
    assert!(!validate_rel_path(&s("/etc/passwd")));
    assert!(!validate_rel_path(&s("../escape")));
    assert!(!validate_rel_path(&s("a/../b")));
    assert!(!validate_rel_path(&s("a/..")));
    assert!(!validate_rel_path(&s("a//b")));
    assert!(!validate_rel_path(&s("a/./b")));
    assert!(!validate_rel_path(&s(".")));
    assert!(!validate_rel_path(&s("trailing/")));
}

#[test]
fn traversal_key_rejected_without_mutation() {
    let config = team_a_config();
    let mut db = Db::new();
    let spec = spec_with(vec![("../escape", "boom")]);
    let r = deploy(&spec, &config, &s("team-a"), &s("site"), &mut db, true, |_v: Vec<String>| -> Result<(), Error> {
        panic!("commit must not run for a rejected spec");
    });
    assert_eq!(r, Err(Error::FileName));
    assert_eq!(db.owner_record(&s("team-a"), &s("site")), None);

    let absolute = spec_with(vec![("/abs/path", "boom")]);
    let r2 = resolve_files(&absolute, &config, &s("team-a"), true);
    assert_eq!(r2, Err(Error::FileName));
}

#[test]
fn cross_namespace_forbidden() {
    let config = team_a_config();
    let mut db = Db::new();
    let spec = spec_with(vec![("index.html", "hi")]);
    let r = deploy(&spec, &config, &s("team-b"), &s("site"), &mut db, true, |_v: Vec<String>| -> Result<(), Error> {
        panic!("commit must not run for a forbidden namespace");
    });
    assert_eq!(r, Err(Error::Forbidden(s("team-b"), s("data"))));
    assert_eq!(db.owner_record(&s("team-b"), &s("site")), None);
}

#[test]
fn unknown_volume_rejected() {
    let config = team_a_config();
    let mut db = Db::new();
    let mut spec = spec_with(vec![("index.html", "hi")]);
    spec.target_volume = s("other");
    let r = deploy(&spec, &config, &s("team-a"), &s("site"), &mut db, true, |_v: Vec<String>| -> Result<(), Error> {
        Ok(())
    });
    assert_eq!(r, Err(Error::VolumeNotMounted(s("other"))));
}

#[test]
fn unmounted_volume_root_rejected() {
    let config = team_a_config();
    let mut db = Db::new();
    let spec = spec_with(vec![("index.html", "hi")]);
    let r = deploy(&spec, &config, &s("team-a"), &s("site"), &mut db, false, |_v: Vec<String>| -> Result<(), Error> {
        Ok(())
    });
    assert_eq!(r, Err(Error::VolumeNotMounted(s("data"))));
}

#[test]
fn end_to_end_site_lifecycle() {
    // A controller serving "team-a" with one allowed volume "data".
    let config = team_a_config();
    let mut db = Db::new();
    let fs: RefCell<HashMap<String, String>> = RefCell::new(HashMap::new());

    // First apply: index.html lands on the volume, the ledger records it.
    let spec1 = spec_with(vec![("index.html", "hi")]);
    let resolved1 = resolve_files(&spec1, &config, &s("team-a"), true).unwrap();
    assert_eq!(resolved1, vec![(s("/volumes/data/index.html"), s("hi"))]);
    deploy(&spec1, &config, &s("team-a"), &s("site"), &mut db, true, commit_into(&fs, &resolved1))
        .unwrap();
    assert_eq!(fs.borrow().get("/volumes/data/index.html"), Some(&s("hi")));
    assert_eq!(
        db.owner_record(&s("team-a"), &s("site")),
        Some(vec![s("/volumes/data/index.html")])
    );

    // Updated spec: about.html replaces index.html.
    let spec2 = spec_with(vec![("about.html", "about")]);
    let resolved2 = resolve_files(&spec2, &config, &s("team-a"), true).unwrap();
    deploy(&spec2, &config, &s("team-a"), &s("site"), &mut db, true, commit_into(&fs, &resolved2))
        .unwrap();
    assert_eq!(fs.borrow().get("/volumes/data/index.html"), None);
    assert_eq!(fs.borrow().get("/volumes/data/about.html"), Some(&s("about")));
    assert_eq!(
        db.owner_record(&s("team-a"), &s("site")),
        Some(vec![s("/volumes/data/about.html")])
    );

    // Deletion: the owned file goes away and the record is cleared.
    let removed = delete(&spec2, &config, &s("team-a"), &s("site"), &mut db, true, |to_delete: Vec<String>| -> Result<(), Error> {
        let mut fs = fs.borrow_mut();
        for path in &to_delete {
            fs.remove(path);
        }
        Ok(())
    });
    assert!(removed.is_ok());
    assert!(fs.borrow().is_empty());
    assert_eq!(db.owner_record(&s("team-a"), &s("site")), None);
    assert_eq!(db.file_owner(&s("/volumes/data/about.html")), None);
}

#[test]
fn deploy_conflict_between_tenants() {
    let config = team_a_config();
    let mut db = Db::new();
    let spec = spec_with(vec![("shared.conf", "one")]);
    deploy(&spec, &config, &s("team-a"), &s("one"), &mut db, true, |_v: Vec<String>| -> Result<(), Error> {
        Ok(())
    })
    .unwrap();

    let spec_two = spec_with(vec![("shared.conf", "two")]);
    let r = deploy(&spec_two, &config, &s("team-a"), &s("two"), &mut db, true, |_v: Vec<String>| -> Result<(), Error> {
        panic!("commit must not run for a conflicting spec");
    });
    match r {
        Err(Error::Conflict(current, requesting)) => {
            assert_eq!(current, "owner:team-a/one");
            assert_eq!(requesting, "owner:team-a/two");
        }
        other => panic!("expected a conflict, got {:?}", other),
    }
    assert_eq!(
        db.file_owner(&s("/volumes/data/shared.conf")),
        Some(s("owner:team-a/one"))
    );
}

#[test]
fn reconcile_decisions() {
    let live = PvPart {
        namespace: Some(s("team-a")),
        name: s("site"),
        has_deletion_timestamp: false,
        spec: spec_with(vec![("index.html", "hi")]),
    };
    assert_eq!(determine_action(&live), PvPartAction::Update);
    assert_eq!(reconcile_plan(&live), Ok(PvPartAction::Update));
    assert_eq!(
        schedule_on_success(&PvPartAction::Update),
        Schedule::RequeueSecs(REQUEUE_SECONDS)
    );

    let dying = PvPart { has_deletion_timestamp: true, ..live.clone() };
    assert_eq!(determine_action(&dying), PvPartAction::Delete);
    assert_eq!(schedule_on_success(&PvPartAction::Delete), Schedule::AwaitChange);

    let orphan = PvPart { namespace: None, ..live };
    assert_eq!(reconcile_plan(&orphan), Err(Error::ResourceIsNotNamespaced));

    assert_eq!(
        schedule_on_error(&Error::FileName),
        Schedule::RequeueSecs(ERROR_REQUEUE_SECONDS)
    );
    assert_eq!(REQUEUE_SECONDS, 10);
    assert_eq!(ERROR_REQUEUE_SECONDS, 5);
}

#[test]
fn opts_carry_namespace_and_volumes() {
    let opts = Opts::new(s("team-a"), ConfigV1 { volumes: vec![s("data"), s("logs")] });
    assert_eq!(opts.namespace, "team-a");
    assert!(opts.contains_volume(&s("logs")));
    assert!(!opts.contains_volume(&s("data2")));
}
