use std::cell::RefCell;

use pv_assembler::db::{owner_key, Db};
use pv_assembler::errors::Error;

fn s(x: &str) -> String {
    x.to_string()
}

#[test]
fn owner_key_format() {
    assert_eq!(owner_key(&s("team-a"), &s("site")), "owner:team-a/site");
}

#[test]
fn overlapping_claim_conflicts() {
    let mut db = Db::new();
    let paths = vec![s("data/shared.txt")];
    let r = db.apply_changes(&s("team-a"), &s("one"), &paths, |_v: Vec<String>| -> Result<(), Error> { Ok(()) });
    assert!(r.is_ok());

    // The second owner contends for the same path: it must lose, its commit
    // step must never run, and nothing may change.
    let calls = RefCell::new(0u32);
    let r2 = db.apply_changes(&s("team-a"), &s("two"), &paths, |_v: Vec<String>| -> Result<(), Error> {
        *calls.borrow_mut() += 1;
        Ok(())
    });
    match r2 {
        Err(Error::Conflict(current, requesting)) => {
            assert_eq!(current, "owner:team-a/one");
            assert_eq!(requesting, "owner:team-a/two");
        }
        other => panic!("expected a conflict, got {:?}", other),
    }
    assert_eq!(*calls.borrow(), 0);
    assert_eq!(db.file_owner(&s("data/shared.txt")), Some(s("owner:team-a/one")));
    assert_eq!(db.owner_record(&s("team-a"), &s("two")), None);
}

#[test]
fn diff_previous_abc_desired_bcd() {
    let mut db = Db::new();
    let prev = vec![s("a"), s("b"), s("c")];
    db.apply_changes(&s("ns"), &s("o"), &prev, |_v: Vec<String>| -> Result<(), Error> { Ok(()) })
        .unwrap();

    let released = RefCell::new(Vec::new());
    let desired = vec![s("b"), s("c"), s("d")];
    db.apply_changes(&s("ns"), &s("o"), &desired, |v: Vec<String>| -> Result<(), Error> {
        *released.borrow_mut() = v;
        Ok(())
    })
    .unwrap();

    // Exactly "a" is released; "b" and "c" stay claimed; "d" is claimed.
    assert_eq!(*released.borrow(), vec![s("a")]);
    assert_eq!(db.file_owner(&s("a")), None);
    assert_eq!(db.file_owner(&s("b")), Some(s("owner:ns/o")));
    assert_eq!(db.file_owner(&s("c")), Some(s("owner:ns/o")));
    assert_eq!(db.file_owner(&s("d")), Some(s("owner:ns/o")));
    assert_eq!(db.owner_record(&s("ns"), &s("o")), Some(desired));
}

#[test]
fn apply_twice_is_idempotent() {
    let mut db = Db::new();
    let desired = vec![s("x"), s("y")];
    db.apply_changes(&s("ns"), &s("o"), &desired, |_v: Vec<String>| -> Result<(), Error> { Ok(()) })
        .unwrap();
    let record_1 = db.owner_record(&s("ns"), &s("o"));

    let released = RefCell::new(vec![s("sentinel")]);
    db.apply_changes(&s("ns"), &s("o"), &desired, |v: Vec<String>| -> Result<(), Error> {
        *released.borrow_mut() = v;
        Ok(())
    })
    .unwrap();

    // The second run releases nothing and leaves the ledger as it was.
    assert_eq!(*released.borrow(), Vec::<String>::new());
    assert_eq!(db.owner_record(&s("ns"), &s("o")), record_1);
    assert_eq!(db.file_owner(&s("x")), Some(s("owner:ns/o")));
    assert_eq!(db.file_owner(&s("y")), Some(s("owner:ns/o")));
}

#[test]
fn failing_commit_aborts_everything() {
    let mut db = Db::new();
    db.apply_changes(&s("ns"), &s("o"), &vec![s("a"), s("b")], |_v: Vec<String>| -> Result<(), Error> {
        Ok(())
    })
    .unwrap();

    // The commit step fails: the staged diff must be discarded whole.
    let r = db.apply_changes(&s("ns"), &s("o"), &vec![s("b"), s("c")], |_v: Vec<String>| -> Result<(), Error> {
        Err(Error::Io(s("disk full")))
    });
    assert_eq!(r, Err(Error::Io(s("disk full"))));
    assert_eq!(db.owner_record(&s("ns"), &s("o")), Some(vec![s("a"), s("b")]));
    assert_eq!(db.file_owner(&s("a")), Some(s("owner:ns/o")));
    assert_eq!(db.file_owner(&s("c")), None);
}

#[test]
fn remove_releases_exactly_the_owner() {
    let mut db = Db::new();
    db.apply_changes(&s("ns"), &s("one"), &vec![s("p"), s("q")], |_v: Vec<String>| -> Result<(), Error> {
        Ok(())
    })
    .unwrap();
    db.apply_changes(&s("ns"), &s("two"), &vec![s("r")], |_v: Vec<String>| -> Result<(), Error> {
        Ok(())
    })
    .unwrap();

    let released = RefCell::new(Vec::new());
    db.remove(&s("ns"), &s("one"), |v: Vec<String>| -> Result<(), Error> {
        *released.borrow_mut() = v;
        Ok(())
    })
    .unwrap();

    // Exactly the first owner's paths are released; the other's survive.
    assert_eq!(*released.borrow(), vec![s("p"), s("q")]);
    assert_eq!(db.file_owner(&s("p")), None);
    assert_eq!(db.file_owner(&s("q")), None);
    assert_eq!(db.file_owner(&s("r")), Some(s("owner:ns/two")));
    assert_eq!(db.owner_record(&s("ns"), &s("one")), None);
    assert_eq!(db.owner_record(&s("ns"), &s("two")), Some(vec![s("r")]));
}

#[test]
fn remove_aborts_on_failing_release() {
    let mut db = Db::new();
    db.apply_changes(&s("ns"), &s("o"), &vec![s("p")], |_v: Vec<String>| -> Result<(), Error> {
        Ok(())
    })
    .unwrap();
    let r = db.remove(&s("ns"), &s("o"), |_v: Vec<String>| -> Result<(), Error> {
        Err(Error::Io(s("unlink failed")))
    });
    assert_eq!(r, Err(Error::Io(s("unlink failed"))));
    assert_eq!(db.file_owner(&s("p")), Some(s("owner:ns/o")));
    assert_eq!(db.owner_record(&s("ns"), &s("o")), Some(vec![s("p")]));
}

#[test]
fn remove_of_unknown_owner_is_noop() {
    let mut db = Db::new();
    let released = RefCell::new(vec![s("sentinel")]);
    db.remove(&s("ns"), &s("ghost"), |v: Vec<String>| -> Result<(), Error> {
        *released.borrow_mut() = v;
        Ok(())
    })
    .unwrap();
    assert_eq!(*released.borrow(), Vec::<String>::new());
    assert_eq!(db.owner_record(&s("ns"), &s("ghost")), None);
}
