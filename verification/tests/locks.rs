use xbuild::errors::{Error, LockMode};
use xbuild::xargo::{CompilationMode, Home};

#[test]
fn write_lock_is_refused_while_a_read_lock_is_held() {
    let home = Home::new("/tmp/xbuild_locks_rw_vs_ro".to_string());
    let read = home.lock_ro("t1").unwrap();
    let write = home.try_lock_rw("t1").unwrap();
    assert!(write.is_none());
    drop(read);
    let write_after = home.try_lock_rw("t1").unwrap();
    assert!(write_after.is_some());
}

#[test]
fn read_lock_is_refused_while_a_write_lock_is_held() {
    let home = Home::new("/tmp/xbuild_locks_ro_vs_rw".to_string());
    let write = home.lock_rw("t1").unwrap();
    let read = home.try_lock_ro("t1").unwrap();
    assert!(read.is_none());
    drop(write);
    let read_after = home.try_lock_ro("t1").unwrap();
    assert!(read_after.is_some());
}

#[test]
fn concurrent_read_locks_are_allowed() {
    let home = Home::new("/tmp/xbuild_locks_ro_ro".to_string());
    let first = home.lock_ro("t1").unwrap();
    let second = home.try_lock_ro("t1").unwrap();
    assert!(second.is_some());
    drop(first);
}

#[test]
fn distinct_triples_lock_independently() {
    let home = Home::new("/tmp/xbuild_locks_two_triples".to_string());
    let read_t1 = home.lock_ro("t1").unwrap();
    let write_t2 = home.try_lock_rw("t2").unwrap();
    assert!(write_t2.is_some());
    drop(read_t1);
}

#[test]
fn lock_failure_names_the_triple_and_mode() {
    // Locking under a path whose parent is an existing file cannot create
    // the sysroot directory tree.
    let home = Home::new("/tmp/xbuild_locks_fail".to_string());
    let held = home.lock_ro("t1").unwrap();
    drop(held);
    let inner = Home::new("/tmp/xbuild_locks_fail/lib/rustlib/t1/.sentinel".to_string());
    let e = match inner.lock_rw("t1") {
        Err(e) => e,
        Ok(_) => panic!("lock unexpectedly succeeded"),
    };
    match e {
        Error::LockFailed {
            triple,
            mode,
            cause,
        } => {
            assert_eq!(triple, "t1");
            assert_eq!(mode, LockMode::Exclusive);
            assert!(!cause.is_empty());
        }
        other => panic!("unexpected error: {:?}", other),
    }
}

#[test]
fn compilation_mode_exposes_its_triple() {
    let native = CompilationMode::Native {
        triple: "host-triple".to_string(),
    };
    let cross = CompilationMode::Cross {
        triple: "thumbv7em-none-eabi".to_string(),
    };
    assert_eq!(native.triple(), "host-triple");
    assert_eq!(cross.triple(), "thumbv7em-none-eabi");
}
