//! The on-disk sysroot home: where the cross-compiled artifacts live, and
//! the per-triple advisory locks that guard them.

use advisory_lock::AdvisoryFileLock;
use crate::errors::{Error, LockMode};
use vstd::prelude::*;
use vstd::string::StringExecFns;

verus! {

/// Declares the advisory lock handle of the `advisory-lock` crate; its
/// value is opaque to verification.
#[verifier::external_type_specification]
#[verifier::external_body]
pub struct ExAdvisoryFileLock(AdvisoryFileLock);

/// A held advisory lock on one triple's sysroot directory. Dropping the
/// handle releases the lock, so a lock acquired in a scope is released on
/// every exit path of that scope, and lock ownership ends with the process.
pub struct FileLock {
    handle: AdvisoryFileLock,
}

/// The outcome of a non-blocking lock attempt.
enum TryAcquire {
    Acquired,
    Contended,
    Failed(String),
}

/// Relies on advisory_lock::AdvisoryFileLock::new: opens the file at `path`
/// (creating it in exclusive mode) without acquiring any lock yet.
#[verifier::external_body]
fn open_lock_file(path: &str, exclusive: bool) -> (r: Result<AdvisoryFileLock, String>) {
    let mode = if exclusive {
        advisory_lock::FileLockMode::Exclusive
    } else {
        advisory_lock::FileLockMode::Shared
    };
    AdvisoryFileLock::new(path, mode).map_err(|e| e.to_string())
}

/// Relies on advisory_lock::AdvisoryFileLock::lock: blocks until the
/// operating system grants the lock in the handle's mode, or reports the
/// underlying I/O failure.
#[verifier::external_body]
fn block_on_lock(handle: &mut AdvisoryFileLock) -> (r: Result<(), String>) {
    handle.lock().map_err(|e| e.to_string())
}

/// Relies on advisory_lock::AdvisoryFileLock::try_lock: returns at once;
/// `AlreadyLocked` reports a conflicting holder, anything else is an I/O
/// failure.
#[verifier::external_body]
fn try_acquire(handle: &mut AdvisoryFileLock) -> (r: TryAcquire) {
    match handle.try_lock() {
        Ok(()) => TryAcquire::Acquired,
        Err(advisory_lock::FileLockError::AlreadyLocked) => TryAcquire::Contended,
        Err(err) => TryAcquire::Failed(err.to_string()),
    }
}

/// Relies on fs_err::create_dir_all: creates the directory and any missing
/// parents, succeeding when the directory already exists.
#[verifier::external_body]
fn create_dir_tree(path: &str) -> (r: Result<(), String>) {
    fs_err::create_dir_all(path).map_err(|e| e.to_string())
}

/// Relies on fs_err::write: creates the lock sentinel file at `path`. The
/// sentinel's contents are never read, so truncating an existing one is
/// harmless.
#[verifier::external_body]
fn touch_file(path: &str) -> (r: Result<(), String>) {
    fs_err::write(path, b"").map_err(|e| e.to_string())
}

fn lock_error(triple: &str, mode: LockMode, cause: String) -> (r: Error)
    ensures
        r matches Error::LockFailed { triple: t, mode: m, cause: c } && t@ == triple@ && m == mode
            && c@ == cause@,
{
    Error::LockFailed { triple: triple.to_owned(), mode, cause }
}

/// The root directory holding per-triple precompiled artifacts.
pub struct Home {
    path: String,
}

impl View for Home {
    type V = Seq<char>;

    closed spec fn view(&self) -> Seq<char> {
        self.path@
    }
}

/// The directory holding one triple's artifacts under a sysroot home.
pub open spec fn triple_dir(home: Seq<char>, triple: Seq<char>) -> Seq<char> {
    home + "/lib/rustlib/"@ + triple
}

impl Home {
    /// A sysroot home rooted at `path`.
    pub fn new(path: String) -> (r: Home)
        ensures
            r@ == path@,
    {
        Home { path }
    }

    /// The sysroot path as owned text.
    pub fn display(&self) -> (r: String)
        ensures
            r@ == self@,
    {
        self.path.clone()
    }

    /// The sysroot path as borrowed text.
    pub fn as_str(&self) -> (r: &str)
        ensures
            r@ == self@,
    {
        self.path.as_str()
    }

    fn dir_for(&self, triple: &str) -> (r: String)
        ensures
            r@ == triple_dir(self@, triple@),
    {
        let mut out = self.path.clone();
        out.append("/lib/rustlib/");
        out.append(triple);
        proof {
            assert(out@ =~= triple_dir(self@, triple@));
        }
        out
    }
}

impl Home {
    fn acquire(&self, triple: &str, mode: LockMode, block: bool) -> (r: Result<
        Option<FileLock>,
        Error,
    >)
        ensures
            match r {
                Ok(o) => block ==> o is Some,
                Err(e) => e matches Error::LockFailed { triple: t, mode: m, .. } && t@ == triple@
                    && m == mode,
            },
    {
        let dir = self.dir_for(triple);
        if let Err(cause) = create_dir_tree(dir.as_str()) {
            return Err(lock_error(triple, mode, cause));
        }
        let mut sentinel = dir;
        sentinel.append("/.sentinel");
        if let Err(cause) = touch_file(sentinel.as_str()) {
            return Err(lock_error(triple, mode, cause));
        }
        let exclusive = match mode {
            LockMode::Exclusive => true,
            LockMode::Shared => false,
        };
        let mut handle = match open_lock_file(sentinel.as_str(), exclusive) {
            Ok(h) => h,
            Err(cause) => {
                return Err(lock_error(triple, mode, cause));
            },
        };
        if block {
            match block_on_lock(&mut handle) {
                Ok(_) => Ok(Some(FileLock { handle })),
                Err(cause) => Err(lock_error(triple, mode, cause)),
            }
        } else {
            match try_acquire(&mut handle) {
                TryAcquire::Acquired => Ok(Some(FileLock { handle })),
                TryAcquire::Contended => Ok(None),
                TryAcquire::Failed(cause) => Err(lock_error(triple, mode, cause)),
            }
        }
    }

    /// Takes the shared (read) advisory lock on `triple`'s sysroot
    /// directory, creating the directory and sentinel if absent and blocking
    /// until the lock is granted. An error names the triple and the mode.
    pub fn lock_ro(&self, triple: &str) -> (r: Result<FileLock, Error>)
        ensures
            r matches Err(e) ==> e matches Error::LockFailed { triple: t, mode, .. } && t@
                == triple@ && mode == LockMode::Shared,
    {
        match self.acquire(triple, LockMode::Shared, true) {
            Ok(Some(l)) => Ok(l),
            // A blocking acquisition never reports contention.
            Ok(None) => Err(lock_error(triple, LockMode::Shared, String::new())),
            Err(e) => Err(e),
        }
    }

    /// Takes the exclusive (write) advisory lock on `triple`'s sysroot
    /// directory, creating the directory and sentinel if absent and blocking
    /// until the lock is granted. An error names the triple and the mode.
    pub fn lock_rw(&self, triple: &str) -> (r: Result<FileLock, Error>)
        ensures
            r matches Err(e) ==> e matches Error::LockFailed { triple: t, mode, .. } && t@
                == triple@ && mode == LockMode::Exclusive,
    {
        match self.acquire(triple, LockMode::Exclusive, true) {
            Ok(Some(l)) => Ok(l),
            // A blocking acquisition never reports contention.
            Ok(None) => Err(lock_error(triple, LockMode::Exclusive, String::new())),
            Err(e) => Err(e),
        }
    }

    /// Tries to take the shared lock without blocking: `Ok(None)` reports a
    /// conflicting holder.
    pub fn try_lock_ro(&self, triple: &str) -> (r: Result<Option<FileLock>, Error>)
        ensures
            r matches Err(e) ==> e matches Error::LockFailed { triple: t, mode, .. } && t@
                == triple@ && mode == LockMode::Shared,
    {
        self.acquire(triple, LockMode::Shared, false)
    }

    /// Tries to take the exclusive lock without blocking: `Ok(None)` reports
    /// a conflicting holder.
    pub fn try_lock_rw(&self, triple: &str) -> (r: Result<Option<FileLock>, Error>)
        ensures
            r matches Err(e) ==> e matches Error::LockFailed { triple: t, mode, .. } && t@
                == triple@ && mode == LockMode::Exclusive,
    {
        self.acquire(triple, LockMode::Exclusive, false)
    }
}

/// Whether the invocation compiles for the host triple or for a cross
/// target; either way the triple keys the sysroot directory to lock.
pub enum CompilationMode {
    Native { triple: String },
    Cross { triple: String },
}

impl CompilationMode {
    /// The triple whose sysroot the invocation reads.
    pub open spec fn spec_triple(&self) -> Seq<char> {
        match *self {
            CompilationMode::Native { triple } => triple@,
            CompilationMode::Cross { triple } => triple@,
        }
    }

    /// The triple whose sysroot the invocation reads.
    pub fn triple(&self) -> (r: &str)
        ensures
            r@ == self.spec_triple(),
    {
        match self {
            CompilationMode::Native { triple } => triple.as_str(),
            CompilationMode::Cross { triple } => triple.as_str(),
        }
    }
}

/// Resolves the sysroot home: an environment override wins outright;
/// otherwise the configured relative sysroot path is joined under `root`.
pub fn home(root: &str, sysroot_path: &str, env_override: Option<String>) -> (r: Home)
    ensures
        r@ == match env_override {
            Some(p) => p@,
            None => root@ + "/"@ + sysroot_path@,
        },
{
    match env_override {
        Some(p) => Home::new(p),
        None => {
            let mut out = root.to_owned();
            out.append("/");
            out.append(sysroot_path);
            proof {
                assert(out@ =~= root@ + "/"@ + sysroot_path@);
            }
            Home::new(out)
        },
    }
}

} // verus!
