//! The failure kinds of the orchestration core, with exact, human-readable
//! messages.

use vstd::prelude::*;
use vstd::string::StringExecFns;

verus! {

/// The mode in which a sysroot lock was requested.
#[derive(Debug, Clone, Copy, PartialEq, Eq, Structural)]
pub enum LockMode {
    Shared,
    Exclusive,
}

/// One failure of the orchestration core. No kind is retried; each carries
/// what a caller needs to report the failure.
#[derive(Debug, PartialEq)]
pub enum Error {
    /// A configuration entry exists under `key` but is not an array of
    /// strings.
    ConfigKeyNotArray { key: String },
    /// A configuration entry exists under `key` but is not a string.
    ConfigKeyNotString { key: String },
    /// The sysroot path contains a space and the override allowing spaces
    /// is not set.
    SysrootSpaces { sysroot: String },
    /// A referenced target-description file could not be resolved.
    PathResolution { path: String, cause: String },
    /// An advisory lock on a triple's sysroot directory could not be
    /// acquired; wraps the underlying failure text.
    LockFailed { triple: String, mode: LockMode, cause: String },
}

/// The message text of an error, over the views of its fields.
pub open spec fn spec_message(e: Error) -> Seq<char> {
    match e {
        Error::ConfigKeyNotArray { key } => "configuration key "@ + key@
            + " must be an array of strings"@,
        Error::ConfigKeyNotString { key } => "configuration key "@ + key@
            + " must be a string"@,
        Error::SysrootSpaces { sysroot } => "the sysroot path `"@ + sysroot@
            + "` contains a space, which the invoked toolchain cannot handle; set the environment override to allow it"@,
        Error::PathResolution { path, cause } => "the target file `"@ + path@
            + "` could not be resolved: "@ + cause@,
        Error::LockFailed { triple, mode, cause } => "couldn't lock "@ + triple@
            + "'s sysroot "@ + (if mode is Shared {
            "as read-only"@
        } else {
            "as read-write"@
        }) + ": "@ + cause@,
    }
}

impl Error {
    /// The human-readable description of this failure.
    pub fn message(&self) -> (r: String)
        ensures
            r@ == spec_message(*self),
    {
        let mut out = String::new();
        match self {
            Error::ConfigKeyNotArray { key } => {
                out.append("configuration key ");
                out.append(key.as_str());
                out.append(" must be an array of strings");
            },
            Error::ConfigKeyNotString { key } => {
                out.append("configuration key ");
                out.append(key.as_str());
                out.append(" must be a string");
            },
            Error::SysrootSpaces { sysroot } => {
                out.append("the sysroot path `");
                out.append(sysroot.as_str());
                out.append(
                    "` contains a space, which the invoked toolchain cannot handle; set the environment override to allow it",
                );
            },
            Error::PathResolution { path, cause } => {
                out.append("the target file `");
                out.append(path.as_str());
                out.append("` could not be resolved: ");
                out.append(cause.as_str());
            },
            Error::LockFailed { triple, mode, cause } => {
                out.append("couldn't lock ");
                out.append(triple.as_str());
                out.append("'s sysroot ");
                match mode {
                    LockMode::Shared => out.append("as read-only"),
                    LockMode::Exclusive => out.append("as read-write"),
                }
                out.append(": ");
                out.append(cause.as_str());
            },
        }
        proof {
            assert(out@ =~= spec_message(*self));
        }
        out
    }
}

} // verus!
