//! Errors of configuration parsing and target arrangement.
use vstd::prelude::*;

verus! {

/// Why a configuration document was refused.
#[derive(Debug)]
pub enum ConfigError {
    /// The document is not well-formed TOML.
    Malformed,
    /// A required section or field is absent.
    Missing { field: String },
    /// A field that must hold a string holds something else.
    NotAString { field: String },
    /// A field that must hold an array holds something else.
    NotAnArray { field: String },
    /// An array field holds an element that is not a string.
    NotAStringElement { field: String },
    /// A section that must be a table is something else.
    NotATable { field: String },
    /// The platform's architecture is none of the supported ones.
    UnsupportedArch { arch: String },
    /// The emulator bus is neither `mmio` nor `pci`.
    UnsupportedBus { bus: String },
    /// The emulator network device is neither `user` nor `tap`.
    UnsupportedNetDev { net_dev: String },
    /// A target's type is none of `exe`, `dll`, `static`, `object`.
    InvalidTargetType { target: String },
    /// The document declares no target.
    NoTargets,
    /// Two source files of a target share a file name.
    DuplicateSource { target: String, file: String },
    /// Two targets share a name.
    DuplicateTargetName { name: String },
    /// Target `first` depends on target `second`, and both lie on
    /// dependencies that never bottom out.
    CircularDependency { first: String, second: String },
}

} // verus!
