use vstd::prelude::*;

verus! {

/// Why the toolchain cannot build.
#[derive(Debug, Clone, Copy, PartialEq, Eq, Structural)]
pub enum BuildToolError {
    MissingRustNightly,
    RustupUnavailable,
}

impl BuildToolError {
    /// The text that describes the error.
    pub fn message(&self) -> (r: &'static str)
        ensures
            *self == BuildToolError::MissingRustNightly ==> r@
                == "Rust nightly toolchain is required but not installed"@,
            *self == BuildToolError::RustupUnavailable ==> r@
                == "rustup is not available or cannot be executed"@,
    {
        match self {
            BuildToolError::MissingRustNightly => "Rust nightly toolchain is required but not installed",
            BuildToolError::RustupUnavailable => "rustup is not available or cannot be executed",
        }
    }
}

} // verus!
