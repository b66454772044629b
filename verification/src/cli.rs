//! The command-line surface as plain data: what each subcommand carries,
//! free of any argument-parsing machinery, so the batch logic can be
//! driven from values alone.

use vstd::prelude::*;

verus! {

/// The generate subcommand: produce metadata and composite the images.
pub struct Generate {
    /// Use metadata already present instead of generating it first.
    pub skip_metadata: bool,
    /// Where the layer assets live.
    pub assets: String,
    /// Where the configuration file lives.
    pub config: String,
    /// Where the generated output goes.
    pub output: String,
}

/// The init subcommand: lay out a fresh assets directory.
pub struct Init {
    /// The assets directory to initialize.
    pub folder: String,
    /// Overwrite the directory if it already exists.
    pub overwrite: bool,
    /// Build the configuration from an existing directory's layout.
    pub from_existing: Option<String>,
}

/// The verify subcommand: check a generated directory for completeness.
pub struct Verify {
    /// The generated directory to verify.
    pub folder: String,
}

} // verus!
