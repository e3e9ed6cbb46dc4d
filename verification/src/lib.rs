//! Buildpack stack-compatibility resolver and builder-config synthesizer.
//!
//! The library resolves, for an ordered list of named buildpacks, the
//! container-image stacks they are jointly compatible with, synthesizes a
//! builder configuration document from the resolution, and prepares the
//! command line for the external builder-creation tool.  Registry fetches,
//! file writes and process spawning are I/O and live in the surrounding
//! application; every decision between those edges is made here, with a
//! proved contract.

pub mod builder;
pub mod buildpack;
pub mod config_doc;
pub mod droid;
pub mod error;
pub mod process;
pub mod registry;
pub mod stack;
pub mod text;
