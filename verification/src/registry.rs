//! The shape of one registry answer.
//!
//! The registry is a remote HTTP service; fetching and decoding its JSON
//! body happen at the application edge.  What resolution needs from an
//! answer is captured here as plain values: the reported version strings,
//! newest first, and the stacks the latest version is compatible with
//! (`None` when the record carries no stack list).

use vstd::prelude::*;

verus! {

/// One registry record, as handed to [`crate::buildpack::Buildpack::validate`].
pub struct RegistryRecord {
    /// The version strings the registry lists, newest first.
    pub versions: Vec<String>,
    /// The compatible stacks of the latest version; `None` when the record
    /// has no stack list at all.
    pub stacks: Option<Vec<String>>,
}

/// The mathematical shadow of [`RegistryRecord`].
pub struct RegistryRecordView {
    pub versions: Seq<Seq<char>>,
    pub stacks: Option<Seq<Seq<char>>>,
}

impl View for RegistryRecord {
    type V = RegistryRecordView;

    open spec fn view(&self) -> RegistryRecordView {
        RegistryRecordView {
            versions: self.versions.deep_view(),
            stacks: self.stacks.deep_view(),
        }
    }
}

impl RegistryRecord {
    /// Builds a record from the two lists the application's registry client
    /// extracts from the JSON body.
    pub fn new(versions: Vec<String>, stacks: Option<Vec<String>>) -> (r: RegistryRecord)
        ensures
            r@.versions == versions.deep_view(),
            r@.stacks == stacks.deep_view(),
    {
        RegistryRecord { versions, stacks }
    }
}

} // verus!
