//! The error taxonomy of the resolver pipeline.
//!
//! Every fallible step of the pipeline reports one of these variants:
//! registry transport and shape failures, the two per-buildpack resolution
//! failures, the intersection failure (per-buildpack or global), and the
//! three orchestration failures around persisting and spawning.

use vstd::prelude::*;

verus! {

/// One failure of the resolve / intersect / synthesize / persist / launch
/// pipeline.  A variant that concerns a single buildpack carries that
/// buildpack's reference string.
#[derive(Debug)]
#[allow(inconsistent_fields)]
pub enum DsiError {
    /// The registry could not be reached at all (transport failure).
    RegistryUnreachable { detail: String },
    /// The registry answered, but not with the expected document shape.
    RegistryMalformed { detail: String },
    /// The registry record for this buildpack lists no versions.
    NoVersions { uri: String },
    /// The registry record for this buildpack lists no compatible stacks,
    /// or the buildpack was never resolved before intersection.
    NoCompatibleStacks { uri: String },
    /// Stack intersection came up empty; `uri` names the buildpack whose
    /// stacks emptied the running set, or is `None` for the global check
    /// after all buildpacks were processed.
    NoCommonStack { uri: Option<String> },
    /// The builder configuration document could not be written out.
    ConfigWrite { detail: String },
    /// The external builder-creation tool could not be started.
    ProcessSpawn { detail: String },
    /// Reading the running tool's output failed.
    ProcessIo { detail: String },
}

/// The mathematical shadow of `DsiError`: the same variants over `Seq<char>`.
#[allow(inconsistent_fields)]
pub enum DsiErrorView {
    RegistryUnreachable { detail: Seq<char> },
    RegistryMalformed { detail: Seq<char> },
    NoVersions { uri: Seq<char> },
    NoCompatibleStacks { uri: Seq<char> },
    NoCommonStack { uri: Option<Seq<char>> },
    ConfigWrite { detail: Seq<char> },
    ProcessSpawn { detail: Seq<char> },
    ProcessIo { detail: Seq<char> },
}

impl View for DsiError {
    type V = DsiErrorView;

    open spec fn view(&self) -> DsiErrorView {
        match self {
            DsiError::RegistryUnreachable { detail } => DsiErrorView::RegistryUnreachable {
                detail: detail@,
            },
            DsiError::RegistryMalformed { detail } => DsiErrorView::RegistryMalformed {
                detail: detail@,
            },
            DsiError::NoVersions { uri } => DsiErrorView::NoVersions { uri: uri@ },
            DsiError::NoCompatibleStacks { uri } => DsiErrorView::NoCompatibleStacks { uri: uri@ },
            DsiError::NoCommonStack { uri } => DsiErrorView::NoCommonStack {
                uri: match uri {
                    Some(u) => Some(u@),
                    None => None,
                },
            },
            DsiError::ConfigWrite { detail } => DsiErrorView::ConfigWrite { detail: detail@ },
            DsiError::ProcessSpawn { detail } => DsiErrorView::ProcessSpawn { detail: detail@ },
            DsiError::ProcessIo { detail } => DsiErrorView::ProcessIo { detail: detail@ },
        }
    }
}

impl DeepView for DsiError {
    type V = DsiErrorView;

    open spec fn deep_view(&self) -> DsiErrorView {
        self.view()
    }
}

/// The wording of each variant, as a value, so that contracts can speak of
/// the exact text that `message` returns.
pub open spec fn message_of(e: DsiErrorView) -> Seq<char> {
    match e {
        DsiErrorView::RegistryUnreachable { detail } => "Error fetching buildpack info: "@
            + detail,
        DsiErrorView::RegistryMalformed { detail } => "Error parsing buildpack info: "@ + detail,
        DsiErrorView::NoVersions { uri } => "No versions found for buildpack "@ + uri,
        DsiErrorView::NoCompatibleStacks { uri } => "Buildpack "@ + uri
            + " does not have any compatible stacks"@,
        DsiErrorView::NoCommonStack { uri } => match uri {
            Some(u) => "No common stacks found for buildpack "@ + u,
            None => "No common stacks found"@,
        },
        DsiErrorView::ConfigWrite { detail } => "Error while dumping builder to file: "@ + detail,
        DsiErrorView::ProcessSpawn { detail } => "Error while creating droid: "@ + detail,
        DsiErrorView::ProcessIo { detail } => "Error reading process output: "@ + detail,
    }
}

impl DsiError {
    /// Renders the error as the human-readable line the service reports.
    pub fn message(&self) -> (r: String)
        ensures
            r@ == message_of(self@),
    {
        match self {
            DsiError::RegistryUnreachable { detail } => String::from_str(
                "Error fetching buildpack info: ",
            ).concat(detail.as_str()),
            DsiError::RegistryMalformed { detail } => String::from_str(
                "Error parsing buildpack info: ",
            ).concat(detail.as_str()),
            DsiError::NoVersions { uri } => String::from_str(
                "No versions found for buildpack ",
            ).concat(uri.as_str()),
            DsiError::NoCompatibleStacks { uri } => String::from_str("Buildpack ").concat(
                uri.as_str(),
            ).concat(" does not have any compatible stacks"),
            DsiError::NoCommonStack { uri } => match uri {
                Some(u) => String::from_str("No common stacks found for buildpack ").concat(
                    u.as_str(),
                ),
                None => String::from_str("No common stacks found"),
            },
            DsiError::ConfigWrite { detail } => String::from_str(
                "Error while dumping builder to file: ",
            ).concat(detail.as_str()),
            DsiError::ProcessSpawn { detail } => String::from_str(
                "Error while creating droid: ",
            ).concat(detail.as_str()),
            DsiError::ProcessIo { detail } => String::from_str(
                "Error reading process output: ",
            ).concat(detail.as_str()),
        }
    }
}

} // verus!
