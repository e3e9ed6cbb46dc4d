//! Buildpacks and their resolution against a registry record.
//!
//! A buildpack arrives as a raw reference string that may carry a registry
//! URN prefix and an `@version` suffix.  Resolution normalizes the
//! reference, picks a concrete version from the registry's version list
//! (falling back to the latest when the requested one is absent), and takes
//! over the registry's compatible-stack list.  Fetching the record is the
//! caller's business; every decision made on the record is proved here.

use vstd::prelude::*;

use crate::error::{DsiError, DsiErrorView};
use crate::registry::RegistryRecord;
use crate::text::{find_char, index_of_first, list_contains_str, seq_has_string, starts_with_s,
    str_starts_with};

verus! {

/// The registry URN prefix that a buildpack reference may carry.
pub open spec fn registry_urn() -> Seq<char> {
    "urn:cnb:registry:"@
}

/// `uri` with the registry URN prefix removed, when present.
pub open spec fn strip_urn(uri: Seq<char>) -> Seq<char> {
    if starts_with_s(uri, registry_urn()) {
        uri.skip(registry_urn().len() as int)
    } else {
        uri
    }
}

/// The stable identifier derived from a reference: the URN prefix and the
/// `@version` suffix stripped.  This is both the registry lookup key and
/// the id published in the synthesized configuration.
pub open spec fn resolved_id_of(uri: Seq<char>) -> Seq<char> {
    let stripped = strip_urn(uri);
    match index_of_first(stripped, '@') {
        Some(i) => stripped.take(i),
        None => stripped,
    }
}

/// The version demanded by the reference's `@` suffix, if any.
pub open spec fn uri_version_suffix(uri: Seq<char>) -> Option<Seq<char>> {
    let stripped = strip_urn(uri);
    match index_of_first(stripped, '@') {
        Some(i) => Some(stripped.skip(i + 1)),
        None => None,
    }
}

/// A named unit of build logic: the raw reference, the version it was
/// resolved to, whether its detection group is optional, and the stacks the
/// registry reports it compatible with.  `version` and `compatible_stacks`
/// are filled in by [`Buildpack::validate`].
pub struct Buildpack {
    pub uri: String,
    pub version: Option<String>,
    pub optional: Option<bool>,
    pub compatible_stacks: Option<Vec<String>>,
}

/// The mathematical shadow of [`Buildpack`].
pub struct BuildpackView {
    pub uri: Seq<char>,
    pub version: Option<Seq<char>>,
    pub optional: Option<bool>,
    pub compatible_stacks: Option<Seq<Seq<char>>>,
}

impl View for Buildpack {
    type V = BuildpackView;

    open spec fn view(&self) -> BuildpackView {
        BuildpackView {
            uri: self.uri@,
            version: self.version.deep_view(),
            optional: self.optional,
            compatible_stacks: self.compatible_stacks.deep_view(),
        }
    }
}

impl DeepView for Buildpack {
    type V = BuildpackView;

    open spec fn deep_view(&self) -> BuildpackView {
        self.view()
    }
}

impl Clone for Buildpack {
    fn clone(&self) -> (res: Self)
        ensures
            res@ == self@,
    {
        let version = match &self.version {
            Some(v) => Some(v.clone()),
            None => None,
        };
        let compatible_stacks = match &self.compatible_stacks {
            Some(v) => {
                let c = v.clone();
                proof {
                    assert(c.deep_view() =~= v.deep_view());
                }
                Some(c)
            },
            None => None,
        };
        Buildpack { uri: self.uri.clone(), version, optional: self.optional, compatible_stacks }
    }
}

/// The version that resolution picks: the requested one when the registry
/// lists it, else the first (latest) listed version.
pub open spec fn chosen_version(requested: Option<Seq<char>>, versions: Seq<Seq<char>>) -> Seq<
    char,
>
    recommends
        versions.len() > 0,
{
    match requested {
        Some(v) => if seq_has_string(versions, v) {
            v
        } else {
            versions[0]
        },
        None => versions[0],
    }
}

/// A requested version that the registry does not list is no error: by the
/// contract of [`Buildpack::validate`], resolution then picks
/// `chosen_version`, and this law says that pick is the first — latest —
/// listed version.
pub proof fn lemma_absent_version_falls_back(requested: Seq<char>, versions: Seq<Seq<char>>)
    requires
        versions.len() > 0,
        !seq_has_string(versions, requested),
    ensures
        chosen_version(Some(requested), versions) == versions[0],
{
}

/// The version a buildpack asks for: its `version` field when set, else the
/// `@` suffix of its reference.
pub open spec fn requested_version_of(bp: BuildpackView) -> Option<Seq<char>> {
    match bp.version {
        Some(v) => Some(v),
        None => uri_version_suffix(bp.uri),
    }
}

/// `uri` with the registry URN prefix removed, when present.
fn strip_registry_prefix(uri: &str) -> (r: &str)
    ensures
        r@ == strip_urn(uri@),
{
    proof {
        reveal_strlit("urn:cnb:registry:");
    }
    if str_starts_with(uri, "urn:cnb:registry:") {
        let r = uri.substring_char(17, uri.unicode_len());
        proof {
            assert(r@ =~= strip_urn(uri@));
        }
        r
    } else {
        uri
    }
}

impl Buildpack {
    /// Wraps a raw reference string as an unresolved buildpack.
    pub fn from_uri(uri: &str) -> (r: Result<Buildpack, DsiError>)
        ensures
            (r matches Ok(bp) && bp@ == (BuildpackView {
                uri: uri@,
                version: None,
                optional: None,
                compatible_stacks: None,
            })),
    {
        Ok(
            Buildpack {
                uri: String::from_str(uri),
                version: None,
                optional: None,
                compatible_stacks: None,
            },
        )
    }

    /// The stable identifier derived from the reference: URN prefix and
    /// `@version` suffix stripped.
    pub fn id(&self) -> (r: String)
        ensures
            r@ == resolved_id_of(self@.uri),
    {
        let stripped = strip_registry_prefix(self.uri.as_str());
        match find_char(stripped, '@') {
            Some(i) => {
                proof {
                    crate::text::lemma_index_of_first(stripped@, '@');
                    assert(stripped@.subrange(0, i as int) =~= stripped@.take(i as int));
                }
                String::from_str(stripped.substring_char(0, i))
            },
            None => String::from_str(stripped),
        }
    }

    /// The version this buildpack asks for: the `version` field when set,
    /// else the `@` suffix of the reference.
    pub fn requested_version(&self) -> (r: Option<String>)
        ensures
            r.deep_view() == requested_version_of(self@),
    {
        match &self.version {
            Some(v) => Some(v.clone()),
            None => {
                let stripped = strip_registry_prefix(self.uri.as_str());
                let len = stripped.unicode_len();
                match find_char(stripped, '@') {
                    Some(i) => {
                        proof {
                            crate::text::lemma_index_of_first(stripped@, '@');
                            assert(stripped@.subrange(i + 1, len as int) =~= stripped@.skip(
                                i + 1,
                            ));
                        }
                        Some(String::from_str(stripped.substring_char(i + 1, len)))
                    },
                    None => None,
                }
            },
        }
    }

    /// Resolves this buildpack against the registry record fetched for its
    /// id: picks the concrete version and takes over the compatible-stack
    /// list.
    ///
    /// Fails with `NoVersions` (buildpack untouched) when the record lists
    /// no versions, and with `NoCompatibleStacks` (version already set)
    /// when the record carries no stack list.  A requested version that the
    /// registry does not list is not an error: resolution falls back to the
    /// first listed version.
    pub fn validate(&mut self, record: &RegistryRecord) -> (r: Result<(), DsiError>)
        ensures
            (record@.versions.len() == 0 ==> (r matches Err(e) && e@
                == (DsiErrorView::NoVersions { uri: old(self)@.uri }) && final(self)@ == old(
                self,
            )@)),
            (record@.versions.len() > 0 ==> {
                let v = chosen_version(requested_version_of(old(self)@), record@.versions);
                match record@.stacks {
                    Some(st) => (r matches Ok(u) && final(self)@ == (BuildpackView {
                        version: Some(v),
                        compatible_stacks: Some(st),
                        ..old(self)@
                    })),
                    None => (r matches Err(e) && e@ == (DsiErrorView::NoCompatibleStacks {
                        uri: old(self)@.uri,
                    }) && final(self)@ == (BuildpackView { version: Some(v), ..old(self)@ })),
                }
            }),
    {
        if record.versions.len() == 0 {
            return Err(DsiError::NoVersions { uri: self.uri.clone() });
        }
        let requested = self.requested_version();
        let version = match requested {
            Some(v) => {
                if list_contains_str(&record.versions, v.as_str()) {
                    v
                } else {
                    record.versions[0].clone()
                }
            },
            None => record.versions[0].clone(),
        };
        self.version = Some(version);
        match &record.stacks {
            Some(st) => {
                let stacks = st.clone();
                proof {
                    assert(stacks.deep_view() =~= st.deep_view());
                }
                self.compatible_stacks = Some(stacks);
                Ok(())
            },
            None => Err(DsiError::NoCompatibleStacks { uri: self.uri.clone() }),
        }
    }
}

} // verus!
