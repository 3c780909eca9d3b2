//! Where an image's C2PA provenance lives: embedded in the file, at a remote URL, both, or nowhere.
//!
//! The two sources are independent bytes in the file, so a file may carry both, and the report names
//! both rather than letting one hide the other. The URL is never fetched.
use vstd::prelude::*;

verus! {

/// Where the C2PA manifest store that vouches for an image lives, as far as the image's own metadata
/// says.
#[derive(Debug, Clone, PartialEq, Eq, Hash)]
#[non_exhaustive]
pub enum ProvenanceState {
    /// No embedded manifest store and no `dcterms:provenance` URL.
    Absent,
    /// No embedded store; the XMP points at an external manifest at this URL.
    Remote(String),
    /// A manifest store is embedded in the file and the XMP carries no URL.
    Embedded,
    /// Both: a manifest store is embedded and the XMP carries a URL.
    EmbeddedAndRemote(String),
}

impl ProvenanceState {
    /// Whether a manifest store is embedded.
    pub open spec fn spec_is_embedded(&self) -> bool {
        self is Embedded || self is EmbeddedAndRemote
    }

    /// The URL of an external manifest, if there is one.
    pub open spec fn spec_remote_url(&self) -> Option<Seq<char>> {
        match self {
            ProvenanceState::Remote(url) => Some(url@),
            ProvenanceState::EmbeddedAndRemote(url) => Some(url@),
            _ => None,
        }
    }

    /// Whether a manifest store is embedded in the file.
    #[must_use]
    pub fn is_embedded(&self) -> (embedded: bool)
        ensures
            embedded == self.spec_is_embedded(),
    {
        matches!(self, ProvenanceState::Embedded | ProvenanceState::EmbeddedAndRemote(_))
    }

    /// The `dcterms:provenance` URL of an external manifest, if the XMP carried one.
    #[must_use]
    pub fn remote_url(&self) -> (url: Option<&str>)
        ensures
            match url {
                Some(text) => self.spec_remote_url() == Some(text@),
                None => self.spec_remote_url() is None,
            },
    {
        match self {
            ProvenanceState::Remote(url) => Some(url.as_str()),
            ProvenanceState::EmbeddedAndRemote(url) => Some(url.as_str()),
            _ => None,
        }
    }
}

} // verus!
