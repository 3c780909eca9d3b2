//! Where an image's provenance lives.
use gamut_png::provenance::ProvenanceState;

const URL: &str = "https://example.com/m.c2pa";

#[test]
fn is_embedded_is_true_for_exactly_the_embedded_variants() {
    assert!(!ProvenanceState::Absent.is_embedded());
    assert!(!ProvenanceState::Remote(URL.into()).is_embedded());
    assert!(ProvenanceState::Embedded.is_embedded());
    assert!(ProvenanceState::EmbeddedAndRemote(URL.into()).is_embedded());
}

#[test]
fn remote_url_is_some_for_exactly_the_remote_variants() {
    assert_eq!(ProvenanceState::Absent.remote_url(), None);
    assert_eq!(ProvenanceState::Remote(URL.into()).remote_url(), Some(URL));
    assert_eq!(ProvenanceState::Embedded.remote_url(), None);
    assert_eq!(
        ProvenanceState::EmbeddedAndRemote(URL.into()).remote_url(),
        Some(URL)
    );
}
