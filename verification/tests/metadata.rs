//! The unified metadata model.
use gamut_png::metadata::{
    Metadata, MetadataExtension, XmpMeta, XmpProperty, XmpValue, DCTERMS, PROVENANCE,
};
use gamut_png::provenance::ProvenanceState;

type Model = Metadata<Vec<u8>, Vec<u8>, u32>;

const DUBLIN_CORE: &str = "http://purl.org/dc/elements/1.1/";
const XMP: &str = "http://ns.adobe.com/xap/1.0/";
const URL: &str = "https://example.com/manifests/photo.c2pa";

fn property(namespace: &str, name: &str, value: XmpValue) -> XmpProperty {
    XmpProperty {
        namespace: namespace.to_owned(),
        name: name.to_owned(),
        value,
    }
}

fn xmp_with(namespace: &str, name: &str, value: &str) -> XmpMeta {
    let mut xmp = XmpMeta::new();
    xmp.properties
        .push(property(namespace, name, XmpValue::Text(value.to_owned())));
    xmp
}

fn model(xmp: Option<XmpMeta>, c2pa: Option<Vec<u8>>) -> Model {
    let mut meta = Model::from_carriers(None, xmp, None);
    meta.c2pa = c2pa;
    meta
}

fn store() -> Option<Vec<u8>> {
    Some(vec![0x00, 0x00, 0x00, 0x14])
}

#[test]
fn is_empty_tracks_field_presence() {
    assert!(Model::default().is_empty());
    assert!(!model(Some(XmpMeta::new()), None).is_empty());
    // A manifest store alone is metadata too, even though it never embeds.
    assert!(!model(None, store()).is_empty());
    let mut extended = Model::default();
    extended.set_extension("ns".to_owned(), "key".to_owned(), 1);
    assert!(!extended.is_empty());
    assert!(!Model::from_carriers(Some(vec![1]), None, None).is_empty());
    assert!(!Model::from_carriers(None, None, Some(vec![1])).is_empty());
}

#[test]
fn provenance_treats_an_empty_dcterms_value_as_no_url() {
    let empty = Some(xmp_with(DCTERMS, PROVENANCE, ""));
    assert_eq!(model(empty.clone(), None).provenance(), ProvenanceState::Absent);
    assert_eq!(model(empty, store()).provenance(), ProvenanceState::Embedded);
}

#[test]
fn provenance_trims_the_url_and_treats_whitespace_only_as_no_url() {
    let blank = Some(xmp_with(DCTERMS, PROVENANCE, " \n\t "));
    assert_eq!(model(blank.clone(), None).provenance(), ProvenanceState::Absent);
    assert_eq!(model(blank, store()).provenance(), ProvenanceState::Embedded);

    let padded = Some(xmp_with(
        DCTERMS,
        PROVENANCE,
        "\n  https://example.com/m.c2pa  \n",
    ));
    assert_eq!(
        model(padded, None).provenance(),
        ProvenanceState::Remote("https://example.com/m.c2pa".to_owned())
    );
}

#[test]
fn white_space_is_what_unicode_says_it_is() {
    let padded = xmp_with(DCTERMS, PROVENANCE, "\u{3000}\u{85}u r l\u{A0}\u{2029}");
    assert_eq!(
        model(Some(padded), None).provenance(),
        ProvenanceState::Remote("u r l".to_owned())
    );
    // A zero-width space is none.
    let kept = xmp_with(DCTERMS, PROVENANCE, "\u{200B}");
    assert_eq!(
        model(Some(kept), None).provenance(),
        ProvenanceState::Remote("\u{200B}".to_owned())
    );
}

#[test]
fn provenance_reads_only_the_dcterms_namespace() {
    let dc = xmp_with(DUBLIN_CORE, PROVENANCE, "https://example.com/m.c2pa");
    assert_eq!(model(Some(dc), None).provenance(), ProvenanceState::Absent);

    let dcterms = xmp_with(DCTERMS, PROVENANCE, "https://example.com/m.c2pa");
    assert_eq!(
        model(Some(dcterms), None).provenance(),
        ProvenanceState::Remote("https://example.com/m.c2pa".to_owned())
    );
}

#[test]
fn the_first_property_wins_and_a_structured_one_is_ignored() {
    let mut twice = xmp_with(DCTERMS, PROVENANCE, "first");
    twice
        .properties
        .push(property(DCTERMS, PROVENANCE, XmpValue::Text("second".to_owned())));
    assert_eq!(twice.get_text(DCTERMS, PROVENANCE), Some("first"));

    let mut structured = XmpMeta::new();
    structured
        .properties
        .push(property(DCTERMS, PROVENANCE, XmpValue::Structured));
    assert_eq!(model(Some(structured), None).provenance(), ProvenanceState::Absent);
}

#[test]
fn from_carriers_leaves_the_manifest_store_empty() {
    let meta = Model::from_carriers(None, Some(XmpMeta::new()), None);
    assert_eq!(meta.c2pa, None);
}

#[test]
fn no_store_and_no_url_is_none() {
    let xmp = xmp_with(XMP, "CreatorTool", "gamut");
    assert_eq!(model(Some(xmp), None).provenance(), ProvenanceState::Absent);
    assert_eq!(Model::default().provenance(), ProvenanceState::Absent);
}

#[test]
fn url_without_a_store_is_remote() {
    let xmp = xmp_with(DCTERMS, PROVENANCE, URL);
    assert_eq!(
        model(Some(xmp), None).provenance(),
        ProvenanceState::Remote(URL.to_owned())
    );
}

#[test]
fn store_without_a_url_is_embedded() {
    let xmp = xmp_with(XMP, "CreatorTool", "gamut");
    assert_eq!(model(Some(xmp), store()).provenance(), ProvenanceState::Embedded);
}

#[test]
fn store_and_url_is_embedded_and_remote() {
    let xmp = xmp_with(DCTERMS, PROVENANCE, URL);
    assert_eq!(
        model(Some(xmp), store()).provenance(),
        ProvenanceState::EmbeddedAndRemote(URL.to_owned())
    );
}

#[test]
fn an_extension_is_bound_once_and_found_again() {
    let mut meta = Model::default();
    let (ns, white, black) = ("com.example.raw", "WhiteLevel", "BlackLevel");
    assert_eq!(meta.extension(ns, white), None);
    meta.set_extension(ns.to_owned(), white.to_owned(), 16_383);
    meta.set_extension(ns.to_owned(), black.to_owned(), 64);
    meta.set_extension("other".to_owned(), white.to_owned(), 1);
    meta.set_extension(ns.to_owned(), white.to_owned(), 4095);
    assert_eq!(meta.extension(ns, white), Some(&4095));
    assert_eq!(meta.extension(ns, black), Some(&64));
    assert_eq!(meta.extension("other", white), Some(&1));
    assert_eq!(meta.extensions.len(), 3);

    let keys: Vec<&str> = meta
        .extensions_in(ns)
        .iter()
        .map(|e: &&MetadataExtension<u32>| e.key.as_str())
        .collect();
    assert_eq!(keys, [white, black]);

    assert_eq!(meta.remove_extension(ns, white), Some(4095));
    assert_eq!(meta.remove_extension(ns, white), None);
    assert_eq!(meta.extension(ns, white), None);
    assert_eq!(meta.extensions.len(), 2);
}
