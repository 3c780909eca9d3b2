//! The unified metadata model: one field per genuinely distinct serialization a still-image
//! container carries, and a table of extensions for data that no carrier expresses.
use crate::provenance::ProvenanceState;
use crate::text::{chars_of, same_text};
use vstd::prelude::*;
use vstd::string::StrSliceExecFns;

verus! {

/// The value of an XMP property.
#[derive(Debug, Clone, PartialEq, Eq)]
pub enum XmpValue {
    /// A simple value.
    Text(String),
    /// An array or a structure.
    Structured,
}

/// One property of an XMP graph.
#[derive(Debug, Clone, PartialEq, Eq)]
pub struct XmpProperty {
    /// The property's namespace URI.
    pub namespace: String,
    /// The property's local name.
    pub name: String,
    /// The property's value.
    pub value: XmpValue,
}

/// An XMP property graph: its top-level properties, in order.
#[derive(Debug, Clone, PartialEq, Eq)]
pub struct XmpMeta {
    /// The properties.
    pub properties: Vec<XmpProperty>,
}

/// The Dublin Core terms namespace.
pub const DCTERMS: &'static str = "http://purl.org/dc/terms/";

/// The local name of the provenance property.
pub const PROVENANCE: &'static str = "provenance";

/// The place of the first property of a name, or the number of properties where there is none.
pub open spec fn property_at(
    properties: Seq<XmpProperty>,
    namespace: Seq<char>,
    name: Seq<char>,
) -> int
    decreases properties.len(),
{
    if properties.len() == 0 {
        0
    } else if properties[0].namespace@ == namespace && properties[0].name@ == name {
        0
    } else {
        1 + property_at(properties.skip(1), namespace, name)
    }
}

/// The text of the first property of a name, where it is there and simple.
pub open spec fn text_of(
    properties: Seq<XmpProperty>,
    namespace: Seq<char>,
    name: Seq<char>,
) -> Option<Seq<char>> {
    let i = property_at(properties, namespace, name);
    if i < properties.len() {
        match properties[i].value {
            XmpValue::Text(text) => Some(text@),
            XmpValue::Structured => None,
        }
    } else {
        None
    }
}

/// The place of a property is that of the first one with both the namespace and the name, wherever among
/// the others it stands, and the number of properties only where none has both.
pub proof fn property_is_first(
    properties: Seq<XmpProperty>,
    namespace: Seq<char>,
    name: Seq<char>,
)
    ensures
        ({
            let i = property_at(properties, namespace, name);
            &&& 0 <= i <= properties.len()
            &&& i < properties.len() ==> properties[i].namespace@ == namespace
                && properties[i].name@ == name
            &&& forall|j: int|
                0 <= j < i ==> (#[trigger] properties[j]).namespace@ != namespace
                    || properties[j].name@ != name
        }),
    decreases properties.len(),
{
    if properties.len() > 0 && (properties[0].namespace@ != namespace || properties[0].name@
        != name) {
        let rest = properties.skip(1);
        property_is_first(rest, namespace, name);
        let i = property_at(properties, namespace, name);
        assert forall|j: int| 0 <= j < i implies (#[trigger] properties[j]).namespace@ != namespace
            || properties[j].name@ != name by {
            if j > 0 {
                assert(rest[j - 1] == properties[j]);
            }
        }
    }
}

/// A property of another namespace or name, wherever it is put in, changes nothing about what is found.
pub proof fn other_properties_do_not_matter(
    before: Seq<XmpProperty>,
    other: XmpProperty,
    behind: Seq<XmpProperty>,
    namespace: Seq<char>,
    name: Seq<char>,
)
    requires
        other.namespace@ != namespace || other.name@ != name,
    ensures
        text_of(before.push(other) + behind, namespace, name) == text_of(
            before + behind,
            namespace,
            name,
        ),
{
    let less = before + behind;
    let more = before.push(other) + behind;
    let n = before.len() as int;
    property_is_first(less, namespace, name);
    property_is_first(more, namespace, name);
    let i = property_at(less, namespace, name);
    let j = property_at(more, namespace, name);
    assert forall|k: int| 0 <= k < less.len() implies less[k] == more[if k < n {
        k
    } else {
        k + 1
    }] by {}
    assert(more[n] == other);
    if i < less.len() {
        let at = if i < n {
            i
        } else {
            i + 1
        };
        assert(more[at] == less[i]);
        if j < at {
            assert(more[j] == less[if j < n {
                j
            } else {
                j - 1
            }]);
        }
    } else if j < more.len() {
        assert(more[j] == less[if j < n {
            j
        } else {
            j - 1
        }]);
    }
}

/// The first property of a name decides: its text is found where it is simple, and nothing where it is
/// an array or a structure or where there is none.
pub proof fn the_first_property_decides(
    properties: Seq<XmpProperty>,
    namespace: Seq<char>,
    name: Seq<char>,
    i: int,
)
    requires
        0 <= i <= properties.len(),
        forall|j: int|
            0 <= j < i ==> (#[trigger] properties[j]).namespace@ != namespace
                || properties[j].name@ != name,
        i < properties.len() ==> properties[i].namespace@ == namespace && properties[i].name@
            == name,
    ensures
        i == properties.len() ==> text_of(properties, namespace, name) is None,
        i < properties.len() ==> match properties[i].value {
            XmpValue::Text(text) => text_of(properties, namespace, name) == Some(text@),
            XmpValue::Structured => text_of(properties, namespace, name) is None,
        },
{
    property_is_first(properties, namespace, name);
    let p = property_at(properties, namespace, name);
    if p < i {
        assert(properties[p].namespace@ != namespace || properties[p].name@ != name);
    }
    if i < p {
        assert(properties[i].namespace@ != namespace || properties[i].name@ != name);
    }
}

impl XmpMeta {
    /// An empty graph.
    pub fn new() -> (xmp: Self)
        ensures
            xmp.properties@ == Seq::<XmpProperty>::empty(),
    {
        XmpMeta { properties: Vec::new() }
    }

    /// The text of the first property of a name, where it is there and simple.
    pub fn get_text(&self, namespace: &str, name: &str) -> (text: Option<&str>)
        ensures
            match text {
                Some(t) => text_of(self.properties@, namespace@, name@) == Some(t@),
                None => text_of(self.properties@, namespace@, name@) is None,
            },
            text matches Some(t) ==> exists|i: int|
                0 <= i < self.properties@.len() && (#[trigger] self.properties@[i]).namespace@
                    == namespace@ && self.properties@[i].name@ == name@ && (
                self.properties@[i].value matches XmpValue::Text(held) && held@ == t@),
    {
        let ghost all = self.properties@;
        let mut i: usize = 0;
        assert(all.skip(0) =~= all);
        while i < self.properties.len()
            invariant
                i <= self.properties@.len(),
                all == self.properties@,
                property_at(all, namespace@, name@) == i + property_at(
                    all.skip(i as int),
                    namespace@,
                    name@,
                ),
            decreases self.properties@.len() - i,
        {
            let property: &XmpProperty = &self.properties[i];
            assert(all.skip(i as int)[0] == *property);
            assert(all.skip(i as int).skip(1) =~= all.skip(i + 1));
            if same_text(property.namespace.as_str(), namespace) && same_text(
                property.name.as_str(),
                name,
            ) {
                return match &property.value {
                    XmpValue::Text(text) => Some(text.as_str()),
                    XmpValue::Structured => None,
                };
            }
            i += 1;
        }
        None
    }
}

/// Whether a character is white space: the Unicode `White_Space` property.
pub open spec fn is_white(c: char) -> bool {
    let n = c as u32;
    ||| 0x9 <= n <= 0xD
    ||| n == 0x20
    ||| n == 0x85
    ||| n == 0xA0
    ||| n == 0x1680
    ||| 0x2000 <= n <= 0x200A
    ||| n == 0x2028
    ||| n == 0x2029
    ||| n == 0x202F
    ||| n == 0x205F
    ||| n == 0x3000
}

fn white(c: char) -> (white: bool)
    ensures
        white == is_white(c),
{
    let n: u32 = c as u32;
    0x9 <= n && n <= 0xD || n == 0x20 || n == 0x85 || n == 0xA0 || n == 0x1680 || 0x2000 <= n && n
        <= 0x200A || n == 0x2028 || n == 0x2029 || n == 0x202F || n == 0x205F || n == 0x3000
}

/// Text without its leading white space.
pub open spec fn trimmed_start(s: Seq<char>) -> Seq<char>
    decreases s.len(),
{
    if s.len() > 0 && is_white(s[0]) {
        trimmed_start(s.skip(1))
    } else {
        s
    }
}

/// Text without its trailing white space.
pub open spec fn trimmed_end(s: Seq<char>) -> Seq<char>
    decreases s.len(),
{
    if s.len() > 0 && is_white(s.last()) {
        trimmed_end(s.drop_last())
    } else {
        s
    }
}

/// Text without its surrounding white space.
pub open spec fn trimmed(s: Seq<char>) -> Seq<char> {
    trimmed_end(trimmed_start(s))
}

/// White space is the 25 characters of the Unicode `White_Space` property.
pub proof fn white_space_is_that_of_unicode(c: char)
    ensures
        is_white(c) <==> seq![
            9u32, 10, 11, 12, 13, 32, 133, 160, 5760, 8192, 8193, 8194, 8195, 8196, 8197, 8198, 8199,
            8200, 8201, 8202, 8232, 8233, 8239, 8287, 12288,
        ].contains(c as u32),
{
    let n = c as u32;
    let all = seq![
        9u32, 10, 11, 12, 13, 32, 133, 160, 5760, 8192, 8193, 8194, 8195, 8196, 8197, 8198, 8199,
        8200, 8201, 8202, 8232, 8233, 8239, 8287, 12288,
    ];
    if is_white(c) {
        let at = if n <= 13 {
            n - 9
        } else if n == 32 {
            5
        } else if n == 133 {
            6
        } else if n == 160 {
            7
        } else if n == 5760 {
            8
        } else if n <= 8202 {
            n - 8192 + 9
        } else if n == 8232 {
            20
        } else if n == 8233 {
            21
        } else if n == 8239 {
            22
        } else if n == 8287 {
            23
        } else {
            24
        };
        assert(all[at] == n);
    }
}

/// Trimmed text is the stretch of the text from its first character that is not white space to its
/// last one.
pub proof fn trimming_keeps_all_but_the_margins(s: Seq<char>) -> (ends: (int, int))
    ensures
        ({
            let (from, to) = ends;
            &&& 0 <= from <= to <= s.len()
            &&& trimmed(s) == s.subrange(from, to)
            &&& forall|i: int| 0 <= i < s.len() && (i < from || i >= to) ==> is_white(#[trigger] s[i])
            &&& from < to ==> !is_white(s[from]) && !is_white(s[to - 1])
        }),
{
    let from = start_is_trimmed(s);
    let rest = s.skip(from);
    let to = end_is_trimmed(rest);
    assert(rest.take(to) =~= s.subrange(from, from + to));
    assert forall|i: int| 0 <= i < s.len() && (i < from || i >= from + to) implies is_white(
        #[trigger] s[i],
    ) by {
        if i >= from {
            assert(rest[i - from] == s[i]);
        }
    }
    if to > 0 {
        assert(rest[0] == s[from]);
        assert(rest[to - 1] == s[from + to - 1]);
    }
    (from, from + to)
}

proof fn start_is_trimmed(s: Seq<char>) -> (from: int)
    ensures
        0 <= from <= s.len(),
        trimmed_start(s) == s.skip(from),
        forall|i: int| 0 <= i < from ==> is_white(#[trigger] s[i]),
        from < s.len() ==> !is_white(s[from]),
    decreases s.len(),
{
    if s.len() > 0 && is_white(s[0]) {
        let rest = s.skip(1);
        let from = start_is_trimmed(rest);
        assert(rest.skip(from) =~= s.skip(from + 1));
        assert forall|i: int| 0 <= i < from + 1 implies is_white(#[trigger] s[i]) by {
            if i > 0 {
                assert(rest[i - 1] == s[i]);
            }
        }
        from + 1
    } else {
        assert(s.skip(0) =~= s);
        0
    }
}

proof fn end_is_trimmed(s: Seq<char>) -> (to: int)
    ensures
        0 <= to <= s.len(),
        trimmed_end(s) == s.take(to),
        forall|i: int| to <= i < s.len() ==> is_white(#[trigger] s[i]),
        to > 0 ==> !is_white(s[to - 1]),
    decreases s.len(),
{
    if s.len() > 0 && is_white(s.last()) {
        let rest = s.drop_last();
        let to = end_is_trimmed(rest);
        assert(rest.take(to) =~= s.take(to));
        assert forall|i: int| to <= i < s.len() implies is_white(#[trigger] s[i]) by {
            if i < rest.len() {
                assert(rest[i] == s[i]);
            }
        }
        to
    } else {
        assert(s.take(s.len() as int) =~= s);
        s.len() as int
    }
}

/// Removes surrounding white space.
fn trim(text: &str) -> (out: String)
    ensures
        out@ == trimmed(text@),
{
    let chars: Vec<char> = chars_of(text);
    let mut from: usize = 0;
    let mut to: usize = chars.len();
    assert(text@.skip(0) =~= text@);
    while from < to && white(chars[from])
        invariant
            from <= to == chars@.len(),
            chars@ == text@,
            trimmed_start(text@) == trimmed_start(text@.skip(from as int)),
        ensures
            from <= to == chars@.len(),
            trimmed_start(text@) == text@.skip(from as int),
        decreases to - from,
    {
        assert(text@.skip(from as int).skip(1) =~= text@.skip(from + 1));
        from += 1;
    }
    assert(text@.subrange(from as int, to as int) =~= text@.skip(from as int));
    while from < to && white(chars[to - 1])
        invariant
            from <= to <= chars@.len(),
            chars@ == text@,
            trimmed(text@) == trimmed_end(text@.subrange(from as int, to as int)),
        ensures
            from <= to <= chars@.len(),
            trimmed(text@) == text@.subrange(from as int, to as int),
        decreases to,
    {
        let ghost part = text@.subrange(from as int, to as int);
        assert(part.drop_last() =~= text@.subrange(from as int, to - 1));
        to -= 1;
    }
    text.substring_char(from, to).to_owned()
}

/// A metadata payload that a container located, by its carrier.
#[derive(Debug, Clone, Copy, PartialEq, Eq)]
pub enum MetadataBlock<'a> {
    /// An EXIF blob.
    Exif(&'a [u8]),
    /// An XMP packet.
    Xmp(&'a [u8]),
    /// An ICC profile.
    Icc(&'a [u8]),
    /// A legacy binary IPTC-IIM dataset stream.
    IptcIim(&'a [u8]),
    /// A C2PA manifest store.
    C2pa(&'a [u8]),
}

/// [`MetadataBlock`] as values.
pub enum BlockModel {
    Exif(Seq<u8>),
    Xmp(Seq<u8>),
    Icc(Seq<u8>),
    IptcIim(Seq<u8>),
    C2pa(Seq<u8>),
}

impl View for MetadataBlock<'_> {
    type V = BlockModel;

    open spec fn view(&self) -> BlockModel {
        match self {
            MetadataBlock::Exif(bytes) => BlockModel::Exif(bytes@),
            MetadataBlock::Xmp(bytes) => BlockModel::Xmp(bytes@),
            MetadataBlock::Icc(bytes) => BlockModel::Icc(bytes@),
            MetadataBlock::IptcIim(bytes) => BlockModel::IptcIim(bytes@),
            MetadataBlock::C2pa(bytes) => BlockModel::C2pa(bytes@),
        }
    }
}

/// Data that no carrier expresses, in a namespace the caller owns.
#[derive(Debug, Clone, PartialEq, Eq)]
pub struct MetadataExtension<V> {
    /// The namespace.
    pub namespace: String,
    /// The key inside the namespace.
    pub key: String,
    /// The value.
    pub value: V,
}

/// All of an image's metadata, unified across the carriers a container holds. Each field is `Some`
/// only where that carrier was present.
///
/// `E` and `I` are the parsed models of the EXIF stream and of the ICC profile, and `V` that of an
/// extension's value; nothing here looks inside them.
#[derive(Debug, Clone, PartialEq, Eq)]
#[non_exhaustive]
pub struct Metadata<E, I, V> {
    /// EXIF metadata.
    pub exif: Option<E>,
    /// The XMP property graph, which also carries IPTC Photo Metadata.
    pub xmp: Option<XmpMeta>,
    /// The embedded ICC colour profile.
    pub icc: Option<I>,
    /// The C2PA manifest store as located in the file, never parsed.
    pub c2pa: Option<Vec<u8>>,
    /// Data none of the carriers above models. A namespace and key appear at most once where the
    /// table is maintained through [`Metadata::set_extension`].
    pub extensions: Vec<MetadataExtension<V>>,
}

/// Whether an entry is bound to a namespace and key.
pub open spec fn binds<V>(e: MetadataExtension<V>, namespace: Seq<char>, key: Seq<char>) -> bool {
    e.namespace@ == namespace && e.key@ == key
}

/// The place of the first entry of a namespace and key, or the number of entries where there is
/// none.
pub open spec fn binding_at<V>(
    table: Seq<MetadataExtension<V>>,
    namespace: Seq<char>,
    key: Seq<char>,
) -> int
    decreases table.len(),
{
    if table.len() == 0 || binds(table[0], namespace, key) {
        0
    } else {
        1 + binding_at(table.skip(1), namespace, key)
    }
}

/// The place of a binding is that of the first entry bound to it.
pub proof fn binding_is_first<V>(
    table: Seq<MetadataExtension<V>>,
    namespace: Seq<char>,
    key: Seq<char>,
)
    ensures
        ({
            let i = binding_at(table, namespace, key);
            &&& 0 <= i <= table.len()
            &&& i < table.len() ==> binds(table[i], namespace, key)
            &&& forall|j: int| 0 <= j < i ==> !binds(#[trigger] table[j], namespace, key)
        }),
    decreases table.len(),
{
    if table.len() > 0 && !binds(table[0], namespace, key) {
        let rest = table.skip(1);
        binding_is_first(rest, namespace, key);
        assert forall|j: int| 0 <= j < binding_at(table, namespace, key) implies !binds(
            #[trigger] table[j],
            namespace,
            key,
        ) by {
            if j > 0 {
                assert(rest[j - 1] == table[j]);
            }
        }
    }
}

/// The table after a binding is set.
pub open spec fn with_binding<V>(
    table: Seq<MetadataExtension<V>>,
    namespace: String,
    key: String,
    value: V,
) -> Seq<MetadataExtension<V>> {
    let i = binding_at(table, namespace@, key@);
    if i < table.len() {
        table.update(i, MetadataExtension { value, ..table[i] })
    } else {
        table.push(MetadataExtension { namespace, key, value })
    }
}

/// Whether no namespace and key appear twice.
pub open spec fn bound_once<V>(table: Seq<MetadataExtension<V>>) -> bool {
    forall|i: int, j: int|
        0 <= i < j < table.len() ==> !binds(
            #[trigger] table[j],
            (#[trigger] table[i]).namespace@,
            table[i].key@,
        )
}

/// The URL of an external manifest that an XMP graph names, if it does: the trimmed text of
/// `dcterms:provenance`, unless that is empty.
pub open spec fn remote_of(xmp: Option<XmpMeta>) -> Option<Seq<char>> {
    match xmp {
        None => None,
        Some(graph) => match text_of(graph.properties@, DCTERMS@, PROVENANCE@) {
            None => None,
            Some(text) => if trimmed(text).len() == 0 {
                None
            } else {
                Some(trimmed(text))
            },
        },
    }
}

/// An external manifest is named exactly where the first `dcterms:provenance` property is simple and
/// holds more than white space, and its URL is that text without the white space round it. Properties of
/// other names do not matter.
pub proof fn a_remote_manifest_is_the_provenance_property(graph: XmpMeta, i: int)
    requires
        0 <= i <= graph.properties@.len(),
        forall|j: int|
            0 <= j < i ==> (#[trigger] graph.properties@[j]).namespace@
                != "http://purl.org/dc/terms/"@ || graph.properties@[j].name@ != "provenance"@,
        i < graph.properties@.len() ==> graph.properties@[i].namespace@
            == "http://purl.org/dc/terms/"@ && graph.properties@[i].name@ == "provenance"@,
    ensures
        remote_of(None) is None,
        i == graph.properties@.len() ==> remote_of(Some(graph)) is None,
        i < graph.properties@.len() ==> match graph.properties@[i].value {
            XmpValue::Structured => remote_of(Some(graph)) is None,
            XmpValue::Text(text) => match remote_of(Some(graph)) {
                None => forall|k: int| 0 <= k < text@.len() ==> is_white(#[trigger] text@[k]),
                Some(url) => url == trimmed(text@) && url.len() > 0,
            },
        },
{
    the_first_property_decides(graph.properties@, DCTERMS@, PROVENANCE@, i);
    if i < graph.properties@.len() {
        if let XmpValue::Text(text) = graph.properties@[i].value {
            let (from, to) = trimming_keeps_all_but_the_margins(text@);
            assert(trimmed(text@).len() == to - from);
        }
    }
}

impl<E, I, V> Default for Metadata<E, I, V> {
    /// A model that holds nothing.
    fn default() -> (metadata: Self)
        ensures
            metadata.exif is None,
            metadata.xmp is None,
            metadata.icc is None,
            metadata.c2pa is None,
            metadata.extensions@.len() == 0,
    {
        Metadata { exif: None, xmp: None, icc: None, c2pa: None, extensions: Vec::new() }
    }
}

impl<E, I, V> Metadata<E, I, V> {
    /// A model of the three serializable carriers, with no extensions and no manifest store.
    #[must_use]
    pub fn from_carriers(exif: Option<E>, xmp: Option<XmpMeta>, icc: Option<I>) -> (metadata: Self)
        ensures
            metadata.exif == exif,
            metadata.xmp == xmp,
            metadata.icc == icc,
            metadata.c2pa is None,
            metadata.extensions@.len() == 0,
    {
        Metadata { exif, xmp, icc, c2pa: None, extensions: Vec::new() }
    }

    /// Where this image's C2PA provenance lives. Neither source suppresses the other.
    #[must_use]
    pub fn provenance(&self) -> (state: ProvenanceState)
        ensures
            state.spec_is_embedded() == (self.c2pa is Some),
            state.spec_remote_url() == remote_of(self.xmp),
    {
        let mut remote: Option<String> = None;
        if let Some(graph) = &self.xmp {
            if let Some(text) = graph.get_text(DCTERMS, PROVENANCE) {
                let url: String = trim(text);
                if !url.as_str().is_empty() {
                    remote = Some(url);
                }
            }
        }
        match (self.c2pa.is_some(), remote) {
            (false, None) => ProvenanceState::Absent,
            (false, Some(url)) => ProvenanceState::Remote(url),
            (true, None) => ProvenanceState::Embedded,
            (true, Some(url)) => ProvenanceState::EmbeddedAndRemote(url),
        }
    }

    /// Where an entry stands, if there is one.
    fn position(&self, namespace: &str, key: &str) -> (at: Option<usize>)
        ensures
            ({
                let i = binding_at(self.extensions@, namespace@, key@);
                match at {
                    Some(j) => j == i && i < self.extensions@.len(),
                    None => i == self.extensions@.len(),
                }
            }),
    {
        let ghost all = self.extensions@;
        let mut i: usize = 0;
        assert(all.skip(0) =~= all);
        while i < self.extensions.len()
            invariant
                i <= self.extensions@.len(),
                all == self.extensions@,
                binding_at(all, namespace@, key@) == i + binding_at(
                    all.skip(i as int),
                    namespace@,
                    key@,
                ),
            decreases self.extensions@.len() - i,
        {
            let entry: &MetadataExtension<V> = &self.extensions[i];
            assert(all.skip(i as int)[0] == *entry);
            assert(all.skip(i as int).skip(1) =~= all.skip(i + 1));
            if same_text(entry.namespace.as_str(), namespace) && same_text(entry.key.as_str(), key) {
                return Some(i);
            }
            i += 1;
        }
        None
    }

    /// The value bound to `key` in `namespace`, or `None` where there is no such extension.
    #[must_use]
    pub fn extension(&self, namespace: &str, key: &str) -> (value: Option<&V>)
        ensures
            ({
                let i = binding_at(self.extensions@, namespace@, key@);
                match value {
                    Some(v) => i < self.extensions@.len() && *v == self.extensions@[i].value,
                    None => i == self.extensions@.len(),
                }
            }),
    {
        match self.position(namespace, key) {
            Some(i) => Some(&self.extensions[i].value),
            None => None,
        }
    }

    /// Binds `key` in `namespace` to `value`, replacing the existing binding in place if there is one
    /// and appending otherwise.
    pub fn set_extension(&mut self, namespace: String, key: String, value: V)
        ensures
            final(self).extensions@ == with_binding(old(self).extensions@, namespace, key, value),
            final(self).exif == old(self).exif,
            final(self).xmp == old(self).xmp,
            final(self).icc == old(self).icc,
            final(self).c2pa == old(self).c2pa,
    {
        match self.position(namespace.as_str(), key.as_str()) {
            Some(i) => {
                self.extensions[i].value = value;
            },
            None => {
                self.extensions.push(MetadataExtension { namespace, key, value });
            },
        }
    }

    /// Removes the binding for `key` in `namespace`, returning its value if there was one.
    pub fn remove_extension(&mut self, namespace: &str, key: &str) -> (value: Option<V>)
        ensures
            ({
                let table = old(self).extensions@;
                let i = binding_at(table, namespace@, key@);
                if i < table.len() {
                    value == Some(table[i].value) && final(self).extensions@ == table.remove(i)
                } else {
                    value is None && final(self).extensions@ == table
                }
            }),
            final(self).exif == old(self).exif,
            final(self).xmp == old(self).xmp,
            final(self).icc == old(self).icc,
            final(self).c2pa == old(self).c2pa,
    {
        match self.position(namespace, key) {
            Some(i) => {
                let entry: MetadataExtension<V> = self.extensions.remove(i);
                Some(entry.value)
            },
            None => None,
        }
    }

    /// The extensions in `namespace`, in insertion order.
    pub fn extensions_in<'a>(&'a self, namespace: &str) -> (found: Vec<&'a MetadataExtension<V>>)
        ensures
            found@.map_values(|e: &'a MetadataExtension<V>| *e) == self.extensions@.filter(
                |e: MetadataExtension<V>| e.namespace@ == namespace@,
            ),
    {
        let ghost all = self.extensions@;
        let ghost wanted = |e: MetadataExtension<V>| e.namespace@ == namespace@;
        let mut found: Vec<&'a MetadataExtension<V>> = Vec::new();
        let mut i: usize = 0;
        proof {
            reveal(Seq::filter);
            assert(all.subrange(0, 0).filter(wanted) =~= Seq::<MetadataExtension<V>>::empty());
            assert(found@.map_values(|e: &'a MetadataExtension<V>| *e) =~= Seq::<
                MetadataExtension<V>,
            >::empty());
        }
        while i < self.extensions.len()
            invariant
                i <= self.extensions@.len(),
                all == self.extensions@,
                wanted == (|e: MetadataExtension<V>| e.namespace@ == namespace@),
                found@.map_values(|e: &'a MetadataExtension<V>| *e) == all.subrange(
                    0,
                    i as int,
                ).filter(wanted),
            decreases self.extensions@.len() - i,
        {
            let entry: &'a MetadataExtension<V> = &self.extensions[i];
            let ghost before = found@;
            proof {
                reveal(Seq::filter);
                let taken = all.subrange(0, i + 1);
                assert(taken.drop_last() =~= all.subrange(0, i as int));
                assert(taken.last() == *entry);
            }
            if same_text(entry.namespace.as_str(), namespace) {
                found.push(entry);
                assert(found@.map_values(|e: &'a MetadataExtension<V>| *e) =~= before.map_values(
                    |e: &'a MetadataExtension<V>| *e,
                ).push(*entry));
            }
            i += 1;
        }
        assert(all.subrange(0, i as int) =~= all);
        found
    }

    /// Whether the model holds nothing at all: no carrier and no extension.
    #[must_use]
    pub fn is_empty(&self) -> (empty: bool)
        ensures
            empty == (self.exif is None && self.xmp is None && self.icc is None && self.c2pa is None
                && self.extensions@.len() == 0),
    {
        self.exif.is_none() && self.xmp.is_none() && self.icc.is_none() && self.c2pa.is_none()
            && self.extensions.len() == 0
    }
}

/// The first entry bound to a namespace and key is found there.
proof fn first_is_binding<V>(
    table: Seq<MetadataExtension<V>>,
    namespace: Seq<char>,
    key: Seq<char>,
    i: int,
)
    requires
        0 <= i <= table.len(),
        i < table.len() ==> binds(table[i], namespace, key),
        forall|j: int| 0 <= j < i ==> !binds(#[trigger] table[j], namespace, key),
    ensures
        binding_at(table, namespace, key) == i,
{
    binding_is_first(table, namespace, key);
    let b = binding_at(table, namespace, key);
    if b < i {
        assert(!binds(table[b], namespace, key));
    }
    if i < b {
        assert(!binds(table[i], namespace, key));
    }
}

/// What was set is found, and nothing else changes: another binding is found with the value it had,
/// or is still absent.
pub proof fn a_set_binding_is_found<V>(
    table: Seq<MetadataExtension<V>>,
    namespace: String,
    key: String,
    value: V,
    other_namespace: Seq<char>,
    other_key: Seq<char>,
)
    ensures
        ({
            let after = with_binding(table, namespace, key, value);
            let i = binding_at(after, namespace@, key@);
            &&& i < after.len() && after[i].value == value
            &&& (other_namespace != namespace@ || other_key != key@) ==> {
                let was = binding_at(table, other_namespace, other_key);
                let is = binding_at(after, other_namespace, other_key);
                &&& (was < table.len()) == (is < after.len())
                &&& was < table.len() ==> is == was && after[is].value == table[was].value
            }
        }),
{
    let after = with_binding(table, namespace, key, value);
    let i = binding_at(table, namespace@, key@);
    binding_is_first(table, namespace@, key@);
    assert forall|j: int| 0 <= j < i implies !binds(#[trigger] after[j], namespace@, key@) by {
        assert(after[j] == table[j]);
    }
    first_is_binding(after, namespace@, key@, i);
    if other_namespace != namespace@ || other_key != key@ {
        let was = binding_at(table, other_namespace, other_key);
        binding_is_first(table, other_namespace, other_key);
        assert forall|j: int| 0 <= j < was implies !binds(
            #[trigger] after[j],
            other_namespace,
            other_key,
        ) by {
            assert(!binds(table[j], other_namespace, other_key));
        }
        if was < table.len() {
            first_is_binding(after, other_namespace, other_key, was);
        } else {
            assert forall|j: int| 0 <= j < after.len() implies !binds(
                #[trigger] after[j],
                other_namespace,
                other_key,
            ) by {
                if j < table.len() {
                    assert(!binds(table[j], other_namespace, other_key));
                }
            }
            first_is_binding(after, other_namespace, other_key, after.len() as int);
        }
    }
}

/// A namespace and key never appear twice in a table that was kept through
/// [`Metadata::set_extension`].
pub proof fn setting_keeps_bindings_unique<V>(
    table: Seq<MetadataExtension<V>>,
    namespace: String,
    key: String,
    value: V,
)
    requires
        bound_once(table),
    ensures
        bound_once(with_binding(table, namespace, key, value)),
{
    let after = with_binding(table, namespace, key, value);
    binding_is_first(table, namespace@, key@);
    assert forall|i: int, j: int| 0 <= i < j < after.len() implies !binds(
        #[trigger] after[j],
        (#[trigger] after[i]).namespace@,
        after[i].key@,
    ) by {
        if j < table.len() {
            assert(!binds(table[j], table[i].namespace@, table[i].key@));
        } else {
            assert(!binds(table[i], namespace@, key@));
        }
    }
}

/// What was removed is gone, where it was there once.
pub proof fn a_removed_binding_is_gone<V>(
    table: Seq<MetadataExtension<V>>,
    namespace: Seq<char>,
    key: Seq<char>,
)
    requires
        bound_once(table),
        binding_at(table, namespace, key) < table.len(),
    ensures
        ({
            let after = table.remove(binding_at(table, namespace, key));
            binding_at(after, namespace, key) == after.len() && bound_once(after)
        }),
{
    let b = binding_at(table, namespace, key);
    let after = table.remove(b);
    binding_is_first(table, namespace, key);
    assert forall|j: int| 0 <= j < after.len() implies !binds(
        #[trigger] after[j],
        namespace,
        key,
    ) by {
        if j < b {
            assert(after[j] == table[j]);
        } else {
            assert(after[j] == table[j + 1]);
            assert(!binds(table[j + 1], table[b].namespace@, table[b].key@));
        }
    }
    first_is_binding(after, namespace, key, after.len() as int);
    assert forall|i: int, j: int| 0 <= i < j < after.len() implies !binds(
        #[trigger] after[j],
        (#[trigger] after[i]).namespace@,
        after[i].key@,
    ) by {
        let ti = if i < b {
            i
        } else {
            i + 1
        };
        let tj = if j < b {
            j
        } else {
            j + 1
        };
        assert(after[i] == table[ti] && after[j] == table[tj]);
    }
}

/// What each state of provenance says: whether a store is embedded, and the URL of a remote one.
pub proof fn states_of_provenance(url: String)
    ensures
        !ProvenanceState::Absent.spec_is_embedded(),
        ProvenanceState::Absent.spec_remote_url() is None,
        !ProvenanceState::Remote(url).spec_is_embedded(),
        ProvenanceState::Remote(url).spec_remote_url() == Some(url@),
        ProvenanceState::Embedded.spec_is_embedded(),
        ProvenanceState::Embedded.spec_remote_url() is None,
        ProvenanceState::EmbeddedAndRemote(url).spec_is_embedded(),
        ProvenanceState::EmbeddedAndRemote(url).spec_remote_url() == Some(url@),
{
}

} // verus!
