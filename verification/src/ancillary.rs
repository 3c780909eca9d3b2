//! Standard ancillary chunks (PNG §11.3): colour-space, physical, timing and text metadata.
//!
//! These are optional. The encoder accumulates whatever the caller sets and emits the chunks in the
//! order PNG requires (Table 7): colour-space chunks before PLTE, the rest before IDAT. The C2PA
//! manifest store, caBX (C2PA 2.4 §A.3.2), is emitted last of everything before IDAT.
//!
//! Two of them, bKGD and sBIT, have a payload whose shape is the image's colour type, and the
//! encoder does not always write the colour type the caller set them for. Both are therefore
//! emitted for the header actually written — converted across colour types where a lossless
//! conversion exists, omitted otherwise ([`bkgd_for`], [`sbit_for`]).
use crate::bytes::{append, be16_seq, be32_seq, push_be16, push_be32, read_be16};
use crate::chunk::{
    chunk_bytes, write_chunk, BKGD, CABX, CHRM, CICP, EXIF, GAMA, ICCP, ITXT, PHYS, SBIT, SRGB,
    TEXT, TIME, ZTXT,
};
use crate::color::ColorType;
use crate::encoder::MetadataNotice;
use crate::palette::alpha_at;
use crate::text::{chars_of, latin1_bytes, push_char, utf8_bytes, utf8_of, utf8_text};
use crate::zlib::{inflates_to, zlib_compress, zlib_stream, Level};
use vstd::prelude::*;
use vstd::string::StringExecFns;
use vstd::utf8::encode_utf8;

verus! {

/// The rendering intent for an sRGB chunk (PNG §11.3.2.5).
#[derive(Debug, Clone, Copy, PartialEq, Eq, Structural)]
pub enum SrgbIntent {
    /// Perceptual (intent code 0).
    Perceptual,
    /// Relative colorimetric (intent code 1).
    RelativeColorimetric,
    /// Saturation (intent code 2).
    Saturation,
    /// Absolute colorimetric (intent code 3).
    AbsoluteColorimetric,
}

/// The intent an sRGB code names.
pub open spec fn intent_of(code: u8) -> Option<SrgbIntent> {
    if code == 0 {
        Some(SrgbIntent::Perceptual)
    } else if code == 1 {
        Some(SrgbIntent::RelativeColorimetric)
    } else if code == 2 {
        Some(SrgbIntent::Saturation)
    } else if code == 3 {
        Some(SrgbIntent::AbsoluteColorimetric)
    } else {
        None
    }
}

impl SrgbIntent {
    /// The code byte of the intent.
    pub open spec fn spec_code(self) -> u8 {
        match self {
            SrgbIntent::Perceptual => 0,
            SrgbIntent::RelativeColorimetric => 1,
            SrgbIntent::Saturation => 2,
            SrgbIntent::AbsoluteColorimetric => 3,
        }
    }

    /// The code byte of the intent.
    pub fn code(self) -> (code: u8)
        ensures
            code == self.spec_code(),
            intent_of(code) == Some(self),
    {
        match self {
            SrgbIntent::Perceptual => 0,
            SrgbIntent::RelativeColorimetric => 1,
            SrgbIntent::Saturation => 2,
            SrgbIntent::AbsoluteColorimetric => 3,
        }
    }

    /// The intent for an sRGB chunk's code byte, or `None` if the code is not defined.
    pub fn from_code(code: u8) -> (intent: Option<Self>)
        ensures
            intent == intent_of(code),
    {
        match code {
            0 => Some(SrgbIntent::Perceptual),
            1 => Some(SrgbIntent::RelativeColorimetric),
            2 => Some(SrgbIntent::Saturation),
            3 => Some(SrgbIntent::AbsoluteColorimetric),
            _ => None,
        }
    }
}

/// The unit for a pHYs chunk's pixel dimensions.
#[derive(Debug, Clone, Copy, PartialEq, Eq, Structural)]
pub enum PhysicalUnit {
    /// Unit is unknown; the values give only an aspect ratio (unit code 0).
    Unknown,
    /// Pixels per metre (unit code 1).
    Meter,
}

impl PhysicalUnit {
    /// The code byte of the unit.
    pub open spec fn spec_code(self) -> u8 {
        match self {
            PhysicalUnit::Unknown => 0,
            PhysicalUnit::Meter => 1,
        }
    }

    /// The code byte of the unit.
    pub fn code(self) -> (code: u8)
        ensures
            code == self.spec_code(),
    {
        match self {
            PhysicalUnit::Unknown => 0,
            PhysicalUnit::Meter => 1,
        }
    }
}

/// How a text chunk is encoded.
#[derive(Debug, Clone, Copy, PartialEq, Eq, Structural)]
pub enum TextKind {
    /// tEXt: uncompressed Latin-1.
    Latin1,
    /// zTXt: zlib-compressed Latin-1.
    Compressed,
    /// iTXt: uncompressed UTF-8.
    International,
    /// iTXt with the compression flag set: zlib-compressed UTF-8.
    InternationalCompressed,
}

impl TextKind {
    /// The iTXt kind that carries the same compression choice.
    pub open spec fn spec_international(self) -> TextKind {
        match self {
            TextKind::Latin1 | TextKind::International => TextKind::International,
            TextKind::Compressed | TextKind::InternationalCompressed =>
                TextKind::InternationalCompressed,
        }
    }

    /// The iTXt kind that carries the same compression choice.
    pub fn international(self) -> (kind: Self)
        ensures
            kind == self.spec_international(),
    {
        match self {
            TextKind::Latin1 | TextKind::International => TextKind::International,
            TextKind::Compressed | TextKind::InternationalCompressed =>
                TextKind::InternationalCompressed,
        }
    }
}

/// The clause a text annotation breaks.
#[derive(Debug, Clone, Copy, PartialEq, Eq, Structural)]
pub enum TextRule {
    /// A keyword of no or too many bytes.
    KeywordLength,
    /// A keyword outside printable Latin-1.
    KeywordRepertoire,
    /// A keyword with a leading, trailing or doubled space.
    KeywordSpaces,
    /// A null in a text string.
    TextNul,
    /// A language tag that is none.
    LanguageTag,
    /// A null in a translated keyword.
    TranslatedNul,
    /// An XMP packet that is not UTF-8.
    XmpNotUtf8,
}

impl TextRule {
    /// The clause, phrased for the caller.
    pub open spec fn spec_reason(self) -> Seq<char> {
        match self {
            TextRule::KeywordLength => "a keyword is restricted to 1 to 79 bytes (§11.3.3.1)"@,
            TextRule::KeywordRepertoire => "a keyword may hold only code points 0x20-0x7E and 0xA1-0xFF — no null, no control character, not U+00A0 (§11.3.3.1)"@,
            TextRule::KeywordSpaces => "a keyword may not have a leading, trailing or consecutive space (§11.3.3.1)"@,
            TextRule::TextNul => "a text string may not contain a null character (§11.3.3.2, §11.3.3.4)"@,
            TextRule::LanguageTag => "an iTXt language tag may hold only ASCII letters, digits and '-' (§11.3.3.4, BCP 47)"@,
            TextRule::TranslatedNul => "an iTXt translated keyword may not contain a null character (§11.3.3.4)"@,
            TextRule::XmpNotUtf8 => "the XMP packet is not UTF-8, and an iTXt text string must be (§11.3.3.4)"@,
        }
    }

    /// The clause, phrased for the caller.
    pub fn reason(self) -> (reason: &'static str)
        ensures
            reason@ == self.spec_reason(),
    {
        match self {
            TextRule::KeywordLength => "a keyword is restricted to 1 to 79 bytes (§11.3.3.1)",
            TextRule::KeywordRepertoire => "a keyword may hold only code points 0x20-0x7E and 0xA1-0xFF — no null, no control character, not U+00A0 (§11.3.3.1)",
            TextRule::KeywordSpaces => "a keyword may not have a leading, trailing or consecutive space (§11.3.3.1)",
            TextRule::TextNul => "a text string may not contain a null character (§11.3.3.2, §11.3.3.4)",
            TextRule::LanguageTag => "an iTXt language tag may hold only ASCII letters, digits and '-' (§11.3.3.4, BCP 47)",
            TextRule::TranslatedNul => "an iTXt translated keyword may not contain a null character (§11.3.3.4)",
            TextRule::XmpNotUtf8 => "the XMP packet is not UTF-8, and an iTXt text string must be (§11.3.3.4)",
        }
    }
}

/// Whether a character is printable Latin-1 or a space: code points 0x20-7E and 0xA1-FF.
pub open spec fn is_printable_latin1(c: char) -> bool {
    0x20 <= c as u32 <= 0x7E || 0xA1 <= c as u32 <= 0xFF
}

/// Whether a character may appear in a tEXt or zTXt text string.
pub open spec fn in_text_repertoire(c: char) -> bool {
    c as u32 == 0x0A || is_printable_latin1(c)
}

/// Whether a character is a space.
pub open spec fn is_space(c: char) -> bool {
    c as u32 == 0x20
}

/// Whether a text holds a null character.
pub open spec fn has_nul(text: Seq<char>) -> bool {
    exists|i: int| 0 <= i < text.len() && (#[trigger] text[i]) as u32 == 0
}

/// Whether `c` is printable Latin-1 or a space (§11.3.3.1).
pub fn printable_latin1(c: char) -> (printable: bool)
    ensures
        printable == is_printable_latin1(c),
{
    let n: u32 = c as u32;
    (0x20 <= n && n <= 0x7E) || (0xA1 <= n && n <= 0xFF)
}

/// Whether `c` may appear in a tEXt or zTXt text string: printable Latin-1 plus line feed.
pub fn text_repertoire(c: char) -> (allowed: bool)
    ensures
        allowed == in_text_repertoire(c),
{
    c as u32 == 0x0A || printable_latin1(c)
}

/// The Latin-1 byte of `c`: Latin-1 is the first 256 Unicode code points.
pub fn latin1_byte(c: char) -> (byte: Option<u8>)
    ensures
        byte == (if c as u32 <= 0xFF {
            Some((c as u32) as u8)
        } else {
            None
        }),
{
    let n: u32 = c as u32;
    if n <= 0xFF {
        Some(n as u8)
    } else {
        None
    }
}

/// Whether a keyword starts or ends with a space or has two in a row.
pub open spec fn has_stray_space(keyword: Seq<char>) -> bool {
    ||| keyword.len() > 0 && is_space(keyword[0])
    ||| keyword.len() > 0 && is_space(keyword[keyword.len() - 1])
    ||| exists|i: int| 1 <= i < keyword.len() && is_space(#[trigger] keyword[i]) && is_space(keyword[i - 1])
}

/// The clause a keyword breaks, if any (§11.3.3.1).
pub open spec fn keyword_rule(keyword: Seq<char>) -> Option<TextRule> {
    if !(forall|i: int| 0 <= i < keyword.len() ==> is_printable_latin1(#[trigger] keyword[i])) {
        Some(TextRule::KeywordRepertoire)
    } else if keyword.len() == 0 || keyword.len() > 79 {
        Some(TextRule::KeywordLength)
    } else if has_stray_space(keyword) {
        Some(TextRule::KeywordSpaces)
    } else {
        None
    }
}

/// The Latin-1 bytes of a keyword, or the §11.3.3.1 clause it breaks. The repertoire is checked
/// before the length so that the length bound counts stored bytes.
pub fn keyword_bytes(keyword: &str) -> (bytes: Result<Vec<u8>, TextRule>)
    ensures
        match keyword_rule(keyword@) {
            Some(rule) => bytes matches Err(r) && r == rule,
            None => bytes matches Ok(b) && b@ == latin1_bytes(keyword@),
        },
{
    let chars: Vec<char> = chars_of(keyword);
    let mut bytes: Vec<u8> = Vec::new();
    let mut stray: bool = false;
    let mut i: usize = 0;
    while i < chars.len()
        invariant
            i <= chars@.len(),
            chars@ == keyword@,
            bytes@ == latin1_bytes(keyword@.subrange(0, i as int)),
            forall|j: int| 0 <= j < i ==> is_printable_latin1(#[trigger] keyword@[j]),
            stray == (i > 0 && is_space(keyword@[0]) || exists|j: int|
                1 <= j < i && is_space(#[trigger] keyword@[j]) && is_space(keyword@[j - 1])),
        decreases chars@.len() - i,
    {
        let c: char = chars[i];
        let byte: u8 = match latin1_byte(c) {
            Some(byte) => byte,
            None => {
                assert(!is_printable_latin1(keyword@[i as int]));
                return Err(TextRule::KeywordRepertoire);
            },
        };
        if !printable_latin1(c) {
            assert(!is_printable_latin1(keyword@[i as int]));
            return Err(TextRule::KeywordRepertoire);
        }
        if c as u32 == 0x20 && (i == 0 || chars[i - 1] as u32 == 0x20) {
            assert(is_space(keyword@[i as int]));
            stray = true;
        }
        bytes.push(byte);
        i += 1;
        assert(bytes@ =~= latin1_bytes(keyword@.subrange(0, i as int)));
    }
    assert(keyword@.subrange(0, i as int) =~= keyword@);
    if chars.len() == 0 || chars.len() > 79 {
        return Err(TextRule::KeywordLength);
    }
    if stray || chars[chars.len() - 1] as u32 == 0x20 {
        return Err(TextRule::KeywordSpaces);
    }
    Ok(bytes)
}

/// The Latin-1 bytes of a tEXt or zTXt text string, if every character may appear in one.
pub open spec fn text_bytes_of(text: Seq<char>) -> Option<Seq<u8>> {
    if forall|i: int| 0 <= i < text.len() ==> in_text_repertoire(#[trigger] text[i]) {
        Some(latin1_bytes(text))
    } else {
        None
    }
}

/// The Latin-1 bytes of a tEXt or zTXt text string, or `None` when a character is outside
/// [`text_repertoire`] — the signal to promote the annotation to iTXt.
pub fn text_bytes(text: &str) -> (bytes: Option<Vec<u8>>)
    ensures
        bytes is Some <==> text_bytes_of(text@) is Some,
        bytes matches Some(b) ==> text_bytes_of(text@) == Some(b@),
{
    let chars: Vec<char> = chars_of(text);
    let mut bytes: Vec<u8> = Vec::new();
    let mut i: usize = 0;
    while i < chars.len()
        invariant
            i <= chars@.len(),
            chars@ == text@,
            bytes@ == latin1_bytes(text@.subrange(0, i as int)),
            forall|j: int| 0 <= j < i ==> in_text_repertoire(#[trigger] text@[j]),
        decreases chars@.len() - i,
    {
        let c: char = chars[i];
        if !text_repertoire(c) {
            assert(!in_text_repertoire(text@[i as int]));
            return None;
        }
        match latin1_byte(c) {
            Some(byte) => {
                bytes.push(byte);
            },
            None => {
                return None;
            },
        }
        i += 1;
        assert(bytes@ =~= latin1_bytes(text@.subrange(0, i as int)));
    }
    assert(text@.subrange(0, i as int) =~= text@);
    Some(bytes)
}

fn contains_nul(text: &str) -> (found: bool)
    ensures
        found == has_nul(text@),
{
    let chars: Vec<char> = chars_of(text);
    let mut i: usize = 0;
    while i < chars.len()
        invariant
            i <= chars@.len(),
            chars@ == text@,
            forall|j: int| 0 <= j < i ==> (#[trigger] text@[j]) as u32 != 0,
        decreases chars@.len() - i,
    {
        if chars[i] as u32 == 0 {
            assert(text@[i as int] as u32 == 0);
            return true;
        }
        i += 1;
    }
    false
}

/// Whether a byte may appear in a language tag.
pub open spec fn is_tag_byte(b: u8) -> bool {
    0x30 <= b <= 0x39 || 0x41 <= b <= 0x5A || 0x61 <= b <= 0x7A || b == 0x2D
}

/// Whether a text has the shape of a language tag; an empty one leaves the language unspecified.
pub open spec fn is_language_tag(language: Seq<char>) -> bool {
    forall|i: int|
        0 <= i < encode_utf8(language).len() ==> is_tag_byte(#[trigger] encode_utf8(language)[i])
}

/// The clause an iTXt's language tag or translated keyword breaks, if any (§11.3.3.4).
pub open spec fn itxt_rule(language: Seq<char>, translated: Seq<char>) -> Option<TextRule> {
    if !is_language_tag(language) {
        Some(TextRule::LanguageTag)
    } else if has_nul(translated) {
        Some(TextRule::TranslatedNul)
    } else {
        None
    }
}

fn language_tag(language: &str) -> (is: bool)
    ensures
        is == is_language_tag(language@),
{
    let bytes: Vec<u8> = utf8_bytes(language);
    let mut i: usize = 0;
    while i < bytes.len()
        invariant
            i <= bytes@.len(),
            bytes@ == encode_utf8(language@),
            forall|j: int| 0 <= j < i ==> is_tag_byte(#[trigger] bytes@[j]),
        decreases bytes@.len() - i,
    {
        let b: u8 = bytes[i];
        if !((0x30 <= b && b <= 0x39) || (0x41 <= b && b <= 0x5A) || (0x61 <= b && b <= 0x7A) || b
            == 0x2D) {
            assert(!is_tag_byte(encode_utf8(language@)[i as int]));
            return false;
        }
        i += 1;
    }
    true
}

/// The §11.3.3.4 clause an iTXt's language tag or translated keyword breaks, if any.
pub fn itxt_field_fault(language: &str, translated: &str) -> (fault: Option<TextRule>)
    ensures
        fault == itxt_rule(language@, translated@),
{
    if !language_tag(language) {
        Some(TextRule::LanguageTag)
    } else if contains_nul(translated) {
        Some(TextRule::TranslatedNul)
    } else {
        None
    }
}

/// Whether a text is Latin-1.
pub open spec fn is_latin1(text: Seq<char>) -> bool {
    forall|i: int| 0 <= i < text.len() ==> (#[trigger] text[i]) as u32 <= 0xFF
}

/// What is to be said of a keyword that is carried over from a file. One that no chunk can hold is
/// left behind; one that only leaves the recommended repertoire or spacing is written as it
/// arrived.
pub open spec fn keyword_notice(keyword: Seq<char>) -> Option<MetadataNotice> {
    if !is_latin1(keyword) {
        Some(MetadataNotice::TextKeywordNotLatin1)
    } else if keyword.len() == 0 || keyword.len() > 79 {
        Some(MetadataNotice::TextKeywordLength)
    } else if !(forall|i: int|
        0 <= i < keyword.len() ==> is_printable_latin1(#[trigger] keyword[i])) {
        Some(MetadataNotice::TextKeywordRepertoire)
    } else if has_stray_space(keyword) {
        Some(MetadataNotice::TextKeywordSpacing)
    } else {
        None
    }
}

/// The bytes of a keyword that is carried over from a file: none where it is left behind.
pub open spec fn carried_keyword_bytes(keyword: Seq<char>) -> Seq<u8> {
    match keyword_notice(keyword) {
        Some(notice) if !notice.spec_carried() => Seq::empty(),
        _ => latin1_bytes(keyword),
    }
}

/// The Latin-1 bytes of a text, if it has them.
fn latin1_encoded(text: &str) -> (bytes: Option<Vec<u8>>)
    ensures
        bytes is Some <==> is_latin1(text@),
        bytes matches Some(b) ==> b@ == latin1_bytes(text@),
{
    let chars: Vec<char> = chars_of(text);
    let mut bytes: Vec<u8> = Vec::new();
    let mut i: usize = 0;
    while i < chars.len()
        invariant
            i <= chars@.len(),
            chars@ == text@,
            bytes@ == latin1_bytes(text@.subrange(0, i as int)),
            forall|j: int| 0 <= j < i ==> (#[trigger] text@[j]) as u32 <= 0xFF,
        decreases chars@.len() - i,
    {
        match latin1_byte(chars[i]) {
            Some(byte) => {
                bytes.push(byte);
            },
            None => {
                assert(text@[i as int] as u32 > 0xFF);
                return None;
            },
        }
        i += 1;
        assert(bytes@ =~= latin1_bytes(text@.subrange(0, i as int)));
    }
    assert(text@.subrange(0, i as int) =~= text@);
    Some(bytes)
}

/// The bytes of a keyword that is carried over from a file, and what is to be said of it.
fn carried_keyword(keyword: &str) -> (carried: (Vec<u8>, Option<MetadataNotice>))
    ensures
        carried.0@ == carried_keyword_bytes(keyword@),
        carried.1 == keyword_notice(keyword@),
{
    let bytes: Vec<u8> = match latin1_encoded(keyword) {
        Some(bytes) => bytes,
        None => {
            return (Vec::new(), Some(MetadataNotice::TextKeywordNotLatin1));
        },
    };
    if bytes.len() == 0 || bytes.len() > 79 {
        return (Vec::new(), Some(MetadataNotice::TextKeywordLength));
    }
    match keyword_bytes(keyword) {
        Ok(_) => (bytes, None),
        Err(TextRule::KeywordSpaces) => (bytes, Some(MetadataNotice::TextKeywordSpacing)),
        Err(_) => (bytes, Some(MetadataNotice::TextKeywordRepertoire)),
    }
}

/// Why one annotation cannot be written, and which it was.
#[derive(Debug, Clone)]
pub struct TextFault {
    /// The keyword exactly as the caller gave it.
    pub keyword: String,
    /// The clause the annotation breaks.
    pub rule: TextRule,
}

/// One accumulated text annotation, in the byte form its chunk carries.
#[derive(Debug, Clone)]
pub struct TextEntry {
    /// The keyword, Latin-1 (§11.3.3.1). Empty when no chunk can hold the keyword.
    pub keyword: Vec<u8>,
    /// The text: Latin-1 for tEXt and zTXt, UTF-8 for iTXt.
    pub text: Vec<u8>,
    /// The iTXt language tag; empty for the other kinds and for an unspecified language.
    pub language: Vec<u8>,
    /// The iTXt translated keyword (UTF-8); empty for the other kinds.
    pub translated: Vec<u8>,
    /// How the annotation is encoded.
    pub kind: TextKind,
    /// Whether a carry rather than a direct setter added this entry.
    pub carried: bool,
    /// What is to be said of the annotation's payload, if it was carried and something is.
    pub notice: Option<MetadataNotice>,
    /// Whether the annotation was carried without its language tag.
    pub untagged: bool,
    /// Why this annotation must not be written, if it must not.
    pub fault: Option<TextFault>,
}

/// [`TextEntry`] as values.
pub struct EntryModel {
    pub keyword: Seq<u8>,
    pub text: Seq<u8>,
    pub language: Seq<u8>,
    pub translated: Seq<u8>,
    pub kind: TextKind,
    pub carried: bool,
    pub notice: Option<MetadataNotice>,
    pub untagged: bool,
    pub fault: Option<(Seq<char>, TextRule)>,
}

impl View for TextEntry {
    type V = EntryModel;

    open spec fn view(&self) -> EntryModel {
        EntryModel {
            keyword: self.keyword@,
            text: self.text@,
            language: self.language@,
            translated: self.translated@,
            kind: self.kind,
            carried: self.carried,
            notice: self.notice,
            untagged: self.untagged,
            fault: match self.fault {
                Some(f) => Some((f.keyword@, f.rule)),
                None => None,
            },
        }
    }
}

/// The clause a keyword is refused for, if any. A null separates the fields of a chunk, so a keyword
/// that holds one is refused even where it is carried over from a file.
pub open spec fn keyword_fault(keyword: Seq<char>, carried: bool) -> Option<TextRule> {
    if !carried {
        keyword_rule(keyword)
    } else if has_nul(keyword) {
        Some(TextRule::KeywordRepertoire)
    } else {
        None
    }
}

impl EntryModel {
    /// Whether the annotation is written: it is not where it was left behind.
    pub open spec fn is_written(self) -> bool {
        match self.notice {
            Some(notice) => notice.spec_carried(),
            None => true,
        }
    }

    /// What is to be said of the annotation.
    pub open spec fn notices(self) -> Seq<MetadataNotice> {
        (match self.notice {
            Some(notice) => seq![notice],
            None => Seq::empty(),
        }) + (if self.untagged {
            seq![MetadataNotice::ItxtLanguageTag]
        } else {
            Seq::empty()
        })
    }
}

impl TextEntry {
    /// Whether the annotation is written: it is not where it was left behind.
    pub fn is_written(&self) -> (written: bool)
        ensures
            written == self@.is_written(),
    {
        match self.notice {
            Some(notice) => notice.carried(),
            None => true,
        }
    }
}

/// The notices of some annotations, in their order.
pub open spec fn notices_of(entries: Seq<EntryModel>) -> Seq<MetadataNotice>
    decreases entries.len(),
{
    if entries.len() == 0 {
        Seq::empty()
    } else {
        notices_of(entries.drop_last()) + entries.last().notices()
    }
}

/// The annotation that a request makes: the requested chunk where its character set can hold the
/// text, the iTXt of the same compression where it cannot. A direct request that breaks a clause is
/// a fault. An annotation carried over from a file is a fault only where it holds a null; anything
/// else that is wrong with its keyword is a notice.
pub open spec fn entry_for(
    keyword: Seq<char>,
    text: Seq<char>,
    kind: TextKind,
    carried: bool,
) -> EntryModel {
    let latin1 = if kind is Latin1 || kind is Compressed {
        text_bytes_of(text)
    } else {
        None
    };
    EntryModel {
        keyword: if carried {
            carried_keyword_bytes(keyword)
        } else if keyword_rule(keyword) is None {
            latin1_bytes(keyword)
        } else {
            Seq::empty()
        },
        text: match latin1 {
            Some(bytes) => bytes,
            None => encode_utf8(text),
        },
        language: Seq::empty(),
        translated: Seq::empty(),
        kind: if latin1 is Some {
            kind
        } else {
            kind.spec_international()
        },
        carried,
        notice: if carried {
            keyword_notice(keyword)
        } else {
            None
        },
        untagged: false,
        fault: match keyword_fault(keyword, carried) {
            Some(rule) => Some((keyword, rule)),
            None => if has_nul(text) {
                Some((keyword, TextRule::TextNul))
            } else {
                None
            },
        },
    }
}

/// The annotation that a tagged iTXt request makes. A tag of the wrong shape is a fault of a direct
/// request; an annotation carried over from a file is written without it.
pub open spec fn tagged_entry_for(
    keyword: Seq<char>,
    language: Seq<char>,
    translated: Seq<char>,
    text: Seq<char>,
    compressed: bool,
    carried: bool,
) -> EntryModel {
    let kind = if compressed {
        TextKind::InternationalCompressed
    } else {
        TextKind::International
    };
    let entry = entry_for(keyword, text, kind, carried);
    let untagged = carried && !is_language_tag(language);
    let tag = if untagged {
        Seq::empty()
    } else {
        language
    };
    EntryModel {
        language: encode_utf8(tag),
        translated: encode_utf8(translated),
        untagged,
        fault: match entry.fault {
            Some(f) => Some(f),
            None => match itxt_rule(tag, translated) {
                Some(rule) => Some((keyword, rule)),
                None => None,
            },
        },
        ..entry
    }
}

/// The keyword of the iTXt that carries an XMP packet.
pub const XMP_KEYWORD: &'static str = "XML:com.adobe.xmp";

/// The annotation that an XMP packet makes. No chunk can hold a packet that is not UTF-8: it is
/// refused, or left behind where it is carried over from a file.
pub open spec fn xmp_entry_for(packet: Seq<u8>, carried: bool) -> EntryModel {
    match utf8_of(packet) {
        Some(text) => entry_for(XMP_KEYWORD@, text, TextKind::International, carried),
        None => {
            let entry = entry_for(XMP_KEYWORD@, Seq::empty(), TextKind::International, carried);
            if carried {
                EntryModel { notice: Some(MetadataNotice::XmpNotUtf8), ..entry }
            } else {
                EntryModel { fault: Some((XMP_KEYWORD@, TextRule::XmpNotUtf8)), ..entry }
            }
        },
    }
}

/// The annotation that an XMP packet makes in a framing read from a file.
pub open spec fn framed_xmp_entry_for(
    packet: Seq<u8>,
    language: Seq<char>,
    translated: Seq<char>,
    compressed: bool,
    carried: bool,
) -> EntryModel {
    match utf8_of(packet) {
        Some(text) => tagged_entry_for(
            XMP_KEYWORD@,
            language,
            translated,
            text,
            compressed,
            carried,
        ),
        None => xmp_entry_for(packet, carried),
    }
}

/// Why an accumulation cannot be written.
#[derive(Debug, Clone)]
pub struct TextRefusal {
    /// The position of the offending annotation.
    pub index: usize,
    /// Its keyword as the caller gave it.
    pub keyword: String,
    /// The clause it breaks.
    pub rule: TextRule,
}

/// A text between quotes with its special characters escaped, as `{:?}` shows it.
pub uninterp spec fn quoted_text(text: Seq<char>) -> Seq<char>;

/// `format!` with `{:?}` of a string: the string quoted and escaped.
#[verifier::external_body]
fn quoted(text: &str) -> (out: String)
    ensures
        out@ == quoted_text(text@),
{
    format!("{:?}", text)
}

/// The decimal digits of a number.
pub open spec fn decimal_text(n: nat) -> Seq<char>
    decreases n,
{
    let digit = (48 + n % 10) as char;
    if n < 10 {
        seq![digit]
    } else {
        decimal_text(n / 10).push(digit)
    }
}

/// The decimal digits of a number.
fn decimal(n: usize) -> (out: String)
    ensures
        out@ == decimal_text(n as nat),
    decreases n,
{
    let mut out: String = if n < 10 {
        String::new()
    } else {
        decimal(n / 10)
    };
    push_char(&mut out, (48 + (n % 10) as u8) as char);
    assert(out@ =~= decimal_text(n as nat));
    out
}

impl TextRefusal {
    /// The refusal as text: which annotation, its keyword, and the clause.
    pub fn to_text(&self) -> (text: String)
        ensures
            text@ == "text annotation "@ + decimal_text(self.index as nat) + " (keyword "@ + quoted_text(
                self.keyword@,
            ) + "): "@ + self.rule.spec_reason(),
    {
        let mut out: String = String::from_str("text annotation ");
        out.append(decimal(self.index).as_str());
        out.append(" (keyword ");
        out.append(quoted(self.keyword.as_str()).as_str());
        out.append("): ");
        out.append(self.rule.reason());
        out
    }
}

/// Accumulated ancillary metadata to emit alongside the image.
#[derive(Debug, Clone)]
pub struct Ancillary {
    /// gAMA: image gamma times 100000.
    pub gamma: Option<u32>,
    /// cHRM: white, red, green and blue x,y chromaticities times 100000.
    pub chrm: Option<[u32; 8]>,
    /// sRGB: rendering-intent code.
    pub srgb: Option<u8>,
    /// cICP: colour primaries, transfer function, video full-range flag. The matrix coefficients
    /// are zero in every PNG.
    pub cicp: Option<(u8, u8, bool)>,
    /// sBIT: significant bits per channel.
    pub sbit: Option<Vec<u8>>,
    /// bKGD: background colour, in its colour-type-specific bytes.
    pub bkgd: Option<Vec<u8>>,
    /// pHYs: pixels per unit X, Y, unit code.
    pub phys: Option<(u32, u32, u8)>,
    /// tIME: year (two bytes), month, day, hour, minute, second.
    pub time: Option<[u8; 7]>,
    /// iCCP: profile name and raw ICC profile bytes.
    pub iccp: Option<(String, Vec<u8>)>,
    /// eXIf: raw Exif bytes.
    pub exif: Option<Vec<u8>>,
    /// caBX: the C2PA manifest store, or zero bytes reserving its place.
    pub c2pa: Option<Vec<u8>>,
    /// tEXt, zTXt and iTXt entries, in insertion order.
    pub texts: Vec<TextEntry>,
    /// Whether the entries being pushed come from a metadata carry.
    pub carrying: bool,
}

impl Default for Ancillary {
    /// Nothing set.
    fn default() -> (a: Self)
        ensures
            a.is_empty(),
    {
        Ancillary {
            gamma: None,
            chrm: None,
            srgb: None,
            cicp: None,
            sbit: None,
            bkgd: None,
            phys: None,
            time: None,
            iccp: None,
            exif: None,
            c2pa: None,
            texts: Vec::new(),
            carrying: false,
        }
    }
}

/// The texts of an accumulation, as values.
pub open spec fn entries_of(texts: Seq<TextEntry>) -> Seq<EntryModel> {
    texts.map_values(|e: TextEntry| e@)
}

impl Ancillary {
    /// Nothing is set.
    pub open spec fn is_empty(&self) -> bool {
        &&& self.gamma is None
        &&& self.chrm is None
        &&& self.srgb is None
        &&& self.cicp is None
        &&& self.sbit is None
        &&& self.bkgd is None
        &&& self.phys is None
        &&& self.time is None
        &&& self.iccp is None
        &&& self.exif is None
        &&& self.c2pa is None
        &&& self.texts@.len() == 0
        &&& !self.carrying
    }

    /// The annotations, as values.
    pub open spec fn entries(&self) -> Seq<EntryModel> {
        entries_of(self.texts@)
    }

    /// Everything but the annotations is as in `other`.
    pub open spec fn same_but_texts(&self, other: Ancillary) -> bool {
        *self == (Ancillary { texts: self.texts, ..other })
    }

    /// Sets the rendering intent.
    pub fn set_srgb(&mut self, intent: SrgbIntent)
        ensures
            *final(self) == (Ancillary { srgb: Some(intent.spec_code()), ..*old(self) }),
    {
        self.srgb = Some(intent.code());
    }

    /// Sets the physical pixel dimensions.
    pub fn set_physical(&mut self, x: u32, y: u32, unit: PhysicalUnit)
        ensures
            *final(self) == (Ancillary { phys: Some((x, y, unit.spec_code())), ..*old(self) }),
    {
        self.phys = Some((x, y, unit.code()));
    }

    /// Sets the modification time.
    pub fn set_time(&mut self, year: u16, month: u8, day: u8, hour: u8, min: u8, sec: u8)
        ensures
            final(self).time matches Some(t) && t@ == be16_seq(year as int) + seq![
                month,
                day,
                hour,
                min,
                sec,
            ],
            *final(self) == (Ancillary { time: final(self).time, ..*old(self) }),
    {
        let time: [u8; 7] = [
            (year / 256) as u8,
            (year % 256) as u8,
            month,
            day,
            hour,
            min,
            sec,
        ];
        assert(time@ =~= be16_seq(year as int) + seq![month, day, hour, min, sec]);
        self.time = Some(time);
    }

    /// Adds a tEXt annotation.
    pub fn add_text_latin1(&mut self, keyword: &str, text: &str)
        ensures
            final(self).same_but_texts(*old(self)),
            final(self).entries() == old(self).entries().push(
                entry_for(keyword@, text@, TextKind::Latin1, old(self).carrying),
            ),
    {
        self.push_text(keyword, text, TextKind::Latin1);
    }

    /// Adds a zTXt annotation.
    pub fn add_text_compressed(&mut self, keyword: &str, text: &str)
        ensures
            final(self).same_but_texts(*old(self)),
            final(self).entries() == old(self).entries().push(
                entry_for(keyword@, text@, TextKind::Compressed, old(self).carrying),
            ),
    {
        self.push_text(keyword, text, TextKind::Compressed);
    }

    /// Adds an iTXt annotation.
    pub fn add_text_international(&mut self, keyword: &str, text: &str)
        ensures
            final(self).same_but_texts(*old(self)),
            final(self).entries() == old(self).entries().push(
                entry_for(keyword@, text@, TextKind::International, old(self).carrying),
            ),
    {
        self.push_text(keyword, text, TextKind::International);
    }

    /// Adds an iTXt annotation with its language tag, translated keyword and compression flag.
    pub fn add_text_international_tagged(
        &mut self,
        keyword: &str,
        language: &str,
        translated: &str,
        text: &str,
        compressed: bool,
    )
        ensures
            final(self).same_but_texts(*old(self)),
            final(self).entries() == old(self).entries().push(
                tagged_entry_for(
                    keyword@,
                    language@,
                    translated@,
                    text@,
                    compressed,
                    old(self).carrying,
                ),
            ),
    {
        let kind: TextKind = if compressed {
            TextKind::InternationalCompressed
        } else {
            TextKind::International
        };
        let mut entry: TextEntry = self.text_entry(keyword, text, kind);
        let untagged: bool = self.carrying && !language_tag(language);
        let tag: &str = if untagged {
            ""
        } else {
            language
        };
        proof {
            reveal_strlit("");
            assert(untagged ==> tag@ =~= Seq::<char>::empty());
        }
        if entry.fault.is_none() {
            match itxt_field_fault(tag, translated) {
                Some(rule) => {
                    entry.fault = Some(TextFault { keyword: String::from_str(keyword), rule });
                },
                None => {},
            }
        }
        entry.language = utf8_bytes(tag);
        entry.translated = utf8_bytes(translated);
        entry.untagged = untagged;
        let ghost model = entry@;
        self.texts.push(entry);
        assert(self.entries() =~= old(self).entries().push(model));
    }

    /// Adds an XMP packet as an iTXt. A packet that is not UTF-8 has no chunk to go in: it is
    /// recorded as a refusal, or left behind with a notice during a carry.
    pub fn add_xmp(&mut self, packet: &[u8])
        ensures
            final(self).same_but_texts(*old(self)),
            final(self).entries() == old(self).entries().push(
                xmp_entry_for(packet@, old(self).carrying),
            ),
    {
        match utf8_text(packet) {
            Some(text) => {
                self.add_text_international(XMP_KEYWORD, text.as_str());
            },
            None => {
                let mut entry: TextEntry = self.text_entry(
                    XMP_KEYWORD,
                    "",
                    TextKind::International,
                );
                proof {
                    reveal_strlit("");
                    assert(""@ =~= Seq::<char>::empty());
                }
                if self.carrying {
                    entry.notice = Some(MetadataNotice::XmpNotUtf8);
                } else {
                    entry.fault = Some(
                        TextFault {
                            keyword: String::from_str(XMP_KEYWORD),
                            rule: TextRule::XmpNotUtf8,
                        },
                    );
                }
                let ghost model = entry@;
                self.texts.push(entry);
                assert(self.entries() =~= old(self).entries().push(model));
            },
        }
    }

    /// Adds an XMP packet as an iTXt in a framing read from a file: language tag, translated keyword
    /// and compression flag. A packet that is not UTF-8 is treated as in [`Ancillary::add_xmp`].
    pub fn add_xmp_framed(
        &mut self,
        packet: &[u8],
        language: &str,
        translated: &str,
        compressed: bool,
    )
        ensures
            final(self).same_but_texts(*old(self)),
            final(self).entries() == old(self).entries().push(
                framed_xmp_entry_for(
                    packet@,
                    language@,
                    translated@,
                    compressed,
                    old(self).carrying,
                ),
            ),
    {
        match utf8_text(packet) {
            Some(text) => {
                self.add_text_international_tagged(
                    XMP_KEYWORD,
                    language,
                    translated,
                    text.as_str(),
                    compressed,
                );
            },
            None => {
                self.add_xmp(packet);
            },
        }
    }

    /// Starts carrying a read file's metadata, discarding whatever a previous carry contributed.
    pub fn begin_carry(&mut self)
        ensures
            final(self).texts@ == old(self).texts@.filter(|e: TextEntry| !e.carried),
            *final(self) == (Ancillary {
                texts: final(self).texts,
                carrying: true,
                ..*old(self)
            }),
    {
        let ghost all = self.texts@;
        let ghost keep = |e: TextEntry| !e.carried;
        let mut rest: Vec<TextEntry> = Vec::new();
        std::mem::swap(&mut rest, &mut self.texts);
        let mut kept: Vec<TextEntry> = Vec::new();
        let ghost mut done: int = 0;
        assert(all.subrange(0, 0).filter(keep) =~= Seq::<TextEntry>::empty()) by {
            reveal(Seq::filter);
        }
        while rest.len() > 0
            invariant
                0 <= done <= all.len(),
                keep == (|e: TextEntry| !e.carried),
                rest@ == all.subrange(done, all.len() as int),
                kept@ == all.subrange(0, done).filter(keep),
            decreases rest@.len(),
        {
            let entry: TextEntry = rest.remove(0);
            proof {
                reveal(Seq::filter);
                let longer = all.subrange(0, done + 1);
                assert(longer.drop_last() =~= all.subrange(0, done));
                assert(longer.last() == entry);
                assert(rest@ =~= all.subrange(done + 1, all.len() as int));
                done = done + 1;
            }
            if !entry.carried {
                kept.push(entry);
            }
        }
        assert(all.subrange(0, done) =~= all);
        self.texts = kept;
        self.carrying = true;
    }

    /// Ends the carry, so that later direct setters push entries a subsequent carry keeps.
    pub fn end_carry(&mut self)
        ensures
            *final(self) == (Ancillary { carrying: false, ..*old(self) }),
    {
        self.carrying = false;
    }

    /// Adds an annotation of the given kind.
    pub fn push_text(&mut self, keyword: &str, text: &str, kind: TextKind)
        ensures
            final(self).same_but_texts(*old(self)),
            final(self).entries() == old(self).entries().push(
                entry_for(keyword@, text@, kind, old(self).carrying),
            ),
    {
        let entry: TextEntry = self.text_entry(keyword, text, kind);
        let ghost model = entry@;
        self.texts.push(entry);
        assert(self.entries() =~= old(self).entries().push(model));
    }

    /// Builds the entry for one annotation, choosing the chunk that can carry it and recording the
    /// clause it breaks if no chunk can. During a carry only a null is such a breach; the rest is a
    /// notice.
    pub fn text_entry(&self, keyword: &str, text: &str, kind: TextKind) -> (entry: TextEntry)
        ensures
            entry@ == entry_for(keyword@, text@, kind, self.carrying),
    {
        let mut notice: Option<MetadataNotice> = None;
        let mut keyword_fault: Option<TextRule> = None;
        let mut bytes: Vec<u8> = Vec::new();
        if self.carrying {
            let carried: (Vec<u8>, Option<MetadataNotice>) = carried_keyword(keyword);
            bytes = carried.0;
            notice = carried.1;
            if contains_nul(keyword) {
                keyword_fault = Some(TextRule::KeywordRepertoire);
            }
        } else {
            match keyword_bytes(keyword) {
                Ok(written) => {
                    bytes = written;
                },
                Err(rule) => {
                    keyword_fault = Some(rule);
                },
            }
        }
        let rule: Option<TextRule> = match keyword_fault {
            Some(rule) => Some(rule),
            None => if contains_nul(text) {
                Some(TextRule::TextNul)
            } else {
                None
            },
        };
        let latin1: Option<Vec<u8>> = match kind {
            TextKind::Latin1 | TextKind::Compressed => text_bytes(text),
            TextKind::International | TextKind::InternationalCompressed => None,
        };
        let (kind, body): (TextKind, Vec<u8>) = match latin1 {
            Some(body) => (kind, body),
            None => (kind.international(), utf8_bytes(text)),
        };
        let fault: Option<TextFault> = match rule {
            Some(rule) => Some(TextFault { keyword: String::from_str(keyword), rule }),
            None => None,
        };
        TextEntry {
            keyword: bytes,
            text: body,
            language: Vec::new(),
            translated: Vec::new(),
            kind,
            carried: self.carrying,
            notice,
            untagged: false,
            fault,
        }
    }

    /// What is to be said of the annotations, in their order.
    pub fn text_notices(&self) -> (notices: Vec<MetadataNotice>)
        ensures
            notices@ == notices_of(self.entries()),
    {
        let ghost entries = self.entries();
        let mut notices: Vec<MetadataNotice> = Vec::new();
        let mut i: usize = 0;
        assert(entries.subrange(0, 0).len() == 0);
        while i < self.texts.len()
            invariant
                i <= self.texts@.len(),
                entries == self.entries(),
                notices@ == notices_of(entries.subrange(0, i as int)),
            decreases self.texts@.len() - i,
        {
            let entry: &TextEntry = &self.texts[i];
            match entry.notice {
                Some(notice) => {
                    notices.push(notice);
                },
                None => {},
            }
            if entry.untagged {
                notices.push(MetadataNotice::ItxtLanguageTag);
            }
            proof {
                let longer = entries.subrange(0, i + 1);
                assert(longer.drop_last() =~= entries.subrange(0, i as int));
                assert(longer.last() == entry@);
                assert(notices@ =~= notices_of(longer));
            }
            i += 1;
        }
        assert(entries.subrange(0, i as int) =~= entries);
        notices
    }

    /// Whether no annotation carries a fault.
    pub open spec fn is_valid(&self) -> bool {
        forall|i: int| 0 <= i < self.texts@.len() ==> (#[trigger] self.texts@[i]).fault is None
    }

    /// Refuses an accumulation the format forbids, before any byte is emitted: the first
    /// annotation that carries a fault.
    pub fn validate(&self) -> (verdict: Result<(), TextRefusal>)
        ensures
            verdict is Ok <==> self.is_valid(),
            verdict matches Err(r) ==> {
                &&& r.index < self.texts@.len()
                &&& self.entries()[r.index as int].fault == Some((r.keyword@, r.rule))
                &&& forall|i: int|
                    0 <= i < r.index ==> (#[trigger] self.texts@[i]).fault is None
            },
    {
        let mut i: usize = 0;
        while i < self.texts.len()
            invariant
                i <= self.texts@.len(),
                forall|j: int| 0 <= j < i ==> (#[trigger] self.texts@[j]).fault is None,
            decreases self.texts@.len() - i,
        {
            match &self.texts[i].fault {
                Some(fault) => {
                    assert(self.texts@[i as int].fault is Some);
                    return Err(
                        TextRefusal {
                            index: i,
                            keyword: String::from_str(fault.keyword.as_str()),
                            rule: fault.rule,
                        },
                    );
                },
                None => {},
            }
            i += 1;
        }
        Ok(())
    }
}


/// Whose palette an indexed image is written with — which decides what a caller's palette *index*
/// refers to.
#[derive(Debug, Clone, Copy, PartialEq, Eq, Structural)]
pub enum PaletteOrigin {
    /// The caller's own palette: an index the caller set names one of its entries.
    Caller,
    /// A palette the encoder derived from the pixels: an index the caller set names nothing in it.
    Derived,
}

/// The palette an indexed image is written with.
#[derive(Debug, Clone, Copy)]
pub struct WrittenPalette<'a> {
    /// The PLTE payload: RGB triples.
    pub plte: &'a [u8],
    /// The tRNS payload, or `None` when every entry is opaque.
    pub trns: Option<&'a [u8]>,
    /// Whose palette it is.
    pub origin: PaletteOrigin,
}

/// [`WrittenPalette`] as values; no tRNS is an empty one.
pub struct PaletteModel {
    pub plte: Seq<u8>,
    pub trns: Seq<u8>,
    pub origin: PaletteOrigin,
}

impl View for WrittenPalette<'_> {
    type V = PaletteModel;

    open spec fn view(&self) -> PaletteModel {
        PaletteModel {
            plte: self.plte@,
            trns: match self.trns {
                Some(t) => t@,
                None => Seq::empty(),
            },
            origin: self.origin,
        }
    }
}

impl PaletteModel {
    /// The number of entries.
    pub open spec fn spec_len(self) -> nat {
        self.plte.len() / 3
    }

    /// Whether entry `i` has the given colour.
    pub open spec fn holds(self, i: int, rgb: (u8, u8, u8)) -> bool {
        (self.plte[i * 3], self.plte[i * 3 + 1], self.plte[i * 3 + 2]) == rgb
    }

    /// The first entry from `from` that has the colour, opaque where `opaque_only`.
    pub open spec fn first_from(self, rgb: (u8, u8, u8), opaque_only: bool, from: int) -> Option<
        int,
    >
        decreases self.spec_len() - from,
    {
        if from >= self.spec_len() {
            None
        } else if self.holds(from, rgb) && (!opaque_only || alpha_at(self.trns, from) == 255) {
            Some(from)
        } else {
            self.first_from(rgb, opaque_only, from + 1)
        }
    }

    /// The first opaque entry that has the colour, or else the first entry that has it.
    pub open spec fn find(self, rgb: (u8, u8, u8)) -> Option<int> {
        match self.first_from(rgb, true, 0) {
            Some(i) => Some(i),
            None => self.first_from(rgb, false, 0),
        }
    }
}

impl WrittenPalette<'_> {
    /// The number of entries.
    pub fn len(self) -> (len: usize)
        ensures
            len == self@.spec_len(),
    {
        self.plte.len() / 3
    }

    /// Entry `index`'s alpha: its tRNS byte, or 255 past the end of tRNS.
    pub fn alpha(self, index: usize) -> (alpha: u8)
        ensures
            alpha == alpha_at(self@.trns, index as int),
    {
        match self.trns {
            Some(trns) => if index < trns.len() {
                trns[index]
            } else {
                255
            },
            None => 255,
        }
    }

    fn first(self, rgb: [u8; 3], opaque_only: bool) -> (found: Option<usize>)
        ensures
            found is Some <==> self@.first_from((rgb[0], rgb[1], rgb[2]), opaque_only, 0) is Some,
            found matches Some(i) ==> self@.first_from((rgb[0], rgb[1], rgb[2]), opaque_only, 0)
                == Some(i as int) && i < self@.spec_len(),
    {
        let n: usize = self.len();
        let mut i: usize = 0;
        while i < n
            invariant
                n == self@.spec_len(),
                3 * n <= self.plte.len(),
                i <= n,
                self@.first_from((rgb[0], rgb[1], rgb[2]), opaque_only, 0) == self@.first_from(
                    (rgb[0], rgb[1], rgb[2]),
                    opaque_only,
                    i as int,
                ),
            decreases n - i,
        {
            let holds: bool = self.plte[i * 3] == rgb[0] && self.plte[i * 3 + 1] == rgb[1]
                && self.plte[i * 3 + 2] == rgb[2];
            if holds && (!opaque_only || self.alpha(i) == 255) {
                return Some(i);
            }
            i += 1;
        }
        None
    }

    /// The index of the entry holding `rgb`, preferring an opaque one.
    pub fn index_of(self, rgb: [u8; 3]) -> (index: Option<usize>)
        ensures
            index is Some <==> self@.find((rgb[0], rgb[1], rgb[2])) is Some,
            index matches Some(i) ==> self@.find((rgb[0], rgb[1], rgb[2])) == Some(i as int) && i
                < self@.spec_len(),
    {
        match self.first(rgb, true) {
            Some(i) => Some(i),
            None => self.first(rgb, false),
        }
    }
}

/// The header — and, for an indexed image, the palette — the ancillary chunks are written under.
#[derive(Debug, Clone, Copy)]
pub struct WrittenHeader<'a> {
    /// The colour type IHDR declares.
    pub color: ColorType,
    /// The bit depth IHDR declares.
    pub bit_depth: u8,
    /// The palette for [`ColorType::Indexed`]; `None` otherwise.
    pub palette: Option<WrittenPalette<'a>>,
}

/// [`WrittenHeader`] as values.
pub struct WrittenModel {
    pub color: ColorType,
    pub bit_depth: u8,
    pub palette: Option<PaletteModel>,
}

impl View for WrittenHeader<'_> {
    type V = WrittenModel;

    open spec fn view(&self) -> WrittenModel {
        WrittenModel {
            color: self.color,
            bit_depth: self.bit_depth,
            palette: match self.palette {
                Some(p) => Some(p@),
                None => None,
            },
        }
    }
}

impl WrittenHeader<'_> {
    /// A header without a palette — every colour type but [`ColorType::Indexed`].
    pub fn new(color: ColorType, bit_depth: u8) -> (header: WrittenHeader<'static>)
        ensures
            header@ == (WrittenModel { color, bit_depth, palette: None }),
    {
        WrittenHeader { color, bit_depth, palette: None }
    }
}

/// Two to the power of `n`.
pub open spec fn two_to(n: nat) -> int
    decreases n,
{
    if n == 0 {
        1
    } else {
        2 * two_to((n - 1) as nat)
    }
}

proof fn two_to_values()
    ensures
        forall|n: nat| n <= 15 ==> #[trigger] two_to(n) <= 32768,
{
    reveal_with_fuel(two_to, 17);
    assert(two_to(15) == 32768);
    assert forall|n: nat| n <= 15 implies #[trigger] two_to(n) <= 32768 by {
        two_to_grows(n, 15);
    }
}

proof fn two_to_grows(a: nat, b: nat)
    requires
        a <= b,
    ensures
        1 <= two_to(a) <= two_to(b),
    decreases b,
{
    if b > 0 {
        if a < b {
            two_to_grows(a, (b - 1) as nat);
        } else {
            two_to_grows((a - 1) as nat, (b - 1) as nat);
        }
    }
}

/// Whether a sample is in range for a bit depth.
pub open spec fn sample_fits(value: int, bit_depth: u8) -> bool {
    bit_depth >= 16 || value < two_to(bit_depth as nat)
}

/// Whether a 16-bit-framed bKGD sample is in range for the written depth: any value at 16 bits,
/// below `1 << depth` otherwise.
pub fn fits_depth(value: u16, bit_depth: u8) -> (fits: bool)
    ensures
        fits == sample_fits(value as int, bit_depth),
{
    if bit_depth >= 16 {
        return true;
    }
    let mut limit: u32 = 1;
    let mut i: u8 = 0;
    while i < bit_depth
        invariant
            i <= bit_depth < 16,
            limit == two_to(i as nat),
        decreases bit_depth - i,
    {
        proof {
            two_to_values();
        }
        limit = limit * 2;
        i += 1;
    }
    (value as u32) < limit
}

/// The colour a bKGD payload names, as 16-bit samples; one byte names a palette index instead.
pub open spec fn background_samples(bkgd: Seq<u8>) -> Option<(int, int, int)> {
    if bkgd.len() == 2 {
        let g = crate::bytes::be16(bkgd, 0);
        Some((g, g, g))
    } else if bkgd.len() == 6 {
        Some(
            (
                crate::bytes::be16(bkgd, 0),
                crate::bytes::be16(bkgd, 2),
                crate::bytes::be16(bkgd, 4),
            ),
        )
    } else {
        None
    }
}

/// The bKGD payload for the header actually written (§11.3.5.1), or `None` to omit the chunk.
pub open spec fn background_for(bkgd: Seq<u8>, written: WrittenModel) -> Option<Seq<u8>> {
    if bkgd.len() == 1 {
        match written.palette {
            Some(p) => if written.color is Indexed && p.origin is Caller && bkgd[0]
                < p.spec_len() {
                Some(bkgd)
            } else {
                None
            },
            None => None,
        }
    } else {
        match background_samples(bkgd) {
            None => None,
            Some((r, g, b)) => match written.color {
                ColorType::Indexed => if r < 256 && g < 256 && b < 256 && written.palette is Some {
                    match written.palette->0.find((r as u8, g as u8, b as u8)) {
                        Some(i) => if i < 256 {
                            Some(seq![i as u8])
                        } else {
                            None
                        },
                        None => None,
                    }
                } else {
                    None
                },
                ColorType::Grayscale | ColorType::GrayscaleAlpha => if r == g && g == b
                    && sample_fits(r, written.bit_depth) {
                    Some(be16_seq(r))
                } else {
                    None
                },
                ColorType::Truecolor | ColorType::TruecolorAlpha => if sample_fits(
                    r,
                    written.bit_depth,
                ) && sample_fits(g, written.bit_depth) && sample_fits(b, written.bit_depth) {
                    Some(be16_seq(r) + be16_seq(g) + be16_seq(b))
                } else {
                    None
                },
            },
        }
    }
}

/// The bKGD payload for the header actually written (§11.3.5.1), or `None` to omit the chunk.
///
/// The caller's payload names its own colour type by its length — one byte is a palette index, two
/// a grey sample, six an RGB triple, each sample 16-bit big-endian — and is converted where the
/// written header can carry the same colour losslessly.
pub fn bkgd_for(bkgd: &[u8], written: WrittenHeader<'_>) -> (payload: Option<Vec<u8>>)
    ensures
        payload is Some <==> background_for(bkgd@, written@) is Some,
        payload matches Some(p) ==> background_for(bkgd@, written@) == Some(p@),
{
    let n: usize = bkgd.len();
    if n == 1 {
        return match written.palette {
            Some(palette) => if written.color == ColorType::Indexed && palette.origin
                == PaletteOrigin::Caller && (bkgd[0] as usize) < palette.len() {
                let mut out: Vec<u8> = Vec::new();
                out.push(bkgd[0]);
                assert(out@ =~= bkgd@);
                Some(out)
            } else {
                None
            },
            None => None,
        };
    }
    let (r, g, b): (u16, u16, u16) = if n == 2 {
        let grey: u16 = read_be16(bkgd, 0);
        (grey, grey, grey)
    } else if n == 6 {
        (read_be16(bkgd, 0), read_be16(bkgd, 2), read_be16(bkgd, 4))
    } else {
        return None;
    };
    let mut out: Vec<u8> = Vec::new();
    match written.color {
        ColorType::Indexed => {
            if r >= 256 || g >= 256 || b >= 256 {
                return None;
            }
            let rgb: [u8; 3] = [r as u8, g as u8, b as u8];
            match written.palette {
                Some(palette) => match palette.index_of(rgb) {
                    Some(index) => {
                        if index >= 256 {
                            return None;
                        }
                        out.push(index as u8);
                        assert(out@ =~= seq![index as u8]);
                        Some(out)
                    },
                    None => None,
                },
                None => None,
            }
        },
        ColorType::Grayscale | ColorType::GrayscaleAlpha => {
            if r == g && g == b && fits_depth(r, written.bit_depth) {
                push_be16(&mut out, r);
                assert(out@ =~= be16_seq(r as int));
                Some(out)
            } else {
                None
            }
        },
        ColorType::Truecolor | ColorType::TruecolorAlpha => {
            if fits_depth(r, written.bit_depth) && fits_depth(g, written.bit_depth) && fits_depth(
                b,
                written.bit_depth,
            ) {
                push_be16(&mut out, r);
                push_be16(&mut out, g);
                push_be16(&mut out, b);
                assert(out@ =~= be16_seq(r as int) + be16_seq(g as int) + be16_seq(b as int));
                Some(out)
            } else {
                None
            }
        },
    }
}

/// Whether a reader honours a bKGD payload: its length is that of the colour type, an index lies
/// inside the palette, and a sample inside the depth.
pub open spec fn background_is_readable(payload: Seq<u8>, written: WrittenModel) -> bool {
    match written.color {
        ColorType::Indexed => payload.len() == 1 && written.palette is Some && payload[0]
            < written.palette->0.spec_len(),
        ColorType::Grayscale | ColorType::GrayscaleAlpha => payload.len() == 2 && sample_fits(
            crate::bytes::be16(payload, 0),
            written.bit_depth,
        ),
        ColorType::Truecolor | ColorType::TruecolorAlpha => payload.len() == 6 && sample_fits(
            crate::bytes::be16(payload, 0),
            written.bit_depth,
        ) && sample_fits(crate::bytes::be16(payload, 2), written.bit_depth) && sample_fits(
            crate::bytes::be16(payload, 4),
            written.bit_depth,
        ),
    }
}

proof fn first_from_is_inside(p: PaletteModel, rgb: (u8, u8, u8), opaque_only: bool, from: int)
    requires
        0 <= from,
    ensures
        p.first_from(rgb, opaque_only, from) matches Some(i) ==> from <= i < p.spec_len()
            && p.holds(i, rgb) && (opaque_only ==> alpha_at(p.trns, i) == 255),
    decreases p.spec_len() - from,
{
    if from < p.spec_len() {
        first_from_is_inside(p, rgb, opaque_only, from + 1);
    }
}

/// A background is converted or omitted, never written for a reader to reject.
pub proof fn written_background_is_readable(bkgd: Seq<u8>, written: WrittenModel)
    ensures
        background_for(bkgd, written) matches Some(p) ==> background_is_readable(p, written),
{
    match background_samples(bkgd) {
        Some((r, g, b)) => {
            crate::bytes::be16_round_trip(r as u16);
            crate::bytes::be16_round_trip(g as u16);
            crate::bytes::be16_round_trip(b as u16);
            let out = be16_seq(r) + be16_seq(g) + be16_seq(b);
            assert(out[0] == be16_seq(r)[0] && out[1] == be16_seq(r)[1]);
            assert(out[2] == be16_seq(g)[0] && out[3] == be16_seq(g)[1]);
            assert(out[4] == be16_seq(b)[0] && out[5] == be16_seq(b)[1]);
            if written.palette is Some {
                let p = written.palette->0;
                first_from_is_inside(p, (r as u8, g as u8, b as u8), true, 0);
                first_from_is_inside(p, (r as u8, g as u8, b as u8), false, 0);
            }
        },
        None => {},
    }
}

/// The channels an sBIT payload describes: colours and, possibly, alpha.
pub open spec fn significant_channels(sbit: Seq<u8>) -> Option<((u8, u8, u8), Option<u8>)> {
    if sbit.len() == 1 {
        Some(((sbit[0], sbit[0], sbit[0]), None))
    } else if sbit.len() == 2 {
        Some(((sbit[0], sbit[0], sbit[0]), Some(sbit[1])))
    } else if sbit.len() == 3 {
        Some(((sbit[0], sbit[1], sbit[2]), None))
    } else if sbit.len() == 4 {
        Some(((sbit[0], sbit[1], sbit[2]), Some(sbit[3])))
    } else {
        None
    }
}

/// The sBIT entries of the channels the written image has, where they are described.
pub open spec fn significant_entries(sbit: Seq<u8>, color: ColorType) -> Option<Seq<u8>> {
    match significant_channels(sbit) {
        None => None,
        Some((rgb, alpha)) => {
            let grey = rgb.0 == rgb.1 && rgb.1 == rgb.2;
            match color {
                ColorType::Grayscale => if grey {
                    Some(seq![rgb.0])
                } else {
                    None
                },
                ColorType::GrayscaleAlpha => match alpha {
                    Some(a) => if grey {
                        Some(seq![rgb.0, a])
                    } else {
                        None
                    },
                    None => None,
                },
                ColorType::Truecolor | ColorType::Indexed => Some(seq![rgb.0, rgb.1, rgb.2]),
                ColorType::TruecolorAlpha => match alpha {
                    Some(a) => Some(seq![rgb.0, rgb.1, rgb.2, a]),
                    None => None,
                },
            }
        },
    }
}

/// The depth an sBIT entry counts against: a palette's entries are 8-bit whatever the index depth.
pub open spec fn significant_limit(color: ColorType, bit_depth: u8) -> u8 {
    if color is Indexed {
        8
    } else {
        bit_depth
    }
}

/// Whether every entry is from 1 to `limit`.
pub open spec fn counts_in_range(entries: Seq<u8>, limit: u8) -> bool {
    forall|i: int| 0 <= i < entries.len() ==> 1 <= #[trigger] entries[i] <= limit
}

/// The sBIT payload for the header actually written (§11.3.3.4), or `None` to omit the chunk.
pub open spec fn significant_for(sbit: Seq<u8>, color: ColorType, bit_depth: u8) -> Option<
    Seq<u8>,
> {
    match significant_entries(sbit, color) {
        Some(entries) => if counts_in_range(entries, significant_limit(color, bit_depth)) {
            Some(entries)
        } else {
            None
        },
        None => None,
    }
}

/// The sBIT payload for the header actually written (§11.3.3.4), or `None` to omit the chunk.
///
/// The caller's payload names its own colour type by its length — one entry for grey, two for
/// grey and alpha, three for RGB and for a palette, four for RGBA — and is converted where every
/// channel the written image has is described. Every entry must then be 1 to the written depth.
pub fn sbit_for(sbit: &[u8], color: ColorType, bit_depth: u8) -> (payload: Option<Vec<u8>>)
    ensures
        payload is Some <==> significant_for(sbit@, color, bit_depth) is Some,
        payload matches Some(p) ==> significant_for(sbit@, color, bit_depth) == Some(p@),
{
    let n: usize = sbit.len();
    let (r, g, b, alpha): (u8, u8, u8, Option<u8>) = match n {
        1 => (sbit[0], sbit[0], sbit[0], None),
        2 => (sbit[0], sbit[0], sbit[0], Some(sbit[1])),
        3 => (sbit[0], sbit[1], sbit[2], None),
        4 => (sbit[0], sbit[1], sbit[2], Some(sbit[3])),
        _ => {
            return None;
        },
    };
    let grey: bool = r == g && g == b;
    let mut entries: Vec<u8> = Vec::new();
    match color {
        ColorType::Grayscale => {
            if !grey {
                return None;
            }
            entries.push(r);
        },
        ColorType::GrayscaleAlpha => match alpha {
            Some(a) => {
                if !grey {
                    return None;
                }
                entries.push(r);
                entries.push(a);
            },
            None => {
                return None;
            },
        },
        ColorType::Truecolor | ColorType::Indexed => {
            entries.push(r);
            entries.push(g);
            entries.push(b);
        },
        ColorType::TruecolorAlpha => match alpha {
            Some(a) => {
                entries.push(r);
                entries.push(g);
                entries.push(b);
                entries.push(a);
            },
            None => {
                return None;
            },
        },
    }
    assert(entries@ =~= significant_entries(sbit@, color)->0);
    let max_bits: u8 = if color == ColorType::Indexed {
        8
    } else {
        bit_depth
    };
    let mut i: usize = 0;
    while i < entries.len()
        invariant
            i <= entries@.len(),
            max_bits == significant_limit(color, bit_depth),
            significant_entries(sbit@, color) == Some(entries@),
            forall|j: int| 0 <= j < i ==> 1 <= #[trigger] entries@[j] <= max_bits,
        decreases entries@.len() - i,
    {
        if entries[i] < 1 || entries[i] > max_bits {
            assert(!(1 <= entries@[i as int] <= max_bits));
            return None;
        }
        i += 1;
    }
    Some(entries)
}

/// How many sBIT entries a colour type has.
pub open spec fn significant_count(color: ColorType) -> int {
    match color {
        ColorType::Grayscale => 1,
        ColorType::GrayscaleAlpha => 2,
        ColorType::Truecolor | ColorType::Indexed => 3,
        ColorType::TruecolorAlpha => 4,
    }
}

/// Significant bits are converted or omitted, never written for a reader to reject: the payload
/// has one entry per channel, each from 1 to the depth.
pub proof fn written_significant_bits_are_readable(sbit: Seq<u8>, color: ColorType, bit_depth: u8)
    ensures
        significant_for(sbit, color, bit_depth) matches Some(p) ==> p.len() == significant_count(
            color,
        ) && counts_in_range(p, significant_limit(color, bit_depth)),
{
}

/// The compression level of compressed ancillary payloads.
pub open spec fn ancillary_strength(effort: u8) -> u8 {
    Level::Best.spec_strength(effort)
}

/// The bytes of the chunk that carries an annotation.
pub open spec fn text_chunk(entry: EntryModel, effort: u8) -> Seq<u8> {
    let head = entry.keyword + seq![0u8];
    let deflated = zlib_stream(entry.text, ancillary_strength(effort));
    match entry.kind {
        TextKind::Latin1 => chunk_bytes(TEXT@, head + entry.text),
        TextKind::Compressed => chunk_bytes(ZTXT@, head + seq![0u8] + deflated),
        TextKind::International => chunk_bytes(
            ITXT@,
            head + seq![0u8, 0u8] + entry.language + seq![0u8] + entry.translated + seq![0u8]
                + entry.text,
        ),
        TextKind::InternationalCompressed => chunk_bytes(
            ITXT@,
            head + seq![1u8, 0u8] + entry.language + seq![0u8] + entry.translated + seq![0u8]
                + deflated,
        ),
    }
}

/// Whether the text of an annotation is compressed.
pub open spec fn is_compressed(kind: TextKind) -> bool {
    kind is Compressed || kind is InternationalCompressed
}

/// Whether an annotation that is compressed inflates back to its text.
pub open spec fn entry_inflates(entry: EntryModel, effort: u8) -> bool {
    is_compressed(entry.kind) ==> inflates_to(
        zlib_stream(entry.text, ancillary_strength(effort)),
        entry.text,
    )
}

/// Serialises one annotation. Its text is already in the chunk's character set, so this only frames
/// the bytes.
pub fn write_text(out: &mut Vec<u8>, entry: &TextEntry, effort: u8)
    ensures
        final(out)@ == old(out)@ + text_chunk(entry@, effort),
        entry_inflates(entry@, effort),
{
    let mut data: Vec<u8> = Vec::new();
    append(&mut data, entry.keyword.as_slice());
    data.push(0);
    let ghost head = entry.keyword@ + seq![0u8];
    assert(data@ =~= head);
    match entry.kind {
        TextKind::Latin1 => {
            append(&mut data, entry.text.as_slice());
            write_chunk(out, TEXT, data.as_slice());
        },
        TextKind::Compressed => {
            data.push(0);
            let body: Vec<u8> = zlib_compress(entry.text.as_slice(), Level::Best.strength(effort));
            append(&mut data, body.as_slice());
            assert(data@ =~= head + seq![0u8] + body@);
            write_chunk(out, ZTXT, data.as_slice());
        },
        TextKind::International => {
            data.push(0);
            data.push(0);
            append(&mut data, entry.language.as_slice());
            data.push(0);
            append(&mut data, entry.translated.as_slice());
            data.push(0);
            append(&mut data, entry.text.as_slice());
            assert(data@ =~= head + seq![0u8, 0u8] + entry.language@ + seq![0u8]
                + entry.translated@ + seq![0u8] + entry.text@);
            write_chunk(out, ITXT, data.as_slice());
        },
        TextKind::InternationalCompressed => {
            data.push(1);
            data.push(0);
            append(&mut data, entry.language.as_slice());
            data.push(0);
            append(&mut data, entry.translated.as_slice());
            data.push(0);
            let body: Vec<u8> = zlib_compress(entry.text.as_slice(), Level::Best.strength(effort));
            append(&mut data, body.as_slice());
            assert(data@ =~= head + seq![1u8, 0u8] + entry.language@ + seq![0u8]
                + entry.translated@ + seq![0u8] + body@);
            write_chunk(out, ITXT, data.as_slice());
        },
    }
}

/// The bytes of a chunk with an optional payload.
pub open spec fn chunk_if(chunk_type: Seq<u8>, payload: Option<Seq<u8>>) -> Seq<u8> {
    match payload {
        Some(p) => chunk_bytes(chunk_type, p),
        None => Seq::empty(),
    }
}

/// The bytes of eight 32-bit values.
pub open spec fn be32_list(values: Seq<u32>) -> Seq<u8>
    decreases values.len(),
{
    if values.len() == 0 {
        Seq::empty()
    } else {
        be32_list(values.drop_last()) + be32_seq(values.last() as int)
    }
}

impl Ancillary {
    /// The cICP payload.
    pub open spec fn cicp_payload(&self) -> Option<Seq<u8>> {
        match self.cicp {
            Some((primaries, transfer, full_range)) => Some(
                seq![
                    primaries,
                    transfer,
                    0u8,
                    if full_range {
                        1u8
                    } else {
                        0u8
                    },
                ],
            ),
            None => None,
        }
    }

    /// The cHRM payload.
    pub open spec fn chrm_payload(&self) -> Option<Seq<u8>> {
        match self.chrm {
            Some(chrm) => Some(be32_list(chrm@)),
            None => None,
        }
    }

    /// The gAMA payload.
    pub open spec fn gama_payload(&self) -> Option<Seq<u8>> {
        match self.gamma {
            Some(gamma) => Some(be32_seq(gamma as int)),
            None => None,
        }
    }

    /// The iCCP payload.
    pub open spec fn iccp_payload(&self, effort: u8) -> Option<Seq<u8>> {
        match self.iccp {
            Some((name, profile)) => Some(
                encode_utf8(name@) + seq![0u8, 0u8] + zlib_stream(
                    profile@,
                    ancillary_strength(effort),
                ),
            ),
            None => None,
        }
    }

    /// The sBIT payload under the written header.
    pub open spec fn sbit_payload(&self, written: WrittenModel) -> Option<Seq<u8>> {
        match self.sbit {
            Some(sbit) => significant_for(sbit@, written.color, written.bit_depth),
            None => None,
        }
    }

    /// The sRGB payload.
    pub open spec fn srgb_payload(&self) -> Option<Seq<u8>> {
        match self.srgb {
            Some(intent) => Some(seq![intent]),
            None => None,
        }
    }

    /// The chunks that precede PLTE, in order.
    pub open spec fn pre_plte(&self, effort: u8, written: WrittenModel) -> Seq<u8> {
        chunk_if(CICP@, self.cicp_payload()) + chunk_if(CHRM@, self.chrm_payload()) + chunk_if(
            GAMA@,
            self.gama_payload(),
        ) + chunk_if(ICCP@, self.iccp_payload(effort)) + chunk_if(
            SBIT@,
            self.sbit_payload(written),
        ) + chunk_if(SRGB@, self.srgb_payload())
    }

    fn cicp_data(&self) -> (data: Option<Vec<u8>>)
        ensures
            Self::stored(data) == self.cicp_payload(),
    {
        match self.cicp {
            Some((primaries, transfer, full_range)) => {
                let mut data: Vec<u8> = Vec::new();
                data.push(primaries);
                data.push(transfer);
                data.push(0);
                data.push(
                    if full_range {
                        1
                    } else {
                        0
                    },
                );
                assert(data@ =~= self.cicp_payload()->0);
                Some(data)
            },
            None => None,
        }
    }

    fn chrm_data(&self) -> (data: Option<Vec<u8>>)
        ensures
            Self::stored(data) == self.chrm_payload(),
    {
        match self.chrm {
            Some(chrm) => {
                let mut data: Vec<u8> = Vec::new();
                let mut i: usize = 0;
                assert(chrm@.subrange(0, 0) =~= Seq::<u32>::empty());
                while i < 8
                    invariant
                        i <= 8,
                        chrm@.len() == 8,
                        data@ == be32_list(chrm@.subrange(0, i as int)),
                    decreases 8 - i,
                {
                    push_be32(&mut data, chrm[i]);
                    i += 1;
                    proof {
                        let taken = chrm@.subrange(0, i as int);
                        assert(taken.drop_last() =~= chrm@.subrange(0, i - 1));
                        assert(taken.last() == chrm@[i - 1]);
                    }
                }
                assert(chrm@.subrange(0, 8) =~= chrm@);
                Some(data)
            },
            None => None,
        }
    }

    fn gama_data(&self) -> (data: Option<Vec<u8>>)
        ensures
            Self::stored(data) == self.gama_payload(),
    {
        match self.gamma {
            Some(gamma) => {
                let mut data: Vec<u8> = Vec::new();
                push_be32(&mut data, gamma);
                assert(data@ =~= be32_seq(gamma as int));
                Some(data)
            },
            None => None,
        }
    }

    /// Whether the profile inflates back from its chunk.
    pub open spec fn profile_inflates(&self, effort: u8) -> bool {
        self.iccp matches Some((_, profile)) ==> inflates_to(
            zlib_stream(profile@, ancillary_strength(effort)),
            profile@,
        )
    }

    fn iccp_data(&self, effort: u8) -> (data: Option<Vec<u8>>)
        ensures
            Self::stored(data) == self.iccp_payload(effort),
            self.profile_inflates(effort),
    {
        match &self.iccp {
            Some((name, profile)) => {
                let mut data: Vec<u8> = utf8_bytes(name.as_str());
                data.push(0);
                data.push(0);
                let body: Vec<u8> = zlib_compress(profile.as_slice(), Level::Best.strength(effort));
                append(&mut data, body.as_slice());
                assert(data@ =~= self.iccp_payload(effort)->0);
                Some(data)
            },
            None => None,
        }
    }

    fn sbit_data(&self, written: WrittenHeader<'_>) -> (data: Option<Vec<u8>>)
        ensures
            Self::stored(data) == self.sbit_payload(written@),
    {
        match &self.sbit {
            Some(sbit) => sbit_for(sbit.as_slice(), written.color, written.bit_depth),
            None => None,
        }
    }

    fn srgb_data(&self) -> (data: Option<Vec<u8>>)
        ensures
            Self::stored(data) == self.srgb_payload(),
    {
        match self.srgb {
            Some(intent) => {
                let mut data: Vec<u8> = Vec::new();
                data.push(intent);
                assert(data@ =~= seq![intent]);
                Some(data)
            },
            None => None,
        }
    }

    /// Emits the colour-space chunks that must precede PLTE (PNG Table 7).
    pub fn write_pre_plte(&self, out: &mut Vec<u8>, effort: u8, written: WrittenHeader<'_>)
        ensures
            final(out)@ == old(out)@ + self.pre_plte(effort, written@),
            self.profile_inflates(effort),
    {
        write_chunk_if(out, CICP, &self.cicp_data());
        write_chunk_if(out, CHRM, &self.chrm_data());
        write_chunk_if(out, GAMA, &self.gama_data());
        write_chunk_if(out, ICCP, &self.iccp_data(effort));
        write_chunk_if(out, SBIT, &self.sbit_data(written));
        write_chunk_if(out, SRGB, &self.srgb_data());
        assert(out@ =~= old(out)@ + self.pre_plte(effort, written@));
    }

    /// The bKGD payload under the written header.
    pub open spec fn bkgd_payload(&self, written: WrittenModel) -> Option<Seq<u8>> {
        match self.bkgd {
            Some(bkgd) => background_for(bkgd@, written),
            None => None,
        }
    }

    /// The pHYs payload.
    pub open spec fn phys_payload(&self) -> Option<Seq<u8>> {
        match self.phys {
            Some((x, y, unit)) => Some(be32_seq(x as int) + be32_seq(y as int) + seq![unit]),
            None => None,
        }
    }

    /// An optional payload as stored.
    pub open spec fn stored(payload: Option<Vec<u8>>) -> Option<Seq<u8>> {
        match payload {
            Some(p) => Some(p@),
            None => None,
        }
    }

    /// The tIME payload.
    pub open spec fn time_payload(&self) -> Option<Seq<u8>> {
        match self.time {
            Some(t) => Some(t@),
            None => None,
        }
    }

    /// The chunks that stand between PLTE and IDAT under a bKGD payload, in order; the manifest
    /// store is the last.
    pub open spec fn post_plte_with(&self, effort: u8, bkgd: Option<Seq<u8>>) -> Seq<u8> {
        chunk_if(EXIF@, Self::stored(self.exif)) + chunk_if(BKGD@, bkgd) + chunk_if(
            PHYS@,
            self.phys_payload(),
        ) + chunk_if(TIME@, self.time_payload()) + text_chunks(self.entries(), effort) + chunk_if(
            CABX@,
            Self::stored(self.c2pa),
        )
    }

    /// The chunks that stand between PLTE and IDAT, in order; the manifest store is the last.
    pub open spec fn post_plte(&self, effort: u8, written: WrittenModel) -> Seq<u8> {
        self.post_plte_with(effort, self.bkgd_payload(written))
    }

    /// The bKGD payload under the written header.
    pub fn bkgd_data(&self, written: WrittenHeader<'_>) -> (data: Option<Vec<u8>>)
        ensures
            Self::stored(data) == self.bkgd_payload(written@),
    {
        match &self.bkgd {
            Some(bkgd) => bkgd_for(bkgd.as_slice(), written),
            None => None,
        }
    }

    fn phys_data(&self) -> (data: Option<Vec<u8>>)
        ensures
            Self::stored(data) == self.phys_payload(),
    {
        match self.phys {
            Some((x, y, unit)) => {
                let mut data: Vec<u8> = Vec::new();
                push_be32(&mut data, x);
                push_be32(&mut data, y);
                data.push(unit);
                assert(data@ =~= self.phys_payload()->0);
                Some(data)
            },
            None => None,
        }
    }

    fn time_data(&self) -> (data: Option<Vec<u8>>)
        ensures
            Self::stored(data) == self.time_payload(),
    {
        match self.time {
            Some(time) => Some(vstd::slice::slice_to_vec(time.as_slice())),
            None => None,
        }
    }

    /// Whether the compressed annotations that are written inflate back.
    pub open spec fn texts_inflate(&self, effort: u8) -> bool {
        forall|i: int|
            0 <= i < self.entries().len() && (#[trigger] self.entries()[i]).is_written()
                ==> entry_inflates(self.entries()[i], effort)
    }

    fn write_texts(&self, out: &mut Vec<u8>, effort: u8)
        ensures
            final(out)@ == old(out)@ + text_chunks(self.entries(), effort),
            self.texts_inflate(effort),
    {
        let ghost start = out@;
        let ghost all = self.entries();
        let mut i: usize = 0;
        assert(all.subrange(0, 0) =~= Seq::<EntryModel>::empty());
        while i < self.texts.len()
            invariant
                i <= self.texts@.len(),
                all == self.entries(),
                out@ == start + text_chunks(all.subrange(0, i as int), effort),
                forall|j: int|
                    0 <= j < i && (#[trigger] all[j]).is_written() ==> entry_inflates(all[j], effort),
            decreases self.texts@.len() - i,
        {
            if self.texts[i].is_written() {
                write_text(out, &self.texts[i], effort);
            }
            proof {
                let taken = all.subrange(0, i + 1);
                assert(taken.drop_last() =~= all.subrange(0, i as int));
                assert(taken.last() == self.texts@[i as int]@);
                assert(all[i as int] == self.texts@[i as int]@);
                assert(out@ =~= start + text_chunks(taken, effort));
            }
            i += 1;
        }
        assert(all.subrange(0, i as int) =~= all);
    }

    /// Emits the remaining ancillary chunks that precede IDAT, the C2PA manifest store last of all.
    pub fn write_post_plte(&self, out: &mut Vec<u8>, effort: u8, written: WrittenHeader<'_>)
        ensures
            final(out)@ == old(out)@ + self.post_plte(effort, written@),
            self.texts_inflate(effort),
    {
        self.write_post_plte_with(out, effort, &self.bkgd_data(written));
    }

    /// Emits the remaining ancillary chunks that precede IDAT under a given bKGD payload.
    pub fn write_post_plte_with(&self, out: &mut Vec<u8>, effort: u8, bkgd: &Option<Vec<u8>>)
        ensures
            final(out)@ == old(out)@ + self.post_plte_with(effort, Self::stored(*bkgd)),
            self.texts_inflate(effort),
    {
        write_chunk_if(out, EXIF, &self.exif);
        write_chunk_if(out, BKGD, bkgd);
        write_chunk_if(out, PHYS, &self.phys_data());
        write_chunk_if(out, TIME, &self.time_data());
        self.write_texts(out, effort);
        write_chunk_if(out, CABX, &self.c2pa);
        assert(out@ =~= old(out)@ + self.post_plte_with(effort, Self::stored(*bkgd)));
    }
}

fn write_chunk_if(out: &mut Vec<u8>, chunk_type: [u8; 4], payload: &Option<Vec<u8>>)
    ensures
        final(out)@ == old(out)@ + chunk_if(chunk_type@, Ancillary::stored(*payload)),
{
    match payload {
        Some(data) => {
            write_chunk(out, chunk_type, data.as_slice());
        },
        None => {
            assert(out@ =~= old(out)@ + Seq::<u8>::empty());
        },
    }
}

/// The chunks of a list of annotations. One that was left behind has none.
pub open spec fn text_chunks(entries: Seq<EntryModel>, effort: u8) -> Seq<u8>
    decreases entries.len(),
{
    if entries.len() == 0 {
        Seq::empty()
    } else {
        text_chunks(entries.drop_last(), effort) + (if entries.last().is_written() {
            text_chunk(entries.last(), effort)
        } else {
            Seq::empty()
        })
    }
}

} // verus!
