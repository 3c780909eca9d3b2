//! What is read back of the metadata that was written.
use crate::ancillary::{
    ancillary_strength, be32_list, entry_for, entry_inflates, framed_xmp_entry_for, has_nul,
    in_text_repertoire, intent_of, is_compressed, is_language_tag, is_latin1, is_printable_latin1,
    is_space, is_tag_byte, itxt_rule, keyword_fault, keyword_notice, tagged_entry_for,
    text_bytes_of, Ancillary, EntryModel, SrgbIntent, TextKind, XMP_KEYWORD,
};
use crate::bytes::{be32, be32_round_trip, be32_seq};
use crate::carry::{carried_entries, carried_text, carried_xmp, or_empty, own_entries};
use crate::chunk::{
    BKGD, CABX, CHRM, CICP, EXIF, GAMA, ICCP, ITXT, PHYS, SBIT, SRGB, TEXT, TIME, ZTXT,
};
use crate::decoded::{
    after, chrm_of, cicp_of, collect_step, collected, gama_of, iccp_of, inflated, itxt_body,
    itxt_of, keyword_split, no_metadata, non_empty, srgb_of, zero_from, ztxt_body, Chromaticities,
    Cicp, Collected, FramingModel, ITxtModel, MetadataModel, TextChunkKind, TextModel,
};
use crate::decoder::metadata_of_file;
use crate::encoder::{FileModel, PngEncoder};
use crate::error::Error;
use crate::layout::{framable, opt_pair, text_pair, text_pairs, Pair};
use crate::parse::metadata_agrees_with_decode;
use crate::roundtrip::{ancillary_pairs, written_chunks_are_read_back};
use crate::text::{latin1_bytes, latin1_chars, latin1_round_trip, utf8_of};
use crate::zlib::{inflates_to, zlib_stream};
use vstd::prelude::*;
use vstd::utf8::{
    decode_utf8, decode_utf8_encode_utf8, encode_scalar, encode_utf8, encode_utf8_decode_utf8,
    encode_utf8_valid_utf8, is_ascii_chars, is_ascii_chars_encode_utf8, valid_utf8,
};

verus! {

/// Whether a byte string holds no null.
pub open spec fn nul_free(bytes: Seq<u8>) -> bool {
    forall|i: int| 0 <= i < bytes.len() ==> (#[trigger] bytes[i]) != 0
}

proof fn first_nul(data: Seq<u8>, from: int, at: int)
    requires
        0 <= from <= at < data.len(),
        forall|i: int| from <= i < at ==> (#[trigger] data[i]) != 0,
        data[at] == 0,
    ensures
        zero_from(data, from) == at,
    decreases at - from,
{
    if from < at {
        first_nul(data, from + 1, at);
    }
}

/// A field that holds no null ends at the null behind it.
pub proof fn field_ends(field: Seq<u8>, rest: Seq<u8>)
    requires
        nul_free(field),
    ensures
        ({
            let data = field + seq![0u8] + rest;
            let at = field.len() as int;
            &&& zero_from(data, 0) == at
            &&& data.subrange(0, at) == field
            &&& after(data, at) == rest
        }),
{
    let data = field + seq![0u8] + rest;
    let at = field.len() as int;
    assert forall|i: int| 0 <= i < at implies (#[trigger] data[i]) != 0 by {
        assert(data[i] == field[i]);
    }
    first_nul(data, 0, at);
    assert(data.subrange(0, at) =~= field);
    assert(after(data, at) =~= rest);
}

/// Whether a byte string can stand as a keyword: 1 to 79 bytes, no null.
pub open spec fn is_keyword(bytes: Seq<u8>) -> bool {
    1 <= bytes.len() <= 79 && nul_free(bytes)
}

/// A keyword ends at the null behind it.
pub proof fn keyword_ends(keyword: Seq<u8>, rest: Seq<u8>)
    requires
        is_keyword(keyword),
    ensures
        keyword_split(keyword + seq![0u8] + rest) == Some((latin1_chars(keyword), rest)),
{
    field_ends(keyword, rest);
}

/// Whether a reader takes an annotation in: a keyword of 1 to 79 bytes, no null in a field that a
/// null ends, and UTF-8 where the chunk asks for it.
pub open spec fn readable(entry: EntryModel) -> bool {
    &&& is_keyword(entry.keyword)
    &&& entry.kind is International || entry.kind is InternationalCompressed ==> {
        &&& nul_free(entry.language)
        &&& nul_free(entry.translated)
        &&& valid_utf8(entry.translated)
        &&& valid_utf8(entry.text)
    }
}

/// What a reader makes of an annotation.
pub open spec fn shown(entry: EntryModel) -> ITxtModel {
    let keyword = latin1_chars(entry.keyword);
    match entry.kind {
        TextKind::Latin1 => ITxtModel::Text(
            TextModel {
                keyword,
                text: latin1_chars(entry.text),
                language: None,
                translated_keyword: None,
                kind: TextChunkKind::Text,
            },
        ),
        TextKind::Compressed => ITxtModel::Text(ztxt_body(keyword, entry.text)),
        TextKind::International | TextKind::InternationalCompressed => itxt_body(
            keyword,
            latin1_chars(entry.language),
            decode_utf8(entry.translated),
            entry.text,
            is_compressed(entry.kind),
        )->0,
    }
}

/// What an annotation takes of the inflation budget.
pub open spec fn inflated_size(entry: EntryModel) -> nat {
    if is_compressed(entry.kind) {
        entry.text.len()
    } else {
        0
    }
}

/// Metadata with an annotation added to it.
pub open spec fn with_entry(m: MetadataModel, entry: EntryModel) -> MetadataModel {
    match shown(entry) {
        ITxtModel::Xmp(packet, framing) => if m.xmp is None {
            MetadataModel { xmp: Some(packet), xmp_framing: Some(framing), ..m }
        } else {
            m
        },
        ITxtModel::Text(text) => MetadataModel { texts: m.texts.push(text), ..m },
    }
}

proof fn text_types_differ()
    ensures
        TEXT@ != EXIF@ && TEXT@ != CABX@ && TEXT@ != ICCP@ && TEXT@ != GAMA@ && TEXT@ != CHRM@
            && TEXT@ != SRGB@ && TEXT@ != CICP@,
        ZTXT@ != EXIF@ && ZTXT@ != CABX@ && ZTXT@ != ICCP@ && ZTXT@ != GAMA@ && ZTXT@ != CHRM@
            && ZTXT@ != SRGB@ && ZTXT@ != CICP@ && ZTXT@ != TEXT@,
        ITXT@ != EXIF@ && ITXT@ != CABX@ && ITXT@ != ICCP@ && ITXT@ != GAMA@ && ITXT@ != CHRM@
            && ITXT@ != SRGB@ && ITXT@ != CICP@ && ITXT@ != TEXT@ && ITXT@ != ZTXT@,
{
    assert(TEXT@[0] == 0x74 && ZTXT@[0] == 0x7A && ITXT@[0] == 0x69 && ITXT@[1] == 0x54);
    assert(EXIF@[0] == 0x65 && CABX@[0] == 0x63 && GAMA@[0] == 0x67 && CHRM@[0] == 0x63);
    assert(ICCP@[0] == 0x69 && ICCP@[1] == 0x43 && SRGB@[0] == 0x73 && CICP@[0] == 0x63);
}

/// A stream that inflates back takes its contents off the budget.
proof fn inflating(data: Seq<u8>, strength: u8, budget: int)
    requires
        inflates_to(zlib_stream(data, strength), data),
        data.len() <= budget,
    ensures
        inflated(zlib_stream(data, strength), budget) == (Some(data), budget - data.len()),
{
}

proof fn reading_an_itxt(
    keyword: Seq<u8>,
    flag: u8,
    language: Seq<u8>,
    translated: Seq<u8>,
    body: Seq<u8>,
    contents: Seq<u8>,
    budget: int,
    left: int,
)
    requires
        is_keyword(keyword),
        nul_free(language),
        nul_free(translated),
        valid_utf8(translated),
        flag == 0 ==> contents == body && left == budget,
        flag != 0 ==> flag == 1 && inflated(body, budget) == (Some(contents), left),
    ensures
        itxt_of(
            keyword + seq![0u8] + seq![flag, 0u8] + language + seq![0u8] + translated + seq![0u8]
                + body,
            budget,
        ) == (
            itxt_body(
                latin1_chars(keyword),
                latin1_chars(language),
                decode_utf8(translated),
                contents,
                flag == 1,
            ),
            left,
        ),
{
    let data = keyword + seq![0u8] + seq![flag, 0u8] + language + seq![0u8] + translated
        + seq![0u8] + body;
    let tail = translated + seq![0u8] + body;
    let fields = language + seq![0u8] + tail;
    let rest = seq![flag, 0u8] + fields;
    assert(data =~= keyword + seq![0u8] + rest);
    keyword_ends(keyword, rest);
    assert(rest.subrange(2, rest.len() as int) =~= fields);
    field_ends(language, tail);
    field_ends(translated, body);
}

/// Reading the chunk of an annotation adds the annotation.
proof fn reading_an_entry(s: Collected, entry: EntryModel, effort: u8)
    requires
        readable(entry),
        entry_inflates(entry, effort),
        inflated_size(entry) <= s.budget,
    ensures
        ({
            let (kind, data) = text_pair(entry, effort);
            collect_step(s, kind, data) == (Collected {
                meta: with_entry(s.meta, entry),
                budget: s.budget - inflated_size(entry),
                ..s
            })
        }),
{
    text_types_differ();
    let head = entry.keyword + seq![0u8];
    let strength = ancillary_strength(effort);
    let deflated = zlib_stream(entry.text, strength);
    match entry.kind {
        TextKind::Latin1 => {
            keyword_ends(entry.keyword, entry.text);
        },
        TextKind::Compressed => {
            let rest = seq![0u8] + deflated;
            assert(head + seq![0u8] + deflated =~= head + rest);
            keyword_ends(entry.keyword, rest);
            assert(after(rest, 0) =~= deflated);
            inflating(entry.text, strength, s.budget);
        },
        TextKind::International => {
            reading_an_itxt(
                entry.keyword,
                0,
                entry.language,
                entry.translated,
                entry.text,
                entry.text,
                s.budget,
                s.budget,
            );
        },
        TextKind::InternationalCompressed => {
            inflating(entry.text, strength, s.budget);
            reading_an_itxt(
                entry.keyword,
                1,
                entry.language,
                entry.translated,
                deflated,
                entry.text,
                s.budget,
                s.budget - entry.text.len(),
            );
        },
    }
}

/// What a list of chunks adds.
pub open spec fn gather(s: Collected, list: Seq<Pair>) -> Collected
    decreases list.len(),
{
    if list.len() == 0 {
        s
    } else {
        collect_step(gather(s, list.drop_last()), list.last().0, list.last().1)
    }
}

/// What two lists add is what the one adds after the other.
proof fn gather_concat(s: Collected, a: Seq<Pair>, b: Seq<Pair>)
    ensures
        gather(s, a + b) == gather(gather(s, a), b),
    decreases b.len(),
{
    if b.len() == 0 {
        assert(a + b =~= a);
    } else {
        assert((a + b).drop_last() =~= a + b.drop_last());
        gather_concat(s, a, b.drop_last());
    }
}

/// Nothing collected yet.
pub open spec fn nothing_collected(budget: int) -> Collected {
    Collected { meta: no_metadata(), budget, seen_c2pa: false }
}

proof fn collecting_a_list(list: Seq<Pair>, budget: int, n: int)
    requires
        0 <= n <= list.len(),
    ensures
        collected(list, budget, n) == gather(nothing_collected(budget), list.subrange(0, n)),
    decreases n,
{
    if n > 0 {
        collecting_a_list(list, budget, n - 1);
        let taken = list.subrange(0, n);
        assert(taken.drop_last() =~= list.subrange(0, n - 1));
        assert(taken.last() == list[n - 1]);
    }
}

proof fn gather_one(s: Collected, chunk_type: Seq<u8>, payload: Option<Seq<u8>>)
    ensures
        gather(s, opt_pair(chunk_type, payload)) == (match payload {
            Some(data) => collect_step(s, chunk_type, data),
            None => s,
        }),
{
    reveal_with_fuel(gather, 2);
    let list = opt_pair(chunk_type, payload);
    if payload is Some {
        assert(list.drop_last() =~= Seq::<Pair>::empty());
    }
}

/// Metadata with the annotations that are written added to it, in their order.
pub open spec fn with_entries(m: MetadataModel, entries: Seq<EntryModel>) -> MetadataModel
    decreases entries.len(),
{
    if entries.len() == 0 {
        m
    } else if entries.last().is_written() {
        with_entry(with_entries(m, entries.drop_last()), entries.last())
    } else {
        with_entries(m, entries.drop_last())
    }
}

/// What the annotations that are written take of the inflation budget.
pub open spec fn inflated_sizes(entries: Seq<EntryModel>) -> nat
    decreases entries.len(),
{
    if entries.len() == 0 {
        0
    } else if entries.last().is_written() {
        inflated_sizes(entries.drop_last()) + inflated_size(entries.last())
    } else {
        inflated_sizes(entries.drop_last())
    }
}

/// Whether a reader takes in every annotation that is written.
pub open spec fn all_readable(entries: Seq<EntryModel>) -> bool {
    forall|i: int|
        0 <= i < entries.len() && (#[trigger] entries[i]).is_written() ==> readable(entries[i])
}

proof fn reading_the_entries(s: Collected, entries: Seq<EntryModel>, effort: u8)
    requires
        all_readable(entries),
        forall|i: int|
            0 <= i < entries.len() && (#[trigger] entries[i]).is_written() ==> entry_inflates(
                entries[i],
                effort,
            ),
        inflated_sizes(entries) <= s.budget,
    ensures
        gather(s, text_pairs(entries, effort)) == (Collected {
            meta: with_entries(s.meta, entries),
            budget: s.budget - inflated_sizes(entries),
            ..s
        }),
    decreases entries.len(),
{
    if entries.len() > 0 {
        let rest = entries.drop_last();
        let last = entries.last();
        assert forall|i: int| 0 <= i < rest.len() && (#[trigger] rest[i]).is_written() implies
            readable(rest[i]) && entry_inflates(rest[i], effort) by {
            assert(rest[i] == entries[i]);
        }
        reading_the_entries(s, rest, effort);
        if last.is_written() {
            assert(entries[entries.len() - 1] == last);
            let t = gather(s, text_pairs(rest, effort));
            let list = text_pairs(rest, effort) + seq![text_pair(last, effort)];
            assert(list.drop_last() =~= text_pairs(rest, effort));
            assert(list.last() == text_pair(last, effort));
            reading_an_entry(t, last, effort);
        } else {
            assert(text_pairs(entries, effort) =~= text_pairs(rest, effort));
        }
    }
}

proof fn types_differ()
    ensures
        CABX@ != EXIF@,
        ICCP@ != EXIF@ && ICCP@ != CABX@,
        GAMA@ != EXIF@ && GAMA@ != CABX@ && GAMA@ != ICCP@,
        CHRM@ != EXIF@ && CHRM@ != CABX@ && CHRM@ != ICCP@ && CHRM@ != GAMA@,
        SRGB@ != EXIF@ && SRGB@ != CABX@ && SRGB@ != ICCP@ && SRGB@ != GAMA@ && SRGB@ != CHRM@,
        CICP@ != EXIF@ && CICP@ != CABX@ && CICP@ != ICCP@ && CICP@ != GAMA@ && CICP@ != CHRM@
            && CICP@ != SRGB@,
{
    assert(EXIF@[0] == 0x65 && CABX@[0] == 0x63 && CABX@[1] == 0x61 && GAMA@[0] == 0x67);
    assert(CHRM@[0] == 0x63 && CHRM@[1] == 0x48 && ICCP@[0] == 0x69);
    assert(SRGB@[0] == 0x73 && CICP@[0] == 0x63 && CICP@[1] == 0x49);
}

/// Chunks that hold no metadata a reader collects.
proof fn other_types_add_nothing(s: Collected, data: Seq<u8>)
    ensures
        collect_step(s, SBIT@, data) == s,
        collect_step(s, BKGD@, data) == s,
        collect_step(s, PHYS@, data) == s,
        collect_step(s, TIME@, data) == s,
{
    assert(EXIF@[0] == 0x65 && CABX@[0] == 0x63 && GAMA@[0] == 0x67 && CHRM@[0] == 0x63);
    assert(ICCP@[0] == 0x69 && SRGB@[0] == 0x73 && SRGB@[1] == 0x52 && CICP@[0] == 0x63);
    assert(TEXT@[0] == 0x74 && TEXT@[1] == 0x45 && ZTXT@[0] == 0x7A && ITXT@[0] == 0x69);
    assert(SBIT@[0] == 0x73 && SBIT@[1] == 0x42 && BKGD@[0] == 0x62 && PHYS@[0] == 0x70);
    assert(TIME@[0] == 0x74 && TIME@[1] == 0x49);
}

/// Whether a profile name is read back as it was written: it goes out as UTF-8 and is read as
/// Latin-1, which agree on ASCII.
pub open spec fn is_plain_name(name: Seq<char>) -> bool {
    1 <= name.len() <= 79 && is_ascii_chars(name) && !has_nul(name)
}

/// ASCII is the same bytes in UTF-8 and in Latin-1.
proof fn ascii_is_latin1(name: Seq<char>)
    requires
        is_ascii_chars(name),
    ensures
        latin1_chars(encode_utf8(name)) == name,
        encode_utf8(name).len() == name.len(),
        !has_nul(name) ==> nul_free(encode_utf8(name)),
{
    is_ascii_chars_encode_utf8(name);
    let bytes = encode_utf8(name);
    assert forall|i: int| 0 <= i < bytes.len() implies bytes[i] as char == name[i] && (bytes[i] == 0
        ==> name[i] as u32 == 0) by {
        assert(name[i] as u8 == bytes[i]);
    }
    assert(latin1_chars(bytes) =~= name);
}

/// The colour space that an accumulation sets.
pub open spec fn set_cicp(a: Ancillary) -> Option<Cicp> {
    match a.cicp {
        Some((color_primaries, transfer_function, full_range)) => Some(
            Cicp { color_primaries, transfer_function, matrix_coefficients: 0, full_range },
        ),
        None => None,
    }
}

/// The chromaticities that an accumulation sets.
pub open spec fn set_chromaticities(a: Ancillary) -> Option<Chromaticities> {
    match a.chrm {
        Some(c) => Some(
            Chromaticities {
                white: (c[0], c[1]),
                red: (c[2], c[3]),
                green: (c[4], c[5]),
                blue: (c[6], c[7]),
            },
        ),
        None => None,
    }
}

/// The profile that an accumulation sets.
pub open spec fn set_profile(a: Ancillary) -> Option<(Seq<char>, Seq<u8>)> {
    match a.iccp {
        Some((name, profile)) => Some((name@, profile@)),
        None => None,
    }
}

/// The rendering intent that an accumulation sets.
pub open spec fn set_intent(a: Ancillary) -> Option<SrgbIntent> {
    match a.srgb {
        Some(code) => intent_of(code),
        None => None,
    }
}

proof fn be32_list_values(values: Seq<u32>)
    ensures
        be32_list(values).len() == 4 * values.len(),
        forall|i: int|
            0 <= i < values.len() ==> be32(be32_list(values), 4 * i) == #[trigger] values[i],
    decreases values.len(),
{
    if values.len() > 0 {
        let rest = values.drop_last();
        let bytes = be32_list(values);
        be32_list_values(rest);
        be32_round_trip(values.last());
        let tail = be32_seq(values.last() as int);
        assert forall|i: int| 0 <= i < values.len() implies be32(bytes, 4 * i)
            == #[trigger] values[i] by {
            if i < rest.len() {
                assert(rest[i] == values[i]);
                assert(bytes[4 * i] == be32_list(rest)[4 * i]);
                assert(bytes[4 * i + 1] == be32_list(rest)[4 * i + 1]);
                assert(bytes[4 * i + 2] == be32_list(rest)[4 * i + 2]);
                assert(bytes[4 * i + 3] == be32_list(rest)[4 * i + 3]);
            } else {
                assert(bytes[4 * i] == tail[0]);
                assert(bytes[4 * i + 1] == tail[1]);
                assert(bytes[4 * i + 2] == tail[2]);
                assert(bytes[4 * i + 3] == tail[3]);
            }
        }
    }
}

/// The fixed-size colour payloads read back as what was set.
proof fn colour_payloads(a: Ancillary)
    ensures
        a.cicp_payload() matches Some(data) ==> cicp_of(data) == set_cicp(a),
        a.chrm_payload() matches Some(data) ==> chrm_of(data) == set_chromaticities(a),
        a.gama_payload() matches Some(data) ==> gama_of(data) == a.gamma,
        a.srgb_payload() matches Some(data) ==> srgb_of(data) == set_intent(a),
{
    if let Some(c) = a.chrm {
        let values = c@;
        be32_list_values(values);
        assert(values.len() == 8);
        assert(values[0] == c[0] && values[1] == c[1] && values[2] == c[2] && values[3] == c[3]);
        assert(values[4] == c[4] && values[5] == c[5] && values[6] == c[6] && values[7] == c[7]);
    }
    if let Some(gamma) = a.gamma {
        be32_round_trip(gamma);
    }
}

/// Reading an iCCP gives the profile back.
proof fn reading_a_profile(name: Seq<char>, profile: Seq<u8>, strength: u8, budget: int)
    requires
        is_plain_name(name),
        inflates_to(zlib_stream(profile, strength), profile),
        profile.len() <= budget,
    ensures
        iccp_of(
            encode_utf8(name) + seq![0u8, 0u8] + zlib_stream(profile, strength),
            budget,
        ) == (Some((name, profile)), budget - profile.len()),
{
    let deflated = zlib_stream(profile, strength);
    let bytes = encode_utf8(name);
    ascii_is_latin1(name);
    let rest = seq![0u8] + deflated;
    assert(bytes + seq![0u8, 0u8] + deflated =~= bytes + seq![0u8] + rest);
    keyword_ends(bytes, rest);
    assert(after(rest, 0) =~= deflated);
    inflating(profile, strength, budget);
}

/// What the profile of an accumulation takes of the inflation budget.
pub open spec fn profile_size(a: Ancillary) -> nat {
    match a.iccp {
        Some((_, profile)) => profile@.len(),
        None => 0,
    }
}

/// The colour metadata that an accumulation sets.
pub open spec fn set_colours(a: Ancillary) -> MetadataModel {
    MetadataModel {
        icc_profile: set_profile(a),
        gamma: a.gamma,
        chromaticities: set_chromaticities(a),
        srgb: set_intent(a),
        cicp: set_cicp(a),
        ..no_metadata()
    }
}

/// Reading the chunks before the palette gives the colour metadata.
proof fn reading_the_colours(e: PngEncoder, f: FileModel, budget: int)
    requires
        e.ancillary.iccp matches Some((name, _)) ==> is_plain_name(name@),
        e.ancillary.profile_inflates(e.effort),
        profile_size(e.ancillary) <= budget,
    ensures
        gather(nothing_collected(budget), e.pre_pairs(f)) == (Collected {
            meta: set_colours(e.ancillary),
            budget: budget - profile_size(e.ancillary),
            seen_c2pa: false,
        }),
{
    let a = e.ancillary;
    let p1 = opt_pair(CICP@, a.cicp_payload());
    let p2 = opt_pair(CHRM@, a.chrm_payload());
    let p3 = opt_pair(GAMA@, a.gama_payload());
    let p4 = opt_pair(ICCP@, a.iccp_payload(e.effort));
    let p5 = opt_pair(SBIT@, a.sbit_payload(f.written));
    let p6 = opt_pair(SRGB@, a.srgb_payload());
    let s0 = nothing_collected(budget);
    let s1 = Collected { meta: MetadataModel { cicp: set_cicp(a), ..s0.meta }, ..s0 };
    let s2 = Collected {
        meta: MetadataModel { chromaticities: set_chromaticities(a), ..s1.meta },
        ..s1
    };
    let s3 = Collected { meta: MetadataModel { gamma: a.gamma, ..s2.meta }, ..s2 };
    let s4 = Collected {
        meta: MetadataModel { icc_profile: set_profile(a), ..s3.meta },
        budget: budget - profile_size(a),
        ..s3
    };
    let s6 = Collected { meta: MetadataModel { srgb: set_intent(a), ..s4.meta }, ..s4 };
    types_differ();
    colour_payloads(a);
    gather_one(s0, CICP@, a.cicp_payload());
    gather_one(s1, CHRM@, a.chrm_payload());
    gather_one(s2, GAMA@, a.gama_payload());
    if let Some((name, profile)) = a.iccp {
        reading_a_profile(name@, profile@, ancillary_strength(e.effort), budget);
    }
    gather_one(s3, ICCP@, a.iccp_payload(e.effort));
    assert(gather(s3, p4) == s4);
    if let Some(data) = a.sbit_payload(f.written) {
        other_types_add_nothing(s4, data);
    }
    gather_one(s4, SBIT@, a.sbit_payload(f.written));
    gather_one(s4, SRGB@, a.srgb_payload());
    gather_concat(s0, p1, p2);
    gather_concat(s0, p1 + p2, p3);
    gather_concat(s0, p1 + p2 + p3, p4);
    gather_concat(s0, p1 + p2 + p3 + p4, p5);
    gather_concat(s0, p1 + p2 + p3 + p4 + p5, p6);
    assert(gather(s4, p6) == s6);
}

/// What an accumulation holds, as metadata.
pub open spec fn accumulated(a: Ancillary) -> MetadataModel {
    MetadataModel {
        c2pa: Ancillary::stored(a.c2pa),
        ..with_entries(
            MetadataModel { exif: Ancillary::stored(a.exif), ..set_colours(a) },
            a.entries(),
        )
    }
}

/// How many bytes an accumulation takes of the budget that bounds what a reader inflates and stores.
pub open spec fn accumulated_size(a: Ancillary) -> nat {
    profile_size(a) + inflated_sizes(a.entries()) + (match a.c2pa {
        Some(store) => store@.len(),
        None => 0,
    })
}

/// Whether a reader takes in all that an accumulation holds.
pub open spec fn is_readable(a: Ancillary) -> bool {
    &&& a.iccp matches Some((name, _)) ==> is_plain_name(name@)
    &&& all_readable(a.entries())
}

/// Reading the chunks between the palette and the image data adds the rest.
proof fn reading_the_rest(e: PngEncoder, f: FileModel, s: Collected)
    requires
        all_readable(e.ancillary.entries()),
        e.ancillary.texts_inflate(e.effort),
        s.meta.exif is None,
        inflated_sizes(e.ancillary.entries()) <= s.budget,
    ensures
        gather(s, e.post_pairs(f)) == (Collected {
            meta: with_entries(
                MetadataModel { exif: Ancillary::stored(e.ancillary.exif), ..s.meta },
                e.ancillary.entries(),
            ),
            budget: s.budget - inflated_sizes(e.ancillary.entries()),
            ..s
        }),
{
    let a = e.ancillary;
    let q1 = opt_pair(EXIF@, Ancillary::stored(a.exif));
    let q2 = opt_pair(BKGD@, f.bkgd);
    let q3 = opt_pair(PHYS@, a.phys_payload());
    let q4 = opt_pair(TIME@, a.time_payload());
    let q5 = text_pairs(a.entries(), e.effort);
    let t = Collected {
        meta: MetadataModel { exif: Ancillary::stored(a.exif), ..s.meta },
        ..s
    };
    gather_one(s, EXIF@, Ancillary::stored(a.exif));
    assert(gather(s, q1) == t);
    gather_one(t, BKGD@, f.bkgd);
    gather_one(t, PHYS@, a.phys_payload());
    gather_one(t, TIME@, a.time_payload());
    if let Some(data) = f.bkgd {
        other_types_add_nothing(t, data);
    }
    if let Some(data) = a.phys_payload() {
        other_types_add_nothing(t, data);
    }
    if let Some(data) = a.time_payload() {
        other_types_add_nothing(t, data);
    }
    reading_the_entries(t, a.entries(), e.effort);
    gather_concat(s, q1, q2);
    gather_concat(s, q1 + q2, q3);
    gather_concat(s, q1 + q2 + q3, q4);
    gather_concat(s, q1 + q2 + q3 + q4, q5);
}

/// What an encoder was given is what a reader of its files gets: every payload, annotation and the
/// manifest store, under every budget that they fit. The exceptions are those that leave a reader
/// something else to see: a profile name beyond ASCII, which goes out in UTF-8 and is read as Latin-1.
pub proof fn written_metadata_is_read_back(e: PngEncoder, f: FileModel, budget: int)
    requires
        f.header.wf(),
        framable(e.file_pairs(f)),
        e.file_restores(f),
        is_readable(e.ancillary),
        accumulated_size(e.ancillary) <= budget,
    ensures
        metadata_of_file(e.file_of(f), budget) == Ok::<MetadataModel, Error>(
            accumulated(e.ancillary),
        ),
{
    let a = e.ancillary;
    let png = e.file_of(f);
    let list = ancillary_pairs(e, f);
    written_chunks_are_read_back(e, f);
    metadata_agrees_with_decode(png, budget);
    collecting_a_list(list, budget, list.len() as int);
    assert(list.subrange(0, list.len() as int) =~= list);
    let s0 = nothing_collected(budget);
    gather_concat(s0, e.pre_pairs(f), e.post_pairs(f));
    gather_concat(s0, e.pre_pairs(f) + e.post_pairs(f), e.store_pairs());
    reading_the_colours(e, f, budget);
    let s1 = gather(s0, e.pre_pairs(f));
    reading_the_rest(e, f, s1);
    let s2 = gather(s1, e.post_pairs(f));
    gather_one(s2, CABX@, Ancillary::stored(a.c2pa));
    types_differ();
    entries_keep_the_store(
        MetadataModel { exif: Ancillary::stored(a.exif), ..set_colours(a) },
        a.entries(),
    );
}

/// Annotations leave everything but the texts and the packet alone.
proof fn entries_keep_the_store(m: MetadataModel, entries: Seq<EntryModel>)
    ensures
        ({
            let n = with_entries(m, entries);
            n == (MetadataModel {
                xmp: n.xmp,
                xmp_framing: n.xmp_framing,
                texts: n.texts,
                ..m
            })
        }),
    decreases entries.len(),
{
    if entries.len() > 0 {
        entries_keep_the_store(m, entries.drop_last());
    }
}

proof fn scalar_bytes_are_not_null(c: u32)
    by (bit_vector)
    requires
        0 < c,
    ensures
        c <= 0x7F ==> (c & 0x7F) as u8 != 0,
        0xC0u8 | ((c >> 6) & 0x1F) as u8 >= 0xC0,
        0xE0u8 | ((c >> 12) & 0x0F) as u8 >= 0xC0,
        0xF0u8 | ((c >> 18) & 0x7) as u8 >= 0xC0,
        0x80u8 | (c & 0x3F) as u8 != 0,
        0x80u8 | ((c >> 6) & 0x3F) as u8 != 0,
        0x80u8 | ((c >> 12) & 0x3F) as u8 != 0,
{
}

/// The UTF-8 of a text without a null has no null byte.
proof fn utf8_is_nul_free(text: Seq<char>)
    requires
        !has_nul(text),
    ensures
        nul_free(encode_utf8(text)),
    decreases text.len(),
{
    if text.len() > 0 {
        let rest = text.drop_first();
        let c = text[0] as u32;
        assert(c != 0);
        assert(!has_nul(rest)) by {
            if has_nul(rest) {
                let i = choose|i: int| 0 <= i < rest.len() && (#[trigger] rest[i]) as u32 == 0;
                assert(text[i + 1] as u32 == 0);
            }
        }
        utf8_is_nul_free(rest);
        scalar_bytes_are_not_null(c);
        let head = encode_scalar(c);
        let tail = encode_utf8(rest);
        assert(nul_free(head));
        let all = head + tail;
        assert forall|i: int| 0 <= i < all.len() implies (#[trigger] all[i]) != 0 by {
            if i < head.len() {
                assert(all[i] == head[i]);
            } else {
                assert(all[i] == tail[i - head.len()]);
            }
        }
    }
}

proof fn char_below(d: char)
    ensures
        d as u32 <= 0x7F ==> '\0' <= d && d <= '\u{7f}',
{
}

/// A language tag is ASCII.
proof fn tags_are_ascii(language: Seq<char>)
    requires
        is_language_tag(language),
    ensures
        is_ascii_chars(language),
        !has_nul(language),
    decreases language.len(),
{
    if language.len() > 0 {
        let rest = language.drop_first();
        let c = language[0] as u32;
        let head = encode_scalar(c);
        let all = encode_utf8(language);
        assert(all == head + encode_utf8(rest));
        assert(is_tag_byte(all[0]) && all[0] == head[0]);
        if c == 0 {
            assert((0u32 & 0x7F) as u8 == 0) by (bit_vector);
            assert(head[0] == 0);
        }
        scalar_bytes_are_not_null(c);
        assert(c <= 0x7F);
        assert forall|i: int| 0 <= i < encode_utf8(rest).len() implies is_tag_byte(
            #[trigger] encode_utf8(rest)[i],
        ) by {
            assert(all[head.len() + i] == encode_utf8(rest)[i]);
        }
        tags_are_ascii(rest);
        assert forall|i: int| 0 <= i < language.len() implies 0 < (#[trigger] language[i]) as u32
            <= 0x7F && '\0' <= language[i] && language[i] <= '\u{7f}' by {
            let d: char = language[i];
            if i > 0 {
                assert(language[i] == rest[i - 1]);
                assert('\0' <= rest[i - 1] && rest[i - 1] <= '\u{7f}');
                assert(rest[i - 1] as u32 != 0);
            } else {
                assert(d as u32 == c);
                char_below(d);
            }
        }
    }
}

/// What an annotation of a kind shows, from its texts.
pub open spec fn shown_as(
    keyword: Seq<char>,
    language: Seq<char>,
    translated: Seq<char>,
    text: Seq<char>,
    kind: TextKind,
) -> ITxtModel {
    let plain = TextModel {
        keyword,
        text,
        language: None,
        translated_keyword: None,
        kind: TextChunkKind::Text,
    };
    let (language, translated_keyword) = (non_empty(language), non_empty(translated));
    let compressed = is_compressed(kind);
    match kind {
        TextKind::Latin1 => ITxtModel::Text(plain),
        TextKind::Compressed => ITxtModel::Text(
            TextModel { kind: TextChunkKind::CompressedText, ..plain },
        ),
        TextKind::International | TextKind::InternationalCompressed => if keyword
            == XMP_KEYWORD@ {
            ITxtModel::Xmp(
                encode_utf8(text),
                FramingModel { compressed, language, translated_keyword },
            )
        } else {
            ITxtModel::Text(
                TextModel {
                    language,
                    translated_keyword,
                    kind: if compressed {
                        TextChunkKind::CompressedInternational
                    } else {
                        TextChunkKind::International
                    },
                    ..plain
                },
            )
        },
    }
}

/// A keyword that is written is read back.
proof fn written_keyword(keyword: Seq<char>, text: Seq<char>, kind: TextKind, carried: bool)
    requires
        keyword_fault(keyword, carried) is None,
        entry_for(keyword, text, kind, carried).is_written(),
    ensures
        is_keyword(entry_for(keyword, text, kind, carried).keyword),
        latin1_chars(entry_for(keyword, text, kind, carried).keyword) == keyword,
{
    let bytes = entry_for(keyword, text, kind, carried).keyword;
    if !carried {
        assert forall|i: int| 0 <= i < keyword.len() implies (#[trigger] keyword[i]) as u32 != 0
            && keyword[i] as u32 <= 0xFF by {
            assert(is_printable_latin1(keyword[i]));
        }
    }
    assert(bytes == latin1_bytes(keyword));
    latin1_round_trip(bytes, keyword);
    assert forall|i: int| 0 <= i < bytes.len() implies (#[trigger] bytes[i]) != 0 by {
        let c = keyword[i];
        assert(c as u32 != 0 && c as u32 <= 0xFF);
        assert(bytes[i] == (c as u32) as u8);
    }
}

/// An annotation that is written is read back: its keyword and its text come out as they went in, in
/// the chunk that was chosen for them.
pub proof fn a_written_text_is_read_back(
    keyword: Seq<char>,
    text: Seq<char>,
    kind: TextKind,
    carried: bool,
)
    requires
        entry_for(keyword, text, kind, carried).fault is None,
        entry_for(keyword, text, kind, carried).is_written(),
    ensures
        ({
            let entry = entry_for(keyword, text, kind, carried);
            &&& readable(entry)
            &&& shown(entry) == shown_as(keyword, Seq::empty(), Seq::empty(), text, entry.kind)
        }),
{
    let entry = entry_for(keyword, text, kind, carried);
    written_keyword(keyword, text, kind, carried);
    if entry.kind is Latin1 || entry.kind is Compressed {
        assert forall|i: int| 0 <= i < text.len() implies (#[trigger] text[i]) as u32 <= 0xFF by {
            assert(in_text_repertoire(text[i]));
        }
        latin1_round_trip(entry.text, text);
    } else {
        encode_utf8_valid_utf8(text);
        encode_utf8_decode_utf8(text);
        let none = Seq::<u8>::empty();
        encode_utf8_valid_utf8(Seq::<char>::empty());
        encode_utf8_decode_utf8(Seq::<char>::empty());
        assert(encode_utf8(Seq::<char>::empty()) =~= none);
        assert(latin1_chars(none) =~= Seq::<char>::empty());
    }
}

/// An iTXt that is written is read back with its language tag, translated keyword and compression.
pub proof fn a_written_itxt_is_read_back(
    keyword: Seq<char>,
    language: Seq<char>,
    translated: Seq<char>,
    text: Seq<char>,
    compressed: bool,
    carried: bool,
)
    requires
        tagged_entry_for(keyword, language, translated, text, compressed, carried).fault is None,
        tagged_entry_for(keyword, language, translated, text, compressed, carried).is_written(),
    ensures
        ({
            let entry = tagged_entry_for(
                keyword,
                language,
                translated,
                text,
                compressed,
                carried,
            );
            let tag = if entry.untagged {
                Seq::empty()
            } else {
                language
            };
            &&& readable(entry)
            &&& shown(entry) == shown_as(keyword, tag, translated, text, entry.kind)
            &&& is_compressed(entry.kind) == compressed
        }),
{
    let entry = tagged_entry_for(keyword, language, translated, text, compressed, carried);
    let tag = if entry.untagged {
        Seq::empty()
    } else {
        language
    };
    let kind = if compressed {
        TextKind::InternationalCompressed
    } else {
        TextKind::International
    };
    assert(entry_for(keyword, text, kind, carried).fault is None);
    written_keyword(keyword, text, kind, carried);
    assert(itxt_rule(tag, translated) is None);
    tags_are_ascii(tag);
    ascii_is_latin1(tag);
    utf8_is_nul_free(translated);
    encode_utf8_valid_utf8(translated);
    encode_utf8_decode_utf8(translated);
    encode_utf8_valid_utf8(text);
    encode_utf8_decode_utf8(text);
}

/// An XMP packet that is written is read back, byte for byte, in its framing.
pub proof fn a_written_packet_is_read_back(
    packet: Seq<u8>,
    language: Seq<char>,
    translated: Seq<char>,
    compressed: bool,
    carried: bool,
)
    requires
        framed_xmp_entry_for(packet, language, translated, compressed, carried).fault is None,
        framed_xmp_entry_for(packet, language, translated, compressed, carried).is_written(),
    ensures
        ({
            let entry = framed_xmp_entry_for(packet, language, translated, compressed, carried);
            let tag = if entry.untagged {
                Seq::empty()
            } else {
                language
            };
            &&& readable(entry)
            &&& shown(entry) == ITxtModel::Xmp(
                packet,
                FramingModel {
                    compressed,
                    language: non_empty(tag),
                    translated_keyword: non_empty(translated),
                },
            )
        }),
{
    assert(utf8_of(packet) is Some);
    decode_utf8_encode_utf8(packet);
    a_written_itxt_is_read_back(
        XMP_KEYWORD@,
        language,
        translated,
        decode_utf8(packet),
        compressed,
        carried,
    );
}

/// Whether an optional field of an iTXt is one a reader gives: missing, or not empty and without a
/// null.
pub open spec fn is_field(field: Option<Seq<char>>) -> bool {
    field matches Some(text) ==> text.len() > 0 && !has_nul(text)
}

/// Whether an optional language tag is one a reader gives and a writer keeps.
pub open spec fn is_tag_field(field: Option<Seq<char>>) -> bool {
    field matches Some(tag) ==> tag.len() > 0 && is_language_tag(tag)
}

/// Whether an annotation goes back into the chunk it came out of, unchanged: a Latin-1 keyword of 1 to
/// 79 characters, no null anywhere, and for tEXt and zTXt a text inside their repertoire. The keyword
/// of the XMP packet names no other annotation.
pub open spec fn is_faithful_text(t: TextModel) -> bool {
    &&& 1 <= t.keyword.len() <= 79 && is_latin1(t.keyword) && !has_nul(t.keyword)
    &&& !has_nul(t.text)
    &&& if t.kind is Text || t.kind is CompressedText {
        t.language is None && t.translated_keyword is None && text_bytes_of(t.text) is Some
    } else {
        t.keyword != XMP_KEYWORD@ && is_tag_field(t.language) && is_field(t.translated_keyword)
    }
}

/// Whether an XMP packet is framed as a reader gives it and a writer keeps it.
pub open spec fn is_faithful_packet(xmp: Option<Seq<u8>>, framing: Option<FramingModel>) -> bool {
    match xmp {
        None => framing is None,
        Some(packet) => {
            &&& valid_utf8(packet) && !has_nul(decode_utf8(packet))
            &&& framing matches Some(f) && is_tag_field(f.language) && is_field(
                f.translated_keyword,
            )
        },
    }
}

/// Whether metadata survives a carry as it is.
pub open spec fn is_faithful(m: MetadataModel) -> bool {
    &&& m.icc_profile matches Some((name, _)) ==> is_plain_name(name)
    &&& is_faithful_packet(m.xmp, m.xmp_framing)
    &&& forall|i: int| 0 <= i < m.texts.len() ==> is_faithful_text(#[trigger] m.texts[i])
}

/// What a carry takes along of metadata: all but the manifest store and a cICP that is not RGB.
pub open spec fn carried_part(m: MetadataModel) -> MetadataModel {
    MetadataModel {
        c2pa: None,
        c2pa_ignored: 0,
        cicp: match m.cicp {
            Some(c) if c.matrix_coefficients == 0 => m.cicp,
            _ => None,
        },
        ..m
    }
}

/// A faithful annotation is carried and read back unchanged.
pub proof fn a_carried_text_is_read_back(t: TextModel)
    requires
        is_faithful_text(t),
    ensures
        carried_text(t).fault is None,
        carried_text(t).is_written(),
        readable(carried_text(t)),
        shown(carried_text(t)) == ITxtModel::Text(t),
{
    let entry = carried_text(t);
    if t.kind is Text {
        a_written_text_is_read_back(t.keyword, t.text, TextKind::Latin1, true);
    } else if t.kind is CompressedText {
        a_written_text_is_read_back(t.keyword, t.text, TextKind::Compressed, true);
    } else {
        let compressed = t.kind is CompressedInternational;
        empty_tag();
        assert(is_language_tag(or_empty(t.language)));
        assert(!has_nul(or_empty(t.translated_keyword)));
        a_written_itxt_is_read_back(
            t.keyword,
            or_empty(t.language),
            or_empty(t.translated_keyword),
            t.text,
            compressed,
            true,
        );
    }
}

/// An empty tag leaves the language unspecified.
proof fn empty_tag()
    ensures
        is_language_tag(Seq::<char>::empty()),
{
}

/// The keyword of the XMP packet is one a chunk can hold.
proof fn the_packet_has_a_keyword()
    ensures
        keyword_notice(XMP_KEYWORD@) is None,
        !has_nul(XMP_KEYWORD@),
{
    reveal_strlit("XML:com.adobe.xmp");
    let k = XMP_KEYWORD@;
    assert(k.len() == 17);
    assert(k[0] == 'X' && k[1] == 'M' && k[2] == 'L' && k[3] == ':' && k[4] == 'c' && k[5] == 'o'
        && k[6] == 'm' && k[7] == '.' && k[8] == 'a' && k[9] == 'd' && k[10] == 'o' && k[11] == 'b'
        && k[12] == 'e' && k[13] == '.' && k[14] == 'x' && k[15] == 'm' && k[16] == 'p');
    assert forall|i: int| 0 <= i < k.len() implies is_printable_latin1(#[trigger] k[i])
        && !is_space(k[i]) && k[i] as u32 <= 0xFF && k[i] as u32 != 0 by {}
}

/// A faithful packet is carried and read back unchanged.
pub proof fn a_carried_packet_is_read_back(packet: Seq<u8>, framing: FramingModel)
    requires
        is_faithful_packet(Some(packet), Some(framing)),
    ensures
        carried_xmp(packet, Some(framing)).fault is None,
        carried_xmp(packet, Some(framing)).is_written(),
        readable(carried_xmp(packet, Some(framing))),
        shown(carried_xmp(packet, Some(framing))) == ITxtModel::Xmp(packet, framing),
{
    the_packet_has_a_keyword();
    empty_tag();
    assert(is_language_tag(or_empty(framing.language)));
    assert(!has_nul(or_empty(framing.translated_keyword)));
    a_written_packet_is_read_back(
        packet,
        or_empty(framing.language),
        or_empty(framing.translated_keyword),
        framing.compressed,
        true,
    );
}

proof fn with_entries_concat(m: MetadataModel, a: Seq<EntryModel>, b: Seq<EntryModel>)
    ensures
        with_entries(m, a + b) == with_entries(with_entries(m, a), b),
    decreases b.len(),
{
    if b.len() == 0 {
        assert(a + b =~= a);
    } else {
        assert((a + b).drop_last() =~= a + b.drop_last());
        with_entries_concat(m, a, b.drop_last());
    }
}

/// Carried annotations are added as they were read.
proof fn carried_texts_are_added(m: MetadataModel, texts: Seq<TextModel>)
    requires
        forall|i: int| 0 <= i < texts.len() ==> is_faithful_text(#[trigger] texts[i]),
    ensures
        with_entries(m, texts.map_values(|t: TextModel| carried_text(t))) == (MetadataModel {
            texts: m.texts + texts,
            ..m
        }),
        all_readable(texts.map_values(|t: TextModel| carried_text(t))),
    decreases texts.len(),
{
    let carry = |t: TextModel| carried_text(t);
    let entries = texts.map_values(carry);
    if texts.len() == 0 {
        assert(m.texts + texts =~= m.texts);
    } else {
        let rest = texts.drop_last();
        let last = texts.last();
        assert forall|i: int| 0 <= i < rest.len() implies is_faithful_text(#[trigger] rest[i]) by {
            assert(rest[i] == texts[i]);
        }
        assert(is_faithful_text(texts[texts.len() - 1]));
        carried_texts_are_added(m, rest);
        a_carried_text_is_read_back(last);
        assert(entries.drop_last() =~= rest.map_values(carry));
        assert(entries.last() == carried_text(last));
        assert((m.texts + rest).push(last) =~= m.texts + texts);
        assert forall|i: int| 0 <= i < entries.len() implies readable(#[trigger] entries[i]) by {
            assert(entries[i] == carried_text(texts[i]));
            a_carried_text_is_read_back(texts[i]);
        }
    }
}

/// The annotations of a carry, added to metadata that has none.
proof fn carried_entries_are_added(base: MetadataModel, m: MetadataModel)
    requires
        is_faithful(m),
        base.xmp is None,
        base.xmp_framing is None,
        base.texts.len() == 0,
    ensures
        with_entries(base, carried_entries(m)) == (MetadataModel {
            xmp: m.xmp,
            xmp_framing: m.xmp_framing,
            texts: m.texts,
            ..base
        }),
        all_readable(carried_entries(m)),
{
    let texts = m.texts.map_values(|t: TextModel| carried_text(t));
    let first = match m.xmp {
        Some(packet) => seq![carried_xmp(packet, m.xmp_framing)],
        None => Seq::empty(),
    };
    with_entries_concat(base, first, texts);
    let mid = MetadataModel { xmp: m.xmp, xmp_framing: m.xmp_framing, ..base };
    if let Some(packet) = m.xmp {
        a_carried_packet_is_read_back(packet, m.xmp_framing->0);
        reveal_with_fuel(with_entries, 2);
        assert(first.drop_last() =~= Seq::<EntryModel>::empty());
    }
    assert(with_entries(base, first) == mid);
    carried_texts_are_added(mid, m.texts);
    assert(mid.texts + m.texts =~= m.texts);
    let all = carried_entries(m);
    assert(all == first + texts);
    assert forall|i: int| 0 <= i < all.len() && (#[trigger] all[i]).is_written() implies readable(
        all[i],
    ) by {
        if i < first.len() {
            assert(all[i] == first[i]);
        } else {
            assert(all[i] == texts[i - first.len()]);
        }
    }
}

/// Carried metadata survives a re-encode: reading a file that was written by an encoder the metadata
/// was carried into gives the metadata back, but for the manifest store and a cICP that is not RGB.
pub proof fn carried_metadata_is_read_back(
    before: PngEncoder,
    e: PngEncoder,
    m: MetadataModel,
    f: FileModel,
    budget: int,
)
    requires
        before.ancillary.is_empty(),
        e.carries(before, m),
        is_faithful(m),
        f.header.wf(),
        framable(e.file_pairs(f)),
        e.file_restores(f),
        accumulated_size(e.ancillary) <= budget,
    ensures
        metadata_of_file(e.file_of(f), budget) == Ok::<MetadataModel, Error>(carried_part(m)),
{
    let a = e.ancillary;
    assert(own_entries(before.ancillary.entries()) =~= Seq::<EntryModel>::empty()) by {
        reveal(Seq::filter);
        assert(before.ancillary.entries().len() == 0);
    }
    assert(a.entries() =~= carried_entries(m));
    let base = MetadataModel { exif: Ancillary::stored(a.exif), ..set_colours(a) };
    carried_entries_are_added(base, m);
    written_metadata_is_read_back(e, f, budget);
    assert(set_profile(a) == m.icc_profile);
    assert(set_cicp(a) == carried_part(m).cicp);
    assert(set_chromaticities(a) == m.chromaticities);
    assert(set_intent(a) == m.srgb);
    assert(a.gamma == m.gamma);
    assert(Ancillary::stored(a.exif) == m.exif);
}

} // verus!
