//! Carrying the metadata of a read file into an encoder.
use crate::ancillary::{
    entries_of, entry_for, framed_xmp_entry_for, has_nul, is_language_tag, keyword_rule,
    tagged_entry_for, Ancillary, EntryModel, SrgbIntent, TextEntry, TextKind,
};
use crate::decoded::{
    opt_bytes, opt_framing, opt_icc, text_models, Chromaticities, Cicp, DecodedPng, FramingModel,
    IccProfile, MetadataModel, PngMetadata, TextChunk, TextChunkKind, TextModel, XmpFraming,
};
use crate::encoder::{MetadataNotice, PngEncoder};
use crate::text::latin1_bytes;
use vstd::prelude::*;
use vstd::utf8::encode_utf8;

verus! {

/// The fields that [`PngMetadata`] and [`DecodedPng`] both carry, borrowed.
struct MetadataView<'a> {
    exif: &'a Option<Vec<u8>>,
    icc_profile: &'a Option<IccProfile>,
    xmp: &'a Option<Vec<u8>>,
    xmp_framing: &'a Option<XmpFraming>,
    texts: &'a Vec<TextChunk>,
    gamma: Option<u32>,
    chromaticities: Option<Chromaticities>,
    srgb: Option<SrgbIntent>,
    cicp: Option<Cicp>,
    c2pa: bool,
}

impl MetadataView<'_> {
    spec fn shows(&self, m: MetadataModel) -> bool {
        &&& opt_bytes(*self.exif) == m.exif
        &&& opt_icc(*self.icc_profile) == m.icc_profile
        &&& opt_bytes(*self.xmp) == m.xmp
        &&& opt_framing(*self.xmp_framing) == m.xmp_framing
        &&& text_models(self.texts@) == m.texts
        &&& self.gamma == m.gamma
        &&& self.chromaticities == m.chromaticities
        &&& self.srgb == m.srgb
        &&& self.cicp == m.cicp
        &&& self.c2pa == (m.c2pa is Some)
    }
}

/// A text that may be missing, as a text that may be empty.
pub open spec fn or_empty(text: Option<Seq<char>>) -> Seq<char> {
    match text {
        Some(t) => t,
        None => Seq::empty(),
    }
}

fn str_or_empty(text: &Option<String>) -> (t: &str)
    ensures
        t@ == or_empty(crate::decoded::opt_chars(*text)),
{
    match text {
        Some(t) => t.as_str(),
        None => {
            proof {
                reveal_strlit("");
                assert(""@ =~= Seq::<char>::empty());
            }
            ""
        },
    }
}

/// The annotation a carried text becomes: it goes back into the chunk it came out of.
pub open spec fn carried_text(t: TextModel) -> EntryModel {
    match t.kind {
        TextChunkKind::Text => entry_for(t.keyword, t.text, TextKind::Latin1, true),
        TextChunkKind::CompressedText => entry_for(t.keyword, t.text, TextKind::Compressed, true),
        TextChunkKind::International => tagged_entry_for(
            t.keyword,
            or_empty(t.language),
            or_empty(t.translated_keyword),
            t.text,
            false,
            true,
        ),
        TextChunkKind::CompressedInternational => tagged_entry_for(
            t.keyword,
            or_empty(t.language),
            or_empty(t.translated_keyword),
            t.text,
            true,
            true,
        ),
    }
}

/// The annotation a carried XMP packet becomes, in the framing it was read in.
pub open spec fn carried_xmp(packet: Seq<u8>, framing: Option<FramingModel>) -> EntryModel {
    match framing {
        Some(f) => framed_xmp_entry_for(
            packet,
            or_empty(f.language),
            or_empty(f.translated_keyword),
            f.compressed,
            true,
        ),
        None => framed_xmp_entry_for(packet, Seq::empty(), Seq::empty(), false, true),
    }
}

/// The annotations a carry contributes: the XMP packet, then the texts in order.
pub open spec fn carried_entries(m: MetadataModel) -> Seq<EntryModel> {
    (match m.xmp {
        Some(packet) => seq![carried_xmp(packet, m.xmp_framing)],
        None => Seq::empty(),
    }) + m.texts.map_values(|t: TextModel| carried_text(t))
}

/// The annotations that direct setters contributed.
pub open spec fn own_entries(entries: Seq<EntryModel>) -> Seq<EntryModel> {
    entries.filter(|e: EntryModel| !e.carried)
}

/// What a carry cannot take: a cICP that is not RGB, and the manifest store.
pub open spec fn carry_notices(m: MetadataModel) -> Seq<MetadataNotice> {
    (match m.cicp {
        Some(c) if c.matrix_coefficients != 0 => seq![MetadataNotice::NonRgbCicp],
        _ => Seq::empty(),
    }) + (if m.c2pa is Some {
        seq![MetadataNotice::C2paManifestStore]
    } else {
        Seq::empty()
    })
}

impl PngEncoder {
    /// Whether this encoder is `before` with the metadata `m` carried into it: every payload that
    /// the metadata has replaces the encoder's, the annotations of an earlier carry are replaced and
    /// those of direct setters kept, and the manifest store is left as it was.
    pub open spec fn carries(&self, before: PngEncoder, m: MetadataModel) -> bool {
        let (a, b) = (self.ancillary, before.ancillary);
        &&& *self == (PngEncoder {
            ancillary: a,
            carry_notices: self.carry_notices,
            ..before
        })
        &&& self.carry_notices@ == carry_notices(m)
        &&& a.entries() == own_entries(b.entries()) + carried_entries(m)
        &&& match m.exif {
            Some(exif) => opt_bytes(a.exif) == Some(exif),
            None => a.exif == b.exif,
        }
        &&& match m.icc_profile {
            Some((name, profile)) => a.iccp matches Some((n, p)) && n@ == name && p@ == profile,
            None => a.iccp == b.iccp,
        }
        &&& a.srgb == match m.srgb {
            Some(intent) => Some(intent.spec_code()),
            None => b.srgb,
        }
        &&& a.cicp == match m.cicp {
            Some(c) if c.matrix_coefficients == 0 => Some(
                (c.color_primaries, c.transfer_function, c.full_range),
            ),
            _ => b.cicp,
        }
        &&& a.gamma == match m.gamma {
            Some(gamma) => Some(gamma),
            None => b.gamma,
        }
        &&& a.chrm == match m.chromaticities {
            Some(c) => Some(
                [
                    c.white.0,
                    c.white.1,
                    c.red.0,
                    c.red.1,
                    c.green.0,
                    c.green.1,
                    c.blue.0,
                    c.blue.1,
                ],
            ),
            None => b.chrm,
        }
        &&& a.c2pa == b.c2pa
        &&& a.sbit == b.sbit
        &&& a.bkgd == b.bkgd
        &&& a.phys == b.phys
        &&& a.time == b.time
        &&& !a.carrying
    }

    /// Carries every metadata chunk a [`PngMetadata`] holds into this encoder.
    ///
    /// Everything the read side surfaces is set, each annotation in the chunk it came out of. A cICP
    /// whose matrix coefficients are not 0 and the C2PA manifest store are left behind. So are an
    /// annotation whose keyword no chunk can hold and an XMP packet that is not UTF-8; a keyword that
    /// only leaves the recommended repertoire or spacing is written as it arrived. All of it is
    /// reported by [`PngEncoder::metadata_notices`]. Only a null in an annotation fails the encode.
    /// Carrying the same metadata twice is the same as carrying it once.
    pub fn with_metadata(self, metadata: &PngMetadata) -> (encoder: Self)
        ensures
            encoder.carries(self, metadata@),
    {
        self.with_metadata_view(
            MetadataView {
                exif: &metadata.exif,
                icc_profile: &metadata.icc_profile,
                xmp: &metadata.xmp,
                xmp_framing: &metadata.xmp_framing,
                texts: &metadata.texts,
                gamma: metadata.gamma,
                chromaticities: metadata.chromaticities,
                srgb: metadata.srgb,
                cicp: metadata.cicp,
                c2pa: metadata.c2pa.is_some(),
            },
            Ghost(metadata@),
        )
    }

    /// Carries the metadata of a decoded file into this encoder, as [`PngEncoder::with_metadata`]
    /// does.
    pub fn with_metadata_from(self, decoded: &DecodedPng) -> (encoder: Self)
        ensures
            encoder.carries(self, decoded@.metadata),
    {
        self.with_metadata_view(
            MetadataView {
                exif: &decoded.exif,
                icc_profile: &decoded.icc_profile,
                xmp: &decoded.xmp,
                xmp_framing: &decoded.xmp_framing,
                texts: &decoded.texts,
                gamma: decoded.gamma,
                chromaticities: decoded.chromaticities,
                srgb: decoded.srgb,
                cicp: decoded.cicp,
                c2pa: decoded.c2pa.is_some(),
            },
            Ghost(decoded@.metadata),
        )
    }

    fn with_metadata_view(self, view: MetadataView<'_>, model: Ghost<MetadataModel>) -> (encoder:
        Self)
        requires
            view.shows(model@),
        ensures
            encoder.carries(self, model@),
    {
        let ghost before = self;
        let ghost m = model@;
        let mut encoder = self;
        let mut notices: Vec<MetadataNotice> = Vec::new();
        encoder.ancillary.begin_carry();
        proof {
            filter_views(before.ancillary.texts@);
        }
        match view.exif {
            Some(exif) => {
                encoder = encoder.with_exif(exif.as_slice());
            },
            None => {},
        }
        match view.icc_profile {
            Some(icc) => {
                encoder = encoder.with_icc_profile(icc.name.as_str(), icc.profile.as_slice());
            },
            None => {},
        }
        match view.srgb {
            Some(intent) => {
                encoder = encoder.with_srgb(intent);
            },
            None => {},
        }
        match view.cicp {
            Some(cicp) => {
                if cicp.matrix_coefficients != 0 {
                    notices.push(MetadataNotice::NonRgbCicp);
                } else {
                    encoder = encoder.with_cicp(
                        cicp.color_primaries,
                        cicp.transfer_function,
                        cicp.full_range,
                    );
                }
            },
            None => {},
        }
        if view.c2pa {
            notices.push(MetadataNotice::C2paManifestStore);
        }
        assert(notices@ =~= carry_notices(m));
        match view.gamma {
            Some(gamma) => {
                encoder = encoder.with_gamma(gamma);
            },
            None => {},
        }
        match view.chromaticities {
            Some(c) => {
                encoder = encoder.with_chromaticities(c.white, c.red, c.green, c.blue);
            },
            None => {},
        }
        let ghost own = own_entries(before.ancillary.entries());
        assert(encoder.ancillary.entries() == own);
        carry_xmp(&mut encoder.ancillary, view.xmp, view.xmp_framing);
        carry_texts(&mut encoder.ancillary, view.texts);
        encoder.ancillary.end_carry();
        encoder.carry_notices = notices;
        proof {
            assert(encoder.ancillary.entries() =~= own + carried_entries(m));
        }
        encoder
    }
}

fn carry_xmp(a: &mut Ancillary, xmp: &Option<Vec<u8>>, framing: &Option<XmpFraming>)
    requires
        old(a).carrying,
    ensures
        final(a).same_but_texts(*old(a)),
        final(a).entries() == old(a).entries() + (match opt_bytes(*xmp) {
            Some(packet) => seq![carried_xmp(packet, opt_framing(*framing))],
            None => Seq::empty(),
        }),
{
    let ghost start = a.entries();
    match xmp {
        Some(packet) => {
            match framing {
                Some(f) => {
                    a.add_xmp_framed(
                        packet.as_slice(),
                        str_or_empty(&f.language),
                        str_or_empty(&f.translated_keyword),
                        f.compressed,
                    );
                },
                None => {
                    proof {
                        reveal_strlit("");
                        assert(""@ =~= Seq::<char>::empty());
                    }
                    a.add_xmp_framed(packet.as_slice(), "", "", false);
                },
            }
            proof {
                let e = carried_xmp(packet@, opt_framing(*framing));
                assert(start.push(e) =~= start + seq![e]);
            }
        },
        None => {
            assert(start =~= start + Seq::<EntryModel>::empty());
        },
    }
}

fn carry_texts(a: &mut Ancillary, texts: &Vec<TextChunk>)
    requires
        old(a).carrying,
    ensures
        final(a).same_but_texts(*old(a)),
        final(a).entries() == old(a).entries() + text_models(texts@).map_values(
            |t: TextModel| carried_text(t),
        ),
{
    let ghost start = a.entries();
    let ghost all = text_models(texts@).map_values(|t: TextModel| carried_text(t));
    let ghost before = *a;
    let mut i: usize = 0;
    assert(start + all.subrange(0, 0) =~= start);
    while i < texts.len()
        invariant
            i <= texts@.len(),
            before.carrying,
            a.same_but_texts(before),
            all == text_models(texts@).map_values(|t: TextModel| carried_text(t)),
            a.entries() == start + all.subrange(0, i as int),
        decreases texts@.len() - i,
    {
        let text: &TextChunk = &texts[i];
        match text.kind {
            TextChunkKind::Text => {
                a.add_text_latin1(text.keyword.as_str(), text.text.as_str());
            },
            TextChunkKind::CompressedText => {
                a.add_text_compressed(text.keyword.as_str(), text.text.as_str());
            },
            TextChunkKind::International => {
                a.add_text_international_tagged(
                    text.keyword.as_str(),
                    str_or_empty(&text.language),
                    str_or_empty(&text.translated_keyword),
                    text.text.as_str(),
                    false,
                );
            },
            TextChunkKind::CompressedInternational => {
                a.add_text_international_tagged(
                    text.keyword.as_str(),
                    str_or_empty(&text.language),
                    str_or_empty(&text.translated_keyword),
                    text.text.as_str(),
                    true,
                );
            },
        }
        proof {
            assert(all[i as int] == carried_text(texts@[i as int]@));
            assert((start + all.subrange(0, i as int)).push(all[i as int]) =~= start
                + all.subrange(0, i + 1));
        }
        i += 1;
    }
    assert(all.subrange(0, i as int) =~= all);
}

/// Dropping carried annotations and taking values commute.
proof fn filter_views(texts: Seq<TextEntry>)
    ensures
        entries_of(texts.filter(|e: TextEntry| !e.carried)) == own_entries(entries_of(texts)),
    decreases texts.len(),
{
    reveal(Seq::filter);
    let keep = |e: TextEntry| !e.carried;
    let keep_model = |e: EntryModel| !e.carried;
    let models = entries_of(texts);
    if texts.len() > 0 {
        filter_views(texts.drop_last());
        assert(models.drop_last() =~= entries_of(texts.drop_last()));
        assert(models.last().carried == texts.last().carried);
        let rest = texts.drop_last().filter(keep);
        if !texts.last().carried {
            assert(entries_of(rest.push(texts.last())) =~= entries_of(rest).push(models.last()));
        }
    } else {
        assert(entries_of(texts.filter(keep)) =~= models.filter(keep_model));
    }
}

proof fn own_of_own(entries: Seq<EntryModel>, carried: Seq<EntryModel>)
    requires
        forall|i: int| 0 <= i < carried.len() ==> (#[trigger] carried[i]).carried,
    ensures
        own_entries(own_entries(entries) + carried) == own_entries(entries),
{
    own_without_carried(own_entries(entries), carried);
    own_is_own(entries);
}

proof fn own_without_carried(entries: Seq<EntryModel>, carried: Seq<EntryModel>)
    requires
        forall|i: int| 0 <= i < carried.len() ==> (#[trigger] carried[i]).carried,
    ensures
        own_entries(entries + carried) == own_entries(entries),
    decreases carried.len(),
{
    let all = entries + carried;
    if carried.len() > 0 {
        let rest = carried.drop_last();
        assert forall|i: int| 0 <= i < rest.len() implies (#[trigger] rest[i]).carried by {
            assert(rest[i] == carried[i]);
        }
        own_without_carried(entries, rest);
        own_step(all);
        assert(all.drop_last() =~= entries + rest);
        assert(all.last() == carried.last());
    } else {
        assert(all =~= entries);
    }
}

proof fn own_is_own(entries: Seq<EntryModel>)
    ensures
        own_entries(own_entries(entries)) == own_entries(entries),
    decreases entries.len(),
{
    own_step(entries);
    if entries.len() > 0 {
        let before = own_entries(entries.drop_last());
        own_is_own(entries.drop_last());
        if !entries.last().carried {
            let own = before.push(entries.last());
            own_step(own);
            assert(own.drop_last() =~= before);
            assert(own.last() == entries.last());
        }
    } else {
        own_step(own_entries(entries));
    }
}

/// What the last annotation adds.
proof fn own_step(entries: Seq<EntryModel>)
    ensures
        own_entries(entries) == (if entries.len() == 0 {
            Seq::empty()
        } else if entries.last().carried {
            own_entries(entries.drop_last())
        } else {
            own_entries(entries.drop_last()).push(entries.last())
        }),
{
    reveal(Seq::filter);
    if entries.len() == 0 {
        assert(own_entries(entries) =~= Seq::<EntryModel>::empty());
    }
}

/// Every annotation of a carry is marked as carried.
proof fn carried_entries_are_marked(m: MetadataModel)
    ensures
        forall|i: int| 0 <= i < carried_entries(m).len() ==> (#[trigger] carried_entries(m)[i]).carried,
{
}

/// Carrying the same metadata twice is the same as carrying it once: no annotation is duplicated,
/// every payload stays, and the notices are those of one carry.
pub proof fn carrying_twice_is_carrying_once(
    before: PngEncoder,
    once: PngEncoder,
    twice: PngEncoder,
    m: MetadataModel,
)
    requires
        once.carries(before, m),
        twice.carries(once, m),
    ensures
        twice.carries(before, m),
        twice.ancillary.entries() == once.ancillary.entries(),
        twice.carry_notices@ == once.carry_notices@,
{
    carried_entries_are_marked(m);
    own_of_own(before.ancillary.entries(), carried_entries(m));
}

/// Whether a text holds a null, in any of its fields.
pub open spec fn text_holds_nul(t: TextModel) -> bool {
    ||| has_nul(t.keyword)
    ||| has_nul(t.text)
    ||| (t.kind is International || t.kind is CompressedInternational) && has_nul(
        or_empty(t.translated_keyword),
    )
}

/// A carried annotation is refused exactly where it holds a null. Where it is not written, or not as
/// it arrived, it has a notice: what a carry loses is never lost in silence.
pub proof fn only_a_null_refuses_a_carried_text(t: TextModel)
    ensures
        carried_text(t).fault is Some <==> text_holds_nul(t),
        !carried_text(t).is_written() ==> carried_text(t).notices().len() > 0,
        carried_text(t).notices().len() == 0 ==> {
            &&& carried_text(t).keyword == latin1_bytes(t.keyword)
            &&& keyword_rule(t.keyword) is None
            &&& (t.kind is International || t.kind is CompressedInternational)
                ==> carried_text(t).language == encode_utf8(or_empty(t.language))
        },
{
    let e = carried_text(t);
    if e.untagged {
        assert(e.notices().last() == MetadataNotice::ItxtLanguageTag);
    }
    if t.kind is International || t.kind is CompressedInternational {
        assert(is_language_tag(Seq::<char>::empty())) by {
            reveal_with_fuel(encode_utf8, 1);
        }
    }
}

/// A carry keeps the annotations of direct setters, and never copies a manifest store forward.
pub proof fn a_carry_spares_direct_setters(before: PngEncoder, after: PngEncoder, m: MetadataModel)
    requires
        after.carries(before, m),
    ensures
        own_entries(after.ancillary.entries()) == own_entries(before.ancillary.entries()),
        after.ancillary.c2pa == before.ancillary.c2pa,
        m.c2pa is Some ==> after.carry_notices@.contains(MetadataNotice::C2paManifestStore),
{
    carried_entries_are_marked(m);
    own_of_own(before.ancillary.entries(), carried_entries(m));
    if m.c2pa is Some {
        let n = after.carry_notices@;
        assert(n[n.len() - 1] == MetadataNotice::C2paManifestStore);
    }
}

} // verus!
