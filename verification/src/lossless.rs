//! Encoding loses nothing: what a reader of an encoded file sees is the image that was encoded.
use crate::decoder::{
    all_gray, any_transparent, limit_fault, palette_format, presented_file, Limits,
};
use crate::encoder::{
    bilevel_codes, cleaned16, cleaned8, color_of, entry_colors, reduced_shape, reductions16_shape,
    reductions8_shape, FileModel, PngEncoder,
};
use crate::error::Error;
use crate::layout::framable;
use crate::palette::{
    alpha_at, entry_alphas, flat_rgb, rgb_triples, trimmed, trimmed_is_no_longer,
    trimming_keeps_every_alpha, Entry, PngPalette,
};
use crate::pixels::{
    fills, holds_losslessly, in_range, widened, ImageRef, PixelFormat, SampleSlice,
};
use crate::reduce::{
    be_bytes_of, be_bytes_read_back, demotable, demoted, discovered, discovered_holds_each_once,
    gray, has_invisible_pixel, index_depth, indexed_reduction, ints16, ints8, opaque, ordered,
    ordered_is_a_sorted_rearrangement, pixel_inside, quad_alphas, quads, quads16, reductions16,
    reductions16_are_lossless, reductions8, reductions8_are_8_bit, reductions_are_lossless,
    rgb_samples, shown16, shown8, without_hidden_color, Quad, Quad16, ReducedModel, ReductionsModel,
};
use crate::shows::{
    a_written_file_presents, dimensions_fit, entry_quad, file_shows, indexed_parts_are_presented,
    pixel16, presents_pixels, reduced_format, reductions_are_presented, same_pixels_convert,
    stored_palette,
};
use vstd::prelude::*;

verus! {

/// Whether a reduction is on offer.
pub open spec fn is_offered(r: ReductionsModel, m: ReducedModel) -> bool {
    match r {
        ReductionsModel::Nothing => false,
        ReductionsModel::ChunkFree(a) => m == a,
        ReductionsModel::Chunked { chunked, chunk_free } => m == chunked || chunk_free == Some(m),
    }
}

/// Whether a layout has the channels of a sample count.
pub open spec fn has_channels(format: PixelFormat, channels: int) -> bool {
    &&& !(format is Bilevel)
    &&& !(format is Indexed8)
    &&& format.spec_is_color() == (channels >= 3)
    &&& format.spec_has_alpha() == (channels % 2 == 0)
    &&& 1 <= channels <= 4
}

/// A palette made of an image's pixels has colour and transparency only where the image has.
proof fn derived_palette_suits(q: Seq<Quad>)
    requires
        discovered(q).len() <= 256,
    ensures
        indexed_reduction(q) matches ReducedModel::Indexed { plte, trns, .. } && {
            let p = stored_palette(plte, trns);
            &&& gray(q) ==> all_gray(p.rgb)
            &&& opaque(q) ==> !any_transparent(p.alphas)
        },
{
    let entries = ordered(discovered(q));
    discovered_holds_each_once(q);
    ordered_is_a_sorted_rearrangement(discovered(q));
    let plte = rgb_samples(entries);
    let rgb = rgb_triples(plte);
    assert forall|k: int| 0 <= k < entries.len() implies q.contains(#[trigger] entries[k]) by {
        assert(entries.contains(entries[k]));
        assert(discovered(q).contains(entries[k]));
    }
    if gray(q) {
        assert forall|k: int| 0 <= k < rgb.len() implies (#[trigger] rgb[k])@[0] == rgb[k]@[1]
            && rgb[k]@[1] == rgb[k]@[2] by {
            assert(q.contains(entries[k]));
            let t = choose|t: int| 0 <= t < q.len() && q[t] == entries[k];
            assert(q[t].0 == q[t].1 && q[t].1 == q[t].2);
            assert((k * 3) / 3 == k && (k * 3) % 3 == 0);
            assert((k * 3 + 1) / 3 == k && (k * 3 + 1) % 3 == 1);
            assert((k * 3 + 2) / 3 == k && (k * 3 + 2) % 3 == 2);
            assert(rgb[k]@ =~= seq![plte[k * 3], plte[k * 3 + 1], plte[k * 3 + 2]]);
        }
    }
    let alphas = quad_alphas(entries);
    trimming_keeps_every_alpha(alphas);
    trimmed_is_no_longer(alphas);
    if opaque(q) {
        assert forall|i: int| 0 <= i < trimmed(alphas).len() implies trimmed(alphas)[i]
            == 255 by {
            assert(alpha_at(trimmed(alphas), i) == alpha_at(alphas, i));
            assert(q.contains(entries[i]));
            let t = choose|t: int| 0 <= t < q.len() && q[t] == entries[i];
            assert(q[t].3 == 255);
        }
    }
}

/// The reductions of an 8-bit image are presented in a layout that the image's own layout holds.
proof fn offered_layouts_are_held(q: Seq<Quad>, channels: int, m: ReducedModel, target: PixelFormat)
    requires
        is_offered(reductions8(q, channels), m),
        has_channels(target, channels),
        channels < 3 ==> gray(q),
        channels % 2 == 1 ==> opaque(q),
        q.len() * channels <= usize::MAX,
    ensures
        holds_losslessly(reduced_format(m), target),
{
    if m is Indexed {
        assert(m == indexed_reduction(q));
        assert(discovered(q).len() <= 256);
        derived_palette_suits(q);
    }
}

proof fn quads_of_a_layout(s: Seq<u8>, channels: int)
    requires
        1 <= channels <= 4,
    ensures
        channels < 3 ==> gray(quads(s, channels)),
        channels % 2 == 1 ==> opaque(quads(s, channels)),
{
}

/// A file that shows the pixels of an image shows its samples in the image's layout.
proof fn pixels_are_samples(
    f: FileModel,
    format: PixelFormat,
    target: PixelFormat,
    q: Seq<Quad16>,
    s: Seq<u16>,
)
    requires
        presents_pixels(f, format, q),
        holds_losslessly(format, target),
        in_range(target, s),
        s.len() == q.len() * target.spec_channels(),
        forall|i: int| 0 <= i < q.len() ==> #[trigger] pixel16(target, s, i) == q[i],
    ensures
        file_shows(f, target, s),
{
    let v = crate::decoder::presented(crate::roundtrip::native_from(f)).1;
    assert forall|i: int| 0 <= i < q.len() implies #[trigger] pixel16(format, v, i) == pixel16(
        target,
        s,
        i,
    ) by {
        assert(pixel16(target, s, i) == q[i]);
    }
    same_pixels_convert(format, target, v, s, q.len() as int);
}

/// Whatever the race picks, it is the plain file or a reduction on offer.
proof fn the_race_picks_a_candidate(
    e: PngEncoder,
    width: u32,
    height: u32,
    plain: FileModel,
    r: ReductionsModel,
)
    ensures
        ({
            let f = e.raced(width, height, plain, r);
            f == plain || exists|m: ReducedModel|
                is_offered(r, m) && f == #[trigger] e.reduced_file(width, height, m)
        }),
{
    match r {
        ReductionsModel::Nothing => {},
        ReductionsModel::ChunkFree(m) => {
            assert(is_offered(r, m));
        },
        ReductionsModel::Chunked { chunked, chunk_free } => {
            assert(is_offered(r, chunked));
            match chunk_free {
                Some(m) => {
                    assert(is_offered(r, m));
                },
                None => {},
            }
        },
    }
}

/// An 8-bit image, reduced or not, is presented as it was.
proof fn bytes_show_the_image(
    e: PngEncoder,
    width: u32,
    height: u32,
    format: PixelFormat,
    s: Seq<u8>,
)
    requires
        dimensions_fit(width, height),
        format is Gray8 || format is GrayAlpha8 || format is Rgb8 || format is Rgba8,
        fills(s.len(), format, width, height),
        s.len() <= usize::MAX,
    ensures
        file_shows(e.layout8(width, height, format, s), format, widened(s)),
{
    let ch = format.spec_channels();
    let q = quads(s, ch);
    let count = width * height;
    crate::encoder::pixel_count(width as int, height as int, ch);
    assert(q.len() == count);
    crate::shows::plain_bytes_are_presented(e, width, height, format, s);
    let plain = e.plain_file(width, height, color_of(format), 8, s);
    let r = reductions8(q, ch);
    if e.auto_reduce {
        the_race_picks_a_candidate(e, width, height, plain, r);
        let f = e.raced(width, height, plain, r);
        if f != plain {
            let m = choose|m: ReducedModel|
                is_offered(r, m) && f == #[trigger] e.reduced_file(width, height, m);
            reductions8_shape(q, ch);
            reductions_are_lossless(q, ch);
            reductions8_are_8_bit(q, ch);
            quads_of_a_layout(s, ch);
            offered_layouts_are_held(q, ch, m, format);
            reductions_are_presented(e, width, height, m);
            let shown = shown16(m);
            assert(shown8(m) == q);
            assert forall|i: int| 0 <= i < shown.len() implies #[trigger] pixel16(
                format,
                widened(s),
                i,
            ) == shown[i] by {
                crate::shows::plain_pixels8(format, s, i);
                assert(shown[i] == crate::reduce::widened(q[i]));
            }
            pixels_are_samples(f, reduced_format(m), format, shown, widened(s));
        }
    }
}

proof fn quads16_of_a_layout(s: Seq<u16>, channels: int)
    requires
        1 <= channels <= 4,
    ensures
        channels % 2 == 1 ==> crate::reduce::opaque16(quads16(s, channels)),
{
}

/// The reductions of a 16-bit image are presented in a layout that the image's own layout holds.
proof fn offered_layouts_are_held16(
    s: Seq<u16>,
    channels: int,
    m: ReducedModel,
    target: PixelFormat,
    count: int,
)
    requires
        is_offered(reductions16(s, channels), m),
        has_channels(target, channels),
        target.spec_is_wide(),
        count >= 1,
        s.len() == count * channels,
        s.len() <= usize::MAX,
    ensures
        holds_losslessly(reduced_format(m), target),
{
    quads16_of_a_layout(s, channels);
    if demotable(s) {
        let d = demoted(s);
        let q = quads(d, channels);
        assert(count * channels / channels == count) by (nonlinear_arith)
            requires
                channels >= 1,
        ;
        quads_of_a_layout(d, channels);
        if is_offered(reductions8(q, channels), m) {
            offered_layouts_are_held(q, channels, m, target);
        } else {
            assert(m == crate::reduce::plain_demotion(d, channels));
        }
    }
}

/// A 16-bit image, reduced or not, is presented as it was.
#[verifier::rlimit(60)]
proof fn words_show_the_image(
    e: PngEncoder,
    width: u32,
    height: u32,
    format: PixelFormat,
    s: Seq<u16>,
)
    requires
        dimensions_fit(width, height),
        format.spec_is_wide(),
        fills(s.len(), format, width, height),
        s.len() <= usize::MAX,
    ensures
        file_shows(e.layout16(width, height, format, s), format, s),
{
    let ch = format.spec_channels();
    let count = width * height;
    crate::encoder::pixel_count(width as int, height as int, ch);
    be_bytes_read_back(s);
    crate::shows::plain_words_are_presented(e, width, height, format, be_bytes_of(s));
    let plain = e.plain_file(width, height, color_of(format), 16, be_bytes_of(s));
    let r = reductions16(s, ch);
    if e.auto_reduce {
        the_race_picks_a_candidate(e, width, height, plain, r);
        let f = e.raced(width, height, plain, r);
        if f != plain {
            let m = choose|m: ReducedModel|
                is_offered(r, m) && f == #[trigger] e.reduced_file(width, height, m);
            reductions16_shape(s, ch, count);
            reductions16_are_lossless(s, ch);
            offered_layouts_are_held16(s, ch, m, format, count);
            reductions_are_presented(e, width, height, m);
            let shown = shown16(m);
            assert(shown == quads16(s, ch));
            assert forall|i: int| 0 <= i < shown.len() implies #[trigger] pixel16(format, s, i)
                == shown[i] by {
                crate::shows::plain_pixels16(format, s, i);
            }
            pixels_are_samples(f, reduced_format(m), format, shown, s);
        }
    }
}

/// The samples a reader of an encoded image sees: its own, unless clearing the colour of fully
/// transparent pixels made a smaller file. Bilevel samples are codes.
pub open spec fn kept_samples(e: PngEncoder, image: ImageRef<'_>) -> Seq<u16> {
    let (w, h, format) = (image.spec_width(), image.spec_height(), image.spec_format());
    let channels = format.spec_channels();
    match image.spec_samples() {
        SampleSlice::B8(s) => if format is Bilevel {
            widened(bilevel_codes(s@))
        } else if e.clean_transparent && has_invisible_pixel(ints8(s@), channels) && e.file_of(
            e.layout8(w, h, format, cleaned8(s@, channels)),
        ).len() < e.file_of(e.layout8(w, h, format, s@)).len() {
            widened(cleaned8(s@, channels))
        } else {
            widened(s@)
        },
        SampleSlice::B16(s) => if e.clean_transparent && has_invisible_pixel(ints16(s@), channels)
            && e.file_of(e.layout16(w, h, format, cleaned16(s@, channels))).len() < e.file_of(
            e.layout16(w, h, format, s@),
        ).len() {
            cleaned16(s@, channels)
        } else {
            s@
        },
    }
}

/// Without transparent cleanup every layout but bilevel keeps every sample.
pub proof fn samples_are_kept_without_cleanup(e: PngEncoder, image: ImageRef<'_>)
    requires
        image.wf(),
        !e.clean_transparent,
        !(image.spec_format() is Bilevel),
    ensures
        kept_samples(e, image) == image.values(),
{
}

/// Whether sample `at` is a colour sample of a pixel whose alpha is zero.
pub open spec fn is_hidden_color(samples: Seq<u16>, channels: int, at: int) -> bool {
    &&& channels % 2 == 0
    &&& at % channels < channels - 1
    &&& samples[at / channels * channels + channels - 1] == 0
}

proof fn cleaning_spares_what_shows(samples: Seq<int>, channels: int, at: int)
    requires
        1 <= channels,
        0 <= at < samples.len(),
    ensures
        without_hidden_color(samples, channels).len() == samples.len(),
        without_hidden_color(samples, channels)[at] != samples[at] ==> {
            let alpha = at / channels * channels + channels - 1;
            &&& at % channels < channels - 1
            &&& 0 <= alpha < samples.len()
            &&& samples[alpha] == 0
            &&& without_hidden_color(samples, channels)[at] == 0
        },
{
    vstd::arithmetic::div_mod::lemma_div_pos_is_pos(at, channels);
    if at / channels < samples.len() as int / channels {
        pixel_inside(samples.len() as int, channels, at / channels);
    }
}

proof fn kept_are_cleaned_or_own(e: PngEncoder, image: ImageRef<'_>)
    requires
        !(image.spec_format() is Bilevel),
    ensures
        ({
            let channels = image.spec_format().spec_channels();
            let kept = kept_samples(e, image);
            ||| kept == image.values()
            ||| e.clean_transparent && channels % 2 == 0 && kept == match image.spec_samples() {
                SampleSlice::B8(s) => widened(cleaned8(s@, channels)),
                SampleSlice::B16(s) => cleaned16(s@, channels),
            }
        }),
{
}

/// What a reader of an encoded image sees differs from the image at most in colour samples of pixels
/// whose alpha is zero, where it sees zero, and without transparent cleanup nowhere. Bilevel samples are left out: their codes are what is kept.
pub proof fn only_hidden_color_may_change(e: PngEncoder, image: ImageRef<'_>, at: int)
    requires
        !(image.spec_format() is Bilevel),
        0 <= at < image.values().len(),
    ensures
        kept_samples(e, image).len() == image.values().len(),
        kept_samples(e, image)[at] != image.values()[at] ==> {
            &&& e.clean_transparent
            &&& is_hidden_color(image.values(), image.spec_format().spec_channels(), at)
            &&& kept_samples(e, image)[at] == 0
        },
{
    let channels = image.spec_format().spec_channels();
    let kept = kept_samples(e, image);
    let values = image.values();
    kept_are_cleaned_or_own(e, image);
    if kept != values {
        let samples = match image.spec_samples() {
            SampleSlice::B8(s) => ints8(s@),
            SampleSlice::B16(s) => ints16(s@),
        };
        cleaning_spares_what_shows(samples, channels, at);
        assert(samples.len() == values.len());
        assert(forall|i: int| 0 <= i < samples.len() ==> samples[i] == #[trigger] values[i]);
        assert(kept[at] == without_hidden_color(samples, channels)[at]);
    }
}

/// A bilevel image is presented as its codes.
proof fn codes_show_the_image(e: PngEncoder, width: u32, height: u32, s: Seq<u8>)
    requires
        dimensions_fit(width, height),
        fills(s.len(), PixelFormat::Bilevel, width, height),
    ensures
        file_shows(
            e.plain_file(
                width,
                height,
                crate::color::ColorType::Grayscale,
                1,
                crate::pack::packed(bilevel_codes(s), width as int, height as int, 1),
            ),
            PixelFormat::Bilevel,
            widened(bilevel_codes(s)),
        ),
{
    let codes = bilevel_codes(s);
    assert(width * height * 1 == width * height);
    let m = ReducedModel::Gray { depth: 1, samples: codes };
    assert forall|i: int| 0 <= i < codes.len() implies (#[trigger] codes[i]) < 2 by {}
    assert(reduced_shape(m, width * height));
    reductions_are_presented(e, width, height, m);
    let f = e.reduced_file(width, height, m);
    let shown = shown16(m);
    let v = widened(codes);
    assert(v.len() == shown.len());
    assert forall|i: int| 0 <= i < shown.len() implies #[trigger] pixel16(
        PixelFormat::Bilevel,
        v,
        i,
    ) == shown[i] by {
        assert(i * 1 == i);
        assert(shown[i] == crate::reduce::widened(shown8(m)[i]));
        assert(codes[i] == 0 || codes[i] == 1);
    }
    assert forall|i: int| 0 <= i < v.len() implies (#[trigger] v[i]) <= 1 by {
        assert(codes[i] == 0 || codes[i] == 1);
    }
    pixels_are_samples(f, PixelFormat::Bilevel, PixelFormat::Bilevel, shown, v);
}

proof fn an_encoded_image_shows_itself(e: PngEncoder, image: ImageRef<'_>)
    requires
        image.wf(),
        !(image.spec_format() is Indexed8),
        dimensions_fit(image.spec_width(), image.spec_height()),
        image.values().len() <= usize::MAX,
    ensures
        file_shows(e.encoded(image), image.spec_format(), kept_samples(e, image)),
{
    let (w, h, format) = (image.spec_width(), image.spec_height(), image.spec_format());
    let ch = format.spec_channels();
    match image.spec_samples() {
        SampleSlice::B8(s) => {
            if format is Bilevel {
                codes_show_the_image(e, w, h, s@);
            } else {
                bytes_show_the_image(e, w, h, format, s@);
                bytes_show_the_image(e, w, h, format, cleaned8(s@, ch));
            }
        },
        SampleSlice::B16(s) => {
            words_show_the_image(e, w, h, format, s@);
            words_show_the_image(e, w, h, format, cleaned16(s@, ch));
        },
    }
}

/// Decoding an encoded image gives its samples back, in the image's own layout, under every limit
/// that admits the file: whatever the filter, the compression level, the ancillary chunks and the
/// reductions. The image data must inflate back, which [`PngEncoder::encode_image`] ensures, and
/// every chunk payload must be one a chunk can hold.
pub proof fn an_encoded_image_decodes_to_itself(e: PngEncoder, image: ImageRef<'_>, l: Limits)
    requires
        image.wf(),
        !(image.spec_format() is Indexed8),
        dimensions_fit(image.spec_width(), image.spec_height()),
        image.values().len() <= usize::MAX,
        e.file_restores(e.encoded(image)),
        framable(e.file_pairs(e.encoded(image))),
        limit_fault(l, e.encoded(image).header) is None,
    ensures
        presented_file(l, e.file_of(e.encoded(image)), image.spec_format()) == Ok::<
            Seq<u16>,
            Error,
        >(kept_samples(e, image)),
{
    an_encoded_image_shows_itself(e, image);
    a_written_file_presents(
        e,
        e.encoded(image),
        l,
        image.spec_format(),
        kept_samples(e, image),
    );
}

/// Decoding an encoded image gives every sample of it back, but for colour that transparent cleanup
/// took from pixels whose alpha is zero.
pub proof fn decoding_shows_what_could_be_seen(
    e: PngEncoder,
    image: ImageRef<'_>,
    l: Limits,
    at: int,
)
    requires
        image.wf(),
        !(image.spec_format() is Indexed8),
        !(image.spec_format() is Bilevel),
        dimensions_fit(image.spec_width(), image.spec_height()),
        image.values().len() <= usize::MAX,
        e.file_restores(e.encoded(image)),
        framable(e.file_pairs(e.encoded(image))),
        limit_fault(l, e.encoded(image).header) is None,
        0 <= at < image.values().len(),
    ensures
        presented_file(l, e.file_of(e.encoded(image)), image.spec_format()) matches Ok(seen) && {
            &&& seen.len() == image.values().len()
            &&& seen[at] != image.values()[at] ==> e.clean_transparent && is_hidden_color(
                image.values(),
                image.spec_format().spec_channels(),
                at,
            )
        },
{
    an_encoded_image_decodes_to_itself(e, image, l);
    only_hidden_color_may_change(e, image, at);
}

/// Red, green, blue and alpha of the palette entries that indices name, interleaved.
pub open spec fn named_colors(indices: Seq<u8>, palette: PngPalette) -> Seq<u16> {
    Seq::new(
        indices.len() * 4,
        |j: int|
            {
                let entry = palette.entries()[indices[j / 4] as int];
                if j % 4 == 3 {
                    entry.1 as u16
                } else {
                    entry.0@[j % 4] as u16
                }
            },
    )
}

proof fn kept_entries_hold_what_is_named(entries: Seq<Entry>, used: Seq<bool>, n: int)
    requires
        0 <= n <= entries.len(),
        n <= used.len(),
    ensures
        crate::palette::kept_entries(entries, used, n).len() <= n,
        forall|i: int|
            0 <= i < n && #[trigger] used[i] ==> crate::palette::kept_entries(
                entries,
                used,
                n,
            ).contains(entries[i]),
    decreases n,
{
    if n > 0 {
        kept_entries_hold_what_is_named(entries, used, n - 1);
        let before = crate::palette::kept_entries(entries, used, n - 1);
        let kept = crate::palette::kept_entries(entries, used, n);
        assert forall|i: int| 0 <= i < n && #[trigger] used[i] implies kept.contains(
            entries[i],
        ) by {
            if i < n - 1 {
                assert(before.contains(entries[i]));
                let k = choose|k: int| 0 <= k < before.len() && before[k] == entries[i];
                assert(kept[k] == entries[i]);
            } else if !before.contains(entries[i]) {
                assert(kept[before.len() as int] == entries[i]);
            }
        }
    }
}

/// The renumbered indices name, in the cleaned palette, what they named before.
proof fn moved_indices_name_the_same(entries: Seq<Entry>, named: Seq<bool>, indices: Seq<u8>)
    requires
        1 <= entries.len() <= 256,
        named.len() == 256,
        forall|i: int|
            0 <= i < indices.len() ==> (#[trigger] indices[i]) < entries.len()
                && named[indices[i] as int],
    ensures
        ({
            let kept = crate::palette::kept_entries(entries, named, entries.len() as int);
            let moved = indices.map_values(
                |i: u8| crate::encoder::new_index(entries, kept, i as int),
            );
            &&& kept.len() <= entries.len()
            &&& indices.len() > 0 ==> kept.len() >= 1
            &&& forall|i: int|
                0 <= i < indices.len() ==> (#[trigger] moved[i]) < kept.len()
                    && kept[moved[i] as int] == entries[indices[i] as int]
        }),
{
    let kept = crate::palette::kept_entries(entries, named, entries.len() as int);
    let moved = indices.map_values(|i: u8| crate::encoder::new_index(entries, kept, i as int));
    kept_entries_hold_what_is_named(entries, named, entries.len() as int);
    assert forall|i: int| 0 <= i < indices.len() implies (#[trigger] moved[i]) < kept.len()
        && kept[moved[i] as int] == entries[indices[i] as int] by {
        assert(named[indices[i] as int]);
        assert(kept.contains(entries[indices[i] as int]));
        let k = kept.index_of(entries[indices[i] as int]);
        assert(0 <= k < kept.len() && kept[k] == entries[indices[i] as int]);
    }
    if indices.len() > 0 {
        assert(moved[0] < kept.len());
    }
}

/// The alphas that a stored palette's tRNS gives back.
pub open spec fn stored_alphas(kept: Seq<Entry>) -> Option<Seq<u8>> {
    if trimmed(entry_alphas(kept)).len() == 0 {
        None
    } else {
        Some(trimmed(entry_alphas(kept)))
    }
}

/// A palette read back from its PLTE and tRNS holds every entry that was written.
proof fn stored_entries_are_kept(kept: Seq<Entry>, k: int)
    requires
        0 <= k < kept.len(),
    ensures
        ({
            let p = stored_palette(flat_rgb(entry_colors(kept)), stored_alphas(kept));
            entry_quad(p, k) == (kept[k].0@[0], kept[k].0@[1], kept[k].0@[2], kept[k].1)
        }),
{
    let colors = entry_colors(kept);
    let plte = flat_rgb(colors);
    let p = stored_palette(plte, stored_alphas(kept));
    let entry = kept[k];
    trimming_keeps_every_alpha(entry_alphas(kept));
    assert(p.alphas =~= trimmed(entry_alphas(kept)));
    assert((k * 3) / 3 == k && (k * 3) % 3 == 0);
    assert((k * 3 + 1) / 3 == k && (k * 3 + 1) % 3 == 1);
    assert((k * 3 + 2) / 3 == k && (k * 3 + 2) % 3 == 2);
    assert(colors[k] == entry.0);
    assert(p.rgb[k]@ =~= seq![entry.0@[0], entry.0@[1], entry.0@[2]]);
    assert(alpha_at(p.alphas, k) == alpha_at(entry_alphas(kept), k));
}

/// Pixel `i` of the colours that indices name.
proof fn named_pixel(indices: Seq<u8>, palette: PngPalette, i: int)
    requires
        0 <= i < indices.len(),
    ensures
        ({
            let entry = palette.entries()[indices[i] as int];
            pixel16(PixelFormat::Rgba8, named_colors(indices, palette), i) == crate::reduce::widened(
                (entry.0@[0], entry.0@[1], entry.0@[2], entry.1),
            )
        }),
{
    assert((i * 4) / 4 == i && (i * 4) % 4 == 0);
    assert((i * 4 + 1) / 4 == i && (i * 4 + 1) % 4 == 1);
    assert((i * 4 + 2) / 4 == i && (i * 4 + 2) % 4 == 2);
    assert((i * 4 + 3) / 4 == i && (i * 4 + 3) % 4 == 3);
}

/// Decoding an indexed image shows, at every pixel, the colour and alpha of the entry that the pixel
/// named in the palette supplied, though the palette was cleaned and the indices renumbered.
pub proof fn an_indexed_image_keeps_its_colors(
    e: PngEncoder,
    width: u32,
    height: u32,
    indices: Seq<u8>,
    palette: PngPalette,
    l: Limits,
)
    requires
        dimensions_fit(width, height),
        indices.len() == width * height,
        palette.wf(),
        forall|i: int| 0 <= i < indices.len() ==> (#[trigger] indices[i]) < palette.colors().len(),
        e.file_restores(e.indexed_file(width, height, indices, palette)),
        framable(e.file_pairs(e.indexed_file(width, height, indices, palette))),
        limit_fault(l, e.indexed_file(width, height, indices, palette).header) is None,
    ensures
        presented_file(
            l,
            e.file_of(e.indexed_file(width, height, indices, palette)),
            PixelFormat::Rgba8,
        ) == Ok::<Seq<u16>, Error>(named_colors(indices, palette)),
{
    let f = e.indexed_file(width, height, indices, palette);
    let entries = palette.entries();
    let kept = e.written_entries(indices, palette);
    let named = crate::encoder::named_entries(indices, e.background_entry(palette));
    let depth = index_depth(kept.len());
    let plte = flat_rgb(entry_colors(kept));
    let moved = indices.map_values(|i: u8| crate::encoder::new_index(entries, kept, i as int));
    assert forall|i: int| 0 <= i < indices.len() implies (#[trigger] indices[i]) < entries.len()
        && named[indices[i] as int] by {
        assert(indices.contains(indices[i]));
    }
    moved_indices_name_the_same(entries, named, indices);
    assert(width * height >= 1) by (nonlinear_arith)
        requires
            width >= 1,
            height >= 1,
    ;
    trimmed_is_no_longer(entry_alphas(kept));
    let m = ReducedModel::Indexed { depth, indices: moved, plte, trns: f.trns };
    assert(f.trns == stored_alphas(kept));
    assert(plte.len() == 3 * kept.len());
    assert(reduced_shape(m, width * height));
    indexed_parts_are_presented(f, depth, moved, plte, f.trns);
    let p = stored_palette(plte, f.trns);
    let q = moved.map_values(|i: u8| crate::reduce::widened(entry_quad(p, i as int)));
    let s = named_colors(indices, palette);
    assert forall|i: int| 0 <= i < q.len() implies #[trigger] pixel16(PixelFormat::Rgba8, s, i)
        == q[i] by {
        assert(kept[moved[i] as int] == entries[indices[i] as int]);
        stored_entries_are_kept(kept, moved[i] as int);
        named_pixel(indices, palette, i);
    }
    pixels_are_samples(f, palette_format(p), PixelFormat::Rgba8, q, s);
    a_written_file_presents(e, f, l, PixelFormat::Rgba8, s);
}

} // verus!
