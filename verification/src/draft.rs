//! The files that an encode weighs against each other, before any of them is compressed.
//!
//! An image may be written in more than one way: with hidden colour cleaned or not, and each of these
//! under the reductions that are on offer or as it is. A draft holds all of these files in the order in
//! which they are written, and the smallest finished file is kept.
use crate::adam7::row_len;
use crate::bytes::append;
use crate::canvas::stride_of;
use crate::color::ColorType;
use crate::encoder::{
    bilevel_codes, byte_row_shape, clean_transparent16, cleaned16, cleaned8, cleaned_bytes, color_for,
    color_of, copied, keep_smaller, pixel_count, prefers_plain, reductions16_shape, reductions8_shape,
    reductions_shape, FileModel, FileParts, PngEncoder,
};
use crate::pack::packed;
use crate::pixels::{fills, ImageRef, PixelFormat, SampleSlice};
use crate::reduce::{
    analyze16, analyze8, be_bytes, be_bytes_of, clean_transparent, has_invisible_pixel, ints16, ints8,
    quads, reductions16, reductions8, Reductions, ReductionsModel,
};
use vstd::prelude::*;

verus! {

/// The files of an image, to be written in order: those with hidden colour cleaned, if there is any to
/// clean, and those without.
pub struct DraftModel {
    pub cleaned: Seq<FileModel>,
    pub plain: Seq<FileModel>,
}

impl DraftModel {
    /// All files in the order in which they are written.
    pub open spec fn files(&self) -> Seq<FileModel> {
        self.cleaned + self.plain
    }
}

/// [`DraftModel`] in memory.
#[derive(Debug)]
pub struct Draft {
    /// The files with hidden colour cleaned.
    pub cleaned: Vec<FileParts>,
    /// The files of the image as it is.
    pub plain: Vec<FileParts>,
}

/// Some files as values.
pub open spec fn models(files: Seq<FileParts>) -> Seq<FileModel> {
    files.map_values(|f: FileParts| f@)
}

/// Whether every file can be written.
pub open spec fn all_wf(files: Seq<FileParts>) -> bool {
    forall|i: int| 0 <= i < files.len() ==> (#[trigger] files[i]).wf()
}

impl View for Draft {
    type V = DraftModel;

    open spec fn view(&self) -> DraftModel {
        DraftModel { cleaned: models(self.cleaned@), plain: models(self.plain@) }
    }
}

impl Draft {
    /// There is a file to write, every file can be written, and there are no more than three on a side.
    pub open spec fn wf(&self) -> bool {
        &&& all_wf(self.cleaned@)
        &&& all_wf(self.plain@)
        &&& self.cleaned@.len() <= 3
        &&& 1 <= self.plain@.len() <= 3
    }

    /// How many files there are.
    pub fn count(&self) -> (count: usize)
        requires
            self.wf(),
        ensures
            count == self@.files().len(),
    {
        self.cleaned.len() + self.plain.len()
    }

    /// The file at a place in the order of writing.
    pub fn file(&self, place: usize) -> (file: &FileParts)
        requires
            self.wf(),
            place < self@.files().len(),
        ensures
            file.wf(),
            file@ == self@.files()[place as int],
    {
        if place < self.cleaned.len() {
            &self.cleaned[place]
        } else {
            &self.plain[place - self.cleaned.len()]
        }
    }
}

/// The first of the smallest of some files.
pub open spec fn smallest(files: Seq<Seq<u8>>) -> Seq<u8>
    decreases files.len(),
{
    if files.len() <= 1 {
        files.last()
    } else {
        let before = smallest(files.drop_last());
        if files.last().len() < before.len() {
            files.last()
        } else {
            before
        }
    }
}

impl PngEncoder {
    /// The files that reductions put into a race: a chunk-carrying reduction, its chunk-free runner-up
    /// and the image as it arrived, or the one file that needs none.
    pub open spec fn contenders(
        &self,
        width: u32,
        height: u32,
        plain: FileModel,
        reductions: ReductionsModel,
    ) -> Seq<FileModel> {
        match reductions {
            ReductionsModel::Nothing => seq![plain],
            ReductionsModel::ChunkFree(m) => seq![self.reduced_file(width, height, m)],
            ReductionsModel::Chunked { chunked, chunk_free } => seq![
                self.reduced_file(width, height, chunked),
            ] + (match chunk_free {
                Some(m) => seq![self.reduced_file(width, height, m)],
                None => Seq::empty(),
            }) + seq![plain],
        }
    }

    /// The files of 8-bit samples in a layout.
    pub open spec fn contenders8(
        &self,
        width: u32,
        height: u32,
        format: PixelFormat,
        samples: Seq<u8>,
    ) -> Seq<FileModel> {
        let plain = self.plain_file(width, height, color_of(format), 8, samples);
        let channels = format.spec_channels();
        if self.auto_reduce {
            self.contenders(width, height, plain, reductions8(quads(samples, channels), channels))
        } else {
            seq![plain]
        }
    }

    /// The files of 16-bit samples in a layout.
    pub open spec fn contenders16(
        &self,
        width: u32,
        height: u32,
        format: PixelFormat,
        samples: Seq<u16>,
    ) -> Seq<FileModel> {
        let plain = self.plain_file(width, height, color_of(format), 16, be_bytes_of(samples));
        if self.auto_reduce {
            self.contenders(width, height, plain, reductions16(samples, format.spec_channels()))
        } else {
            seq![plain]
        }
    }

    /// The files that an encode of an image weighs.
    #[verifier::opaque]
    pub open spec fn drafted(&self, image: ImageRef<'_>) -> DraftModel {
        let (w, h, format) = (image.spec_width(), image.spec_height(), image.spec_format());
        let channels = format.spec_channels();
        match image.spec_samples() {
            SampleSlice::B8(s) => if format is Bilevel {
                DraftModel {
                    cleaned: Seq::empty(),
                    plain: seq![
                        self.plain_file(
                            w,
                            h,
                            ColorType::Grayscale,
                            1,
                            packed(bilevel_codes(s@), w as int, h as int, 1),
                        ),
                    ],
                }
            } else {
                DraftModel {
                    cleaned: if self.clean_transparent && has_invisible_pixel(ints8(s@), channels) {
                        self.contenders8(w, h, format, cleaned8(s@, channels))
                    } else {
                        Seq::empty()
                    },
                    plain: self.contenders8(w, h, format, s@),
                }
            },
            SampleSlice::B16(s) => DraftModel {
                cleaned: if self.clean_transparent && has_invisible_pixel(ints16(s@), channels) {
                    self.contenders16(w, h, format, cleaned16(s@, channels))
                } else {
                    Seq::empty()
                },
                plain: self.contenders16(w, h, format, s@),
            },
        }
    }

    /// Finished files around image data streams, one for each.
    pub open spec fn finished(&self, files: Seq<FileModel>, streams: Seq<Seq<u8>>) -> Seq<Seq<u8>> {
        Seq::new(files.len(), |i: int| self.file_around(files[i], streams[i]))
    }

    /// The file that is kept of a draft: the first of the smallest of each side, and of these the
    /// smaller, the one that is not cleaned on a tie.
    pub open spec fn kept_file(&self, draft: DraftModel, streams: Seq<Seq<u8>>) -> Seq<u8> {
        let n = draft.cleaned.len() as int;
        let plain = smallest(
            self.finished(draft.plain, streams.subrange(n, n + draft.plain.len())),
        );
        if n == 0 {
            plain
        } else {
            let cleaned = smallest(self.finished(draft.cleaned, streams.subrange(0, n)));
            if plain.len() <= cleaned.len() {
                plain
            } else {
                cleaned
            }
        }
    }

    /// The files that reductions put into a race.
    fn contend(
        &self,
        width: u32,
        height: u32,
        color: ColorType,
        bit_depth: u8,
        bytes: Vec<u8>,
        reductions: Reductions,
    ) -> (files: Vec<FileParts>)
        requires
            color.spec_allows(bit_depth),
            width >= 1,
            height >= 1,
            bytes@.len() == height * row_len(
                width as int,
                color.spec_channels() * bit_depth,
            ),
            reductions_shape(reductions@, width * height),
        ensures
            all_wf(files@),
            models(files@) == self.contenders(
                width,
                height,
                self.plain_file(width, height, color, bit_depth, bytes@),
                reductions@,
            ),
    {
        let ghost plain = self.plain_file(width, height, color, bit_depth, bytes@);
        let mut files: Vec<FileParts> = Vec::new();
        match reductions {
            Reductions::Nothing => {
                files.push(self.plain_parts(width, height, color, bit_depth, bytes, None));
            },
            Reductions::ChunkFree(reduced) => {
                files.push(self.reduced_parts(width, height, reduced));
            },
            Reductions::Chunked { chunked, chunk_free } => {
                files.push(self.reduced_parts(width, height, chunked));
                match chunk_free {
                    Some(free) => {
                        files.push(self.reduced_parts(width, height, free));
                    },
                    None => {},
                }
                files.push(self.plain_parts(width, height, color, bit_depth, bytes, None));
            },
        }
        assert(models(files@) =~= self.contenders(width, height, plain, reductions@));
        files
    }

    fn contend8(&self, width: u32, height: u32, format: PixelFormat, samples: &[u8]) -> (files: Vec<
        FileParts,
    >)
        requires
            width >= 1,
            height >= 1,
            !format.spec_is_wide(),
            !(format is Bilevel),
            !(format is Indexed8),
            fills(samples@.len(), format, width, height),
        ensures
            all_wf(files@),
            models(files@) == self.contenders8(width, height, format, samples@),
    {
        let channels: usize = format.channels();
        let color: ColorType = color_for(format);
        let bytes: Vec<u8> = copied(samples);
        assert(bytes.len() == samples@.len());
        proof {
            byte_row_shape(width as int, height as int, channels as int, 8);
            pixel_count(width as int, height as int, channels as int);
        }
        let reductions: Reductions = if self.auto_reduce {
            analyze8(samples, channels)
        } else {
            Reductions::Nothing
        };
        proof {
            reductions8_shape(quads(samples@, channels as int), channels as int);
        }
        self.contend(width, height, color, 8, bytes, reductions)
    }

    fn contend16(&self, width: u32, height: u32, format: PixelFormat, samples: &[u16]) -> (files: Vec<
        FileParts,
    >)
        requires
            width >= 1,
            height >= 1,
            format.spec_is_wide(),
            fills(samples@.len(), format, width, height),
        ensures
            all_wf(files@),
            models(files@) == self.contenders16(width, height, format, samples@),
    {
        let channels: usize = format.channels();
        let color: ColorType = color_for(format);
        let count: usize = samples.len();
        let bytes: Vec<u8> = be_bytes(samples);
        proof {
            byte_row_shape(width as int, height as int, channels as int, 16);
            pixel_count(width as int, height as int, channels as int);
        }
        let reductions: Reductions = if self.auto_reduce {
            analyze16(samples, channels)
        } else {
            Reductions::Nothing
        };
        proof {
            reductions16_shape(samples@, channels as int, width * height);
        }
        self.contend(width, height, color, 16, bytes, reductions)
    }

    /// Drafts the files that an encode of an image weighs.
    pub fn draft(&self, image: &ImageRef<'_>) -> (draft: Draft)
        requires
            image.wf(),
            !(image.spec_format() is Indexed8),
        ensures
            draft.wf(),
            draft@ == self.drafted(*image),
    {
        let (width, height, format): (u32, u32, PixelFormat) = (
            image.width(),
            image.height(),
            image.format(),
        );
        let channels: usize = format.channels();
        let mut cleaned: Vec<FileParts> = Vec::new();
        let plain: Vec<FileParts> = match image.samples() {
            SampleSlice::B8(samples) => {
                if let PixelFormat::Bilevel = format {
                    assert(width * height * 1 == width * height);
                    vec![self.bilevel_parts(width, height, samples)]
                } else {
                    if self.clean_transparent {
                        if let Some(visible) = clean_transparent(samples, channels) {
                            proof {
                                cleaned_bytes(samples@, channels as int, visible@);
                            }
                            cleaned = self.contend8(width, height, format, visible.as_slice());
                        }
                    }
                    self.contend8(width, height, format, samples)
                }
            },
            SampleSlice::B16(samples) => {
                if self.clean_transparent {
                    if let Some(visible) = clean_transparent16(samples, channels) {
                        cleaned = self.contend16(width, height, format, visible.as_slice());
                    }
                }
                self.contend16(width, height, format, samples)
            },
        };
        let draft: Draft = Draft { cleaned, plain };
        reveal(PngEncoder::drafted);
        assert(draft@.cleaned =~= self.drafted(*image).cleaned);
        assert(draft@.plain =~= self.drafted(*image).plain);
        assert(draft.plain@.len() == draft@.plain.len());
        assert(draft.cleaned@.len() == draft@.cleaned.len());
        draft
    }

    /// Finishes some files around the streams from `from` on, and keeps the first of the smallest.
    fn finish_smallest(&self, files: &Vec<FileParts>, streams: &Vec<Vec<u8>>, from: usize) -> (best:
        Vec<u8>)
        requires
            all_wf(files@),
            files@.len() >= 1,
            from + files@.len() <= streams@.len(),
        ensures
            best@ == smallest(
                self.finished(
                    models(files@),
                    stream_bytes(streams@).subrange(from as int, from + files@.len()),
                ),
            ),
            self.ancillary.profile_inflates(self.effort),
            self.ancillary.texts_inflate(self.effort),
    {
        let ghost own = stream_bytes(streams@).subrange(from as int, from + files@.len());
        let ghost all = self.finished(models(files@), own);
        let count: usize = streams.len();
        let mut best: Vec<u8> = Vec::new();
        self.write_around(&files[0], streams[from].as_slice(), &mut best);
        proof {
            assert(all[0] == self.file_around(files@[0]@, streams@[from as int]@));
            assert(all.take(1).last() == all[0]);
            assert(best@ =~= all[0]);
        }
        let mut i: usize = 1;
        while i < files.len()
            invariant
                1 <= i <= files@.len(),
                all_wf(files@),
                from + files@.len() <= count == streams@.len(),
                own == stream_bytes(streams@).subrange(from as int, from + files@.len()),
                all == self.finished(models(files@), own),
                best@ == smallest(all.take(i as int)),
                self.ancillary.profile_inflates(self.effort),
                self.ancillary.texts_inflate(self.effort),
            decreases files@.len() - i,
        {
            let mut next: Vec<u8> = Vec::new();
            self.write_around(&files[i], streams[from + i].as_slice(), &mut next);
            proof {
                assert(all[i as int] == self.file_around(
                    files@[i as int]@,
                    streams@[from + i]@,
                ));
                assert(next@ =~= all[i as int]);
                assert(all.take(i + 1).drop_last() =~= all.take(i as int));
                assert(all.take(i + 1).last() == all[i as int]);
            }
            best = keep_smaller(best, next);
            i += 1;
        }
        assert(all.take(i as int) =~= all);
        best
    }

    /// Finishes the files of a draft around their image data streams and appends the one that is kept.
    /// Returns the number of bytes appended.
    pub fn finish(&self, draft: &Draft, streams: &Vec<Vec<u8>>, out: &mut Vec<u8>) -> (size: usize)
        requires
            draft.wf(),
            streams@.len() == draft@.files().len(),
        ensures
            final(out)@ == old(out)@ + self.kept_file(draft@, stream_bytes(streams@)),
            size == self.kept_file(draft@, stream_bytes(streams@)).len(),
            self.ancillary.profile_inflates(self.effort),
            self.ancillary.texts_inflate(self.effort),
    {
        let n: usize = draft.cleaned.len();
        let plain: Vec<u8> = self.finish_smallest(&draft.plain, streams, n);
        if n == 0 {
            append(out, plain.as_slice());
            return plain.len();
        }
        let cleaned: Vec<u8> = self.finish_smallest(&draft.cleaned, streams, 0);
        if prefers_plain(plain.len(), cleaned.len()) {
            append(out, plain.as_slice());
            plain.len()
        } else {
            append(out, cleaned.as_slice());
            cleaned.len()
        }
    }
}

/// Streams as values.
pub open spec fn stream_bytes(streams: Seq<Vec<u8>>) -> Seq<Seq<u8>> {
    streams.map_values(|s: Vec<u8>| s@)
}

/// Whether streams are those the encoder itself makes of the rows of files.
pub open spec fn are_own_streams(e: PngEncoder, files: Seq<FileModel>, streams: Seq<Seq<u8>>) -> bool {
    &&& streams.len() == files.len()
    &&& forall|i: int|
        0 <= i < files.len() ==> #[trigger] streams[i] == e.idat_stream(
            files[i].bytes,
            row_len(files[i].header.width as int, files[i].header.spec_bits_per_pixel()),
            stride_of(files[i].header),
        )
}

/// Around the encoder's own streams the smallest contender is the winner of the race.
proof fn smallest_is_raced(
    e: PngEncoder,
    width: u32,
    height: u32,
    plain: FileModel,
    r: ReductionsModel,
    streams: Seq<Seq<u8>>,
)
    requires
        are_own_streams(e, e.contenders(width, height, plain, r), streams),
    ensures
        smallest(e.finished(e.contenders(width, height, plain, r), streams)) == e.file_of(
            e.raced(width, height, plain, r),
        ),
        e.contenders(width, height, plain, r).contains(e.raced(width, height, plain, r)),
{
    let files = e.contenders(width, height, plain, r);
    let all = e.finished(files, streams);
    assert forall|i: int| 0 <= i < files.len() implies #[trigger] all[i] == e.file_of(files[i]) by {
        assert(streams[i] == e.idat_stream(
            files[i].bytes,
            row_len(files[i].header.width as int, files[i].header.spec_bits_per_pixel()),
            stride_of(files[i].header),
        ));
    }
    reveal_with_fuel(smallest, 4);
    assert(all.last() == all[all.len() - 1]);
    if all.len() > 1 {
        assert(all.drop_last().last() == all[all.len() - 2]);
    }
    if all.len() > 2 {
        assert(all.drop_last().drop_last().last() == all[0]);
    }
    let winner = e.raced(width, height, plain, r);
    match r {
        ReductionsModel::Nothing => {
            assert(files[0] == winner);
        },
        ReductionsModel::ChunkFree(_) => {
            assert(files[0] == winner);
        },
        ReductionsModel::Chunked { chunked, chunk_free } => {
            assert(files[0] == e.reduced_file(width, height, chunked));
            assert(files[files.len() - 1] == plain);
            if let Some(m) = chunk_free {
                assert(files[1] == e.reduced_file(width, height, m));
            }
        },
    }
}

proof fn smallest_is_layout8(
    e: PngEncoder,
    width: u32,
    height: u32,
    format: PixelFormat,
    s: Seq<u8>,
    streams: Seq<Seq<u8>>,
)
    requires
        are_own_streams(e, e.contenders8(width, height, format, s), streams),
    ensures
        smallest(e.finished(e.contenders8(width, height, format, s), streams)) == e.file_of(
            e.layout8(width, height, format, s),
        ),
        e.contenders8(width, height, format, s).contains(e.layout8(width, height, format, s)),
{
    let plain = e.plain_file(width, height, color_of(format), 8, s);
    let channels = format.spec_channels();
    let r = if e.auto_reduce {
        reductions8(quads(s, channels), channels)
    } else {
        ReductionsModel::Nothing
    };
    smallest_is_raced(e, width, height, plain, r, streams);
}

proof fn smallest_is_layout16(
    e: PngEncoder,
    width: u32,
    height: u32,
    format: PixelFormat,
    s: Seq<u16>,
    streams: Seq<Seq<u8>>,
)
    requires
        are_own_streams(e, e.contenders16(width, height, format, s), streams),
    ensures
        smallest(e.finished(e.contenders16(width, height, format, s), streams)) == e.file_of(
            e.layout16(width, height, format, s),
        ),
        e.contenders16(width, height, format, s).contains(e.layout16(width, height, format, s)),
{
    let plain = e.plain_file(width, height, color_of(format), 16, be_bytes_of(s));
    let r = if e.auto_reduce {
        reductions16(s, format.spec_channels())
    } else {
        ReductionsModel::Nothing
    };
    smallest_is_raced(e, width, height, plain, r, streams);
}

/// The streams of a draft are those of its two sides.
proof fn sides_are_own(e: PngEncoder, draft: DraftModel, streams: Seq<Seq<u8>>)
    requires
        are_own_streams(e, draft.files(), streams),
    ensures
        ({
            let n = draft.cleaned.len() as int;
            &&& are_own_streams(e, draft.cleaned, streams.subrange(0, n))
            &&& are_own_streams(e, draft.plain, streams.subrange(n, n + draft.plain.len()))
        }),
{
    let files = draft.files();
    let n = draft.cleaned.len() as int;
    let left = streams.subrange(0, n);
    let right = streams.subrange(n, n + draft.plain.len());
    assert forall|i: int| 0 <= i < draft.plain.len() implies #[trigger] right[i] == e.idat_stream(
        draft.plain[i].bytes,
        row_len(draft.plain[i].header.width as int, draft.plain[i].header.spec_bits_per_pixel()),
        stride_of(draft.plain[i].header),
    ) by {
        assert(files[n + i] == draft.plain[i]);
        assert(streams[n + i] == right[i]);
    }
    assert forall|i: int| 0 <= i < draft.cleaned.len() implies #[trigger] left[i] == e.idat_stream(
        draft.cleaned[i].bytes,
        row_len(draft.cleaned[i].header.width as int, draft.cleaned[i].header.spec_bits_per_pixel()),
        stride_of(draft.cleaned[i].header),
    ) by {
        assert(files[i] == draft.cleaned[i]);
        assert(streams[i] == left[i]);
    }
}

/// What is on a side of a draft is in the draft.
proof fn sides_are_drafted(draft: DraftModel, file: FileModel)
    requires
        draft.plain.contains(file) || draft.cleaned.contains(file),
    ensures
        draft.files().contains(file),
{
    let files = draft.files();
    let n = draft.cleaned.len() as int;
    if draft.plain.contains(file) {
        let i = choose|i: int| 0 <= i < draft.plain.len() && draft.plain[i] == file;
        assert(files[n + i] == file);
    } else {
        let i = choose|i: int| 0 <= i < draft.cleaned.len() && draft.cleaned[i] == file;
        assert(files[i] == file);
    }
}

pub proof fn own_streams_of_one_file(e: PngEncoder, file: FileModel, streams: Seq<Seq<u8>>)
    requires
        are_own_streams(e, seq![file], streams),
    ensures
        smallest(e.finished(seq![file], streams)) == e.file_of(file),
{
    let files = seq![file];
    let all = e.finished(files, streams);
    assert(files[0] == file && all.last() == all[0]);
    assert(streams[0] == e.idat_stream(
        files[0].bytes,
        row_len(files[0].header.width as int, files[0].header.spec_bits_per_pixel()),
        stride_of(files[0].header),
    ));
}

/// Around the encoder's own streams the file that is kept of a draft is the file that the image is
/// encoded as.
pub proof fn own_streams_make_the_encoded_file(
    e: PngEncoder,
    image: ImageRef<'_>,
    streams: Seq<Seq<u8>>,
)
    requires
        are_own_streams(e, e.drafted(image).files(), streams),
    ensures
        e.kept_file(e.drafted(image), streams) == e.file_of(e.encoded(image)),
        e.drafted(image).files().contains(e.encoded(image)),
{
    reveal(PngEncoder::drafted);
    let (w, h, format) = (image.spec_width(), image.spec_height(), image.spec_format());
    let channels = format.spec_channels();
    let draft = e.drafted(image);
    let n = draft.cleaned.len() as int;
    let left = streams.subrange(0, n);
    let right = streams.subrange(n, n + draft.plain.len());
    sides_are_own(e, draft, streams);
    match image.spec_samples() {
        SampleSlice::B8(s) => {
            if format is Bilevel {
                own_streams_of_one_file(e, draft.plain[0], right);
                assert(draft.plain =~= seq![draft.plain[0]]);
                assert(draft.plain[0] == e.encoded(image));
            } else {
                smallest_is_layout8(e, w, h, format, s@, right);
                if e.clean_transparent && has_invisible_pixel(ints8(s@), channels) {
                    smallest_is_layout8(e, w, h, format, cleaned8(s@, channels), left);
                    assert(n > 0);
                }
            }
        },
        SampleSlice::B16(s) => {
            smallest_is_layout16(e, w, h, format, s@, right);
            if e.clean_transparent && has_invisible_pixel(ints16(s@), channels) {
                smallest_is_layout16(e, w, h, format, cleaned16(s@, channels), left);
                assert(n > 0);
            }
        },
    }
    sides_are_drafted(draft, e.encoded(image));
}

} // verus!
