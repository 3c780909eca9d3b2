//! Palette (PLTE) and palette transparency (tRNS) for indexed-colour PNG (PNG §11.2.2, §11.3.2).
use crate::error::{failed, Cause, Error};
use vstd::prelude::*;

verus! {

/// The alpha a palette entry has when tRNS does not carry one for it (§11.3.2.1).
pub const OPAQUE: u8 = 255;

/// The alpha of entry `i` of a palette whose tRNS payload is `alphas`.
pub open spec fn alpha_at(alphas: Seq<u8>, i: int) -> u8 {
    if 0 <= i < alphas.len() {
        alphas[i]
    } else {
        OPAQUE
    }
}

/// A tRNS payload without its trailing opaque entries.
pub open spec fn trimmed(alphas: Seq<u8>) -> Seq<u8>
    decreases alphas.len(),
{
    if alphas.len() > 0 && alphas.last() == OPAQUE {
        trimmed(alphas.drop_last())
    } else {
        alphas
    }
}

/// Whether every entry of a palette is fully opaque.
pub open spec fn all_opaque(alphas: Seq<u8>) -> bool {
    forall|i: int| 0 <= i < alphas.len() ==> alphas[i] == OPAQUE
}

/// The tRNS payload of a palette: none where the palette is fully opaque.
pub open spec fn trns_payload(alphas: Seq<u8>) -> Option<Seq<u8>> {
    if all_opaque(alphas) {
        None
    } else {
        Some(alphas)
    }
}

/// Trimmed alphas are a payload unless nothing is left of them.
pub proof fn trimmed_payload(alphas: Seq<u8>)
    ensures
        trns_payload(trimmed(alphas)) == (if trimmed(alphas).len() == 0 {
            None
        } else {
            Some(trimmed(alphas))
        }),
{
    trimming_keeps_every_alpha(alphas);
    if trimmed(alphas).len() > 0 {
        assert(trimmed(alphas)[trimmed(alphas).len() - 1] != OPAQUE);
    }
}

/// Trimming changes no entry's alpha: a reader takes every entry past the end as opaque.
pub proof fn trimming_keeps_every_alpha(alphas: Seq<u8>)
    ensures
        forall|i: int| alpha_at(trimmed(alphas), i) == alpha_at(alphas, i),
        trimmed(alphas).is_prefix_of(alphas),
        trimmed(alphas).len() > 0 ==> trimmed(alphas).last() != OPAQUE,
    decreases alphas.len(),
{
    if alphas.len() > 0 && alphas.last() == OPAQUE {
        trimming_keeps_every_alpha(alphas.drop_last());
        assert forall|i: int| alpha_at(alphas.drop_last(), i) == alpha_at(alphas, i) by {}
        assert(trimmed(alphas) =~= alphas.subrange(0, trimmed(alphas).len() as int));
    } else {
        assert(alphas =~= alphas.subrange(0, alphas.len() as int));
    }
}

/// Trimming never lengthens.
pub proof fn trimmed_is_no_longer(alphas: Seq<u8>)
    ensures
        trimmed(alphas).len() <= alphas.len(),
    decreases alphas.len(),
{
    if alphas.len() > 0 && alphas.last() == OPAQUE {
        trimmed_is_no_longer(alphas.drop_last());
    }
}

/// Drops the trailing fully-opaque entries a tRNS chunk is allowed to omit.
pub fn trim_trailing_opaque(alphas: &mut Vec<u8>)
    ensures
        final(alphas)@ == trimmed(old(alphas)@),
{
    let mut keep: usize = alphas.len();
    assert(alphas@.subrange(0, keep as int) =~= alphas@);
    while keep > 0 && alphas[keep - 1] == OPAQUE
        invariant
            keep <= alphas@.len(),
            trimmed(alphas@.subrange(0, keep as int)) == trimmed(alphas@),
        decreases keep,
    {
        assert(alphas@.subrange(0, keep as int).drop_last() =~= alphas@.subrange(0, keep - 1));
        keep -= 1;
    }
    alphas.truncate(keep);
}

/// A palette entry: colour and alpha.
pub type Entry = ([u8; 3], u8);

/// The entries of `entries` before `n` that `used` marks, each once, in order of first appearance.
pub open spec fn kept_entries(entries: Seq<Entry>, used: Seq<bool>, n: int) -> Seq<Entry>
    decreases n,
{
    if n <= 0 {
        Seq::empty()
    } else {
        let kept = kept_entries(entries, used, n - 1);
        if used[n - 1] && !kept.contains(entries[n - 1]) {
            kept.push(entries[n - 1])
        } else {
            kept
        }
    }
}

/// The alphas of a list of entries.
pub open spec fn entry_alphas(entries: Seq<Entry>) -> Seq<u8> {
    entries.map_values(|e: Entry| e.1)
}

/// A PNG palette: 1 to 256 RGB entries, with optional per-entry alpha (written as a tRNS chunk).
///
/// Entries without an alpha value are fully opaque. Indexed images reference entries by index.
#[derive(Debug)]
pub struct PngPalette {
    rgb: Vec<[u8; 3]>,
    /// Alpha of the leading entries; entries beyond are opaque.
    alpha: Vec<u8>,
}

impl Clone for PngPalette {
    fn clone(&self) -> (copy: Self)
        ensures
            copy.colors() == self.colors(),
            copy.alphas() == self.alphas(),
    {
        PngPalette {
            rgb: vstd::slice::slice_to_vec(self.rgb.as_slice()),
            alpha: vstd::slice::slice_to_vec(self.alpha.as_slice()),
        }
    }
}

/// The bytes of RGB triples, one after another.
pub open spec fn flat_rgb(rgb: Seq<[u8; 3]>) -> Seq<u8> {
    Seq::new(rgb.len() * 3, |i: int| rgb[i / 3][i % 3])
}

/// The RGB triples of a PLTE payload.
pub open spec fn rgb_triples(plte: Seq<u8>) -> Seq<[u8; 3]> {
    Seq::new(plte.len() / 3, |i: int| [plte[i * 3], plte[i * 3 + 1], plte[i * 3 + 2]])
}

/// The colours of a PLTE payload survive being flattened: reading a written payload gives them
/// back.
pub proof fn plte_round_trip(rgb: Seq<[u8; 3]>)
    ensures
        rgb_triples(flat_rgb(rgb)) == rgb,
{
    let back = rgb_triples(flat_rgb(rgb));
    assert forall|i: int| 0 <= i < rgb.len() implies #[trigger] back[i] == rgb[i] by {
        assert((i * 3) / 3 == i && (i * 3) % 3 == 0);
        assert((i * 3 + 1) / 3 == i && (i * 3 + 1) % 3 == 1);
        assert((i * 3 + 2) / 3 == i && (i * 3 + 2) % 3 == 2);
        assert(back[i] =~= rgb[i]);
    }
    assert(back =~= rgb);
}

/// Why colours and alphas make no palette.
pub open spec fn palette_fault(entries: nat, alphas: nat) -> Option<Cause> {
    if entries == 0 || entries > 256 {
        Some(Cause::PaletteSize)
    } else if alphas > entries {
        Some(Cause::TooManyAlphas)
    } else {
        None
    }
}

impl PngPalette {
    /// The colours.
    pub closed spec fn colors(&self) -> Seq<[u8; 3]> {
        self.rgb@
    }

    /// The alphas of the leading entries.
    pub closed spec fn alphas(&self) -> Seq<u8> {
        self.alpha@
    }

    /// Colour and alpha of every entry.
    pub open spec fn entries(&self) -> Seq<Entry> {
        Seq::new(self.colors().len(), |i: int| (self.colors()[i], alpha_at(self.alphas(), i)))
    }

    /// 1 to 256 entries, and no more alphas than entries.
    pub open spec fn wf(&self) -> bool {
        1 <= self.colors().len() <= 256 && self.alphas().len() <= self.colors().len()
    }

    /// Builds an opaque palette from 1 to 256 RGB entries.
    pub fn new(entries: &[[u8; 3]]) -> (palette: Result<Self, Error>)
        ensures
            palette is Ok <==> 1 <= entries@.len() <= 256,
            palette matches Ok(p) ==> p.wf() && p.colors() == entries@ && p.alphas()
                == Seq::<u8>::empty(),
            palette is Err ==> failed(palette, Cause::PaletteSize),
    {
        let none: Vec<u8> = Vec::new();
        Self::with_transparency(entries, none.as_slice())
    }

    /// Builds a palette with per-entry transparency. `alpha[i]` is the alpha of palette entry `i`;
    /// `alpha` may be shorter than `rgb` (the remaining entries are opaque).
    pub fn with_transparency(rgb: &[[u8; 3]], alpha: &[u8]) -> (palette: Result<Self, Error>)
        ensures
            match palette_fault(rgb@.len(), alpha@.len()) {
                Some(cause) => failed(palette, cause),
                None => palette matches Ok(p) && p.wf() && p.colors() == rgb@ && p.alphas()
                    == alpha@,
            },
    {
        if rgb.len() == 0 || rgb.len() > 256 {
            return Err(Error::new(Cause::PaletteSize));
        }
        if alpha.len() > rgb.len() {
            return Err(Error::new(Cause::TooManyAlphas));
        }
        Ok(
            PngPalette {
                rgb: vstd::slice::slice_to_vec(rgb),
                alpha: vstd::slice::slice_to_vec(alpha),
            },
        )
    }

    /// Builds a palette from raw PLTE and optional tRNS chunk payloads (§11.2.2, §11.3.1.1).
    pub fn from_chunks(plte: &[u8], trns: Option<&[u8]>) -> (palette: Result<Self, Error>)
        ensures
            ({
                let alphas = match trns {
                    Some(t) => t@,
                    None => Seq::<u8>::empty(),
                };
                if plte@.len() % 3 != 0 {
                    failed(palette, Cause::PlteNotTriples)
                } else {
                    match palette_fault(plte@.len() / 3, alphas.len()) {
                        Some(cause) => failed(palette, cause),
                        None => palette matches Ok(p) && p.wf() && p.colors() == rgb_triples(plte@)
                            && p.alphas() == alphas,
                    }
                }
            }),
    {
        if plte.len() % 3 != 0 {
            return Err(Error::new(Cause::PlteNotTriples));
        }
        let mut rgb: Vec<[u8; 3]> = Vec::new();
        let mut i: usize = 0;
        let n: usize = plte.len() / 3;
        while i < n
            invariant
                n == plte@.len() / 3,
                i <= n,
                3 * n <= plte.len(),
                rgb@ == rgb_triples(plte@).subrange(0, i as int),
            decreases n - i,
        {
            let entry: [u8; 3] = [plte[i * 3], plte[i * 3 + 1], plte[i * 3 + 2]];
            assert(entry =~= rgb_triples(plte@)[i as int]);
            rgb.push(entry);
            i += 1;
            assert(rgb@ =~= rgb_triples(plte@).subrange(0, i as int));
        }
        assert(rgb@ =~= rgb_triples(plte@));
        let none: Vec<u8> = Vec::new();
        match trns {
            Some(alphas) => Self::with_transparency(rgb.as_slice(), alphas),
            None => Self::with_transparency(rgb.as_slice(), none.as_slice()),
        }
    }

    /// The number of palette entries (1 to 256).
    pub fn len(&self) -> (len: usize)
        ensures
            len == self.colors().len(),
    {
        self.rgb.len()
    }

    /// The RGB triple of entry `index`, or `None` if the index is out of range.
    pub fn rgb(&self, index: u8) -> (rgb: Option<[u8; 3]>)
        ensures
            rgb == (if index < self.colors().len() {
                Some(self.colors()[index as int])
            } else {
                None
            }),
    {
        if (index as usize) < self.rgb.len() {
            Some(self.rgb[index as usize])
        } else {
            None
        }
    }

    /// The alpha of entry `index` (255 for entries beyond the tRNS values), or `None` if the index
    /// is out of range.
    pub fn alpha(&self, index: u8) -> (alpha: Option<u8>)
        ensures
            alpha == (if index < self.colors().len() {
                Some(alpha_at(self.alphas(), index as int))
            } else {
                None
            }),
    {
        if (index as usize) >= self.rgb.len() {
            return None;
        }
        if (index as usize) < self.alpha.len() {
            Some(self.alpha[index as usize])
        } else {
            Some(OPAQUE)
        }
    }

    /// Whether any entry is not fully opaque.
    pub fn has_transparency(&self) -> (transparent: bool)
        ensures
            transparent == exists|i: int| 0 <= i < self.alphas().len() && self.alphas()[i] != OPAQUE,
    {
        let mut i: usize = 0;
        while i < self.alpha.len()
            invariant
                i <= self.alpha@.len(),
                forall|j: int| 0 <= j < i ==> self.alpha@[j] == OPAQUE,
            decreases self.alpha@.len() - i,
        {
            if self.alpha[i] != OPAQUE {
                assert(self.alphas()[i as int] != OPAQUE);
                return true;
            }
            i += 1;
        }
        false
    }

    /// Whether there is no entry: always `false` for a palette that a constructor made.
    pub fn is_empty(&self) -> (empty: bool)
        ensures
            empty == (self.colors().len() == 0),
            self.wf() ==> !empty,
    {
        self.rgb.len() == 0
    }

    /// The palette reduced to the entries `used` marks, with duplicates merged and the tRNS
    /// trailing-opaque bytes trimmed, plus the old-index to new-index map that rewrites an image's
    /// indices onto it.
    ///
    /// Every surviving entry keeps its colour, its alpha and its relative order; `remap` sends each
    /// marked old index to the entry that holds the colour and alpha it named, and everything else
    /// to zero. `used[i]` beyond the palette's length is ignored.
    pub fn cleaned(&self, used: &[bool; 256]) -> (cleaned: (Self, [u8; 256]))
        requires
            self.wf(),
        ensures
            ({
                let (palette, remap) = cleaned;
                let kept = kept_entries(self.entries(), used@, self.entries().len() as int);
                &&& palette.entries() == kept
                &&& palette.alphas() == trimmed(entry_alphas(kept))
                &&& kept.no_duplicates()
                &&& kept.len() <= 256
                &&& (exists|i: int| 0 <= i < self.colors().len() && #[trigger] used@[i])
                    ==> palette.wf()
                &&& forall|i: int|
                    0 <= i < 256 ==> if i < self.entries().len() && used@[i] {
                        remap@[i] < kept.len() && kept[remap@[i] as int] == self.entries()[i]
                    } else {
                        #[trigger] remap@[i] == 0
                    }
            }),
    {
        let ghost entries = self.entries();
        let mut kept_rgb: Vec<[u8; 3]> = Vec::new();
        let mut kept_alpha: Vec<u8> = Vec::new();
        let ghost mut kept = Seq::<Entry>::empty();
        let mut remap: [u8; 256] = [0u8; 256];
        let mut index: usize = 0;
        while index < self.rgb.len()
            invariant
                self.wf(),
                entries == self.entries(),
                index <= self.rgb@.len() <= 256,
                kept == kept_entries(entries, used@, index as int),
                kept.len() == kept_rgb@.len() == kept_alpha@.len(),
                kept.len() <= index,
                kept.no_duplicates(),
                forall|k: int|
                    0 <= k < kept.len() ==> #[trigger] kept[k] == (kept_rgb@[k], kept_alpha@[k]),
                forall|i: int|
                    0 <= i < 256 ==> if i < index && used@[i] {
                        remap@[i] < kept.len() && kept[remap@[i] as int] == entries[i]
                    } else {
                        #[trigger] remap@[i] == 0
                    },
                (exists|i: int| 0 <= i < index && #[trigger] used@[i]) ==> kept.len() > 0,
            decreases self.rgb@.len() - index,
        {
            if used[index] {
                let rgb: [u8; 3] = self.rgb[index];
                let alpha: u8 = if index < self.alpha.len() {
                    self.alpha[index]
                } else {
                    OPAQUE
                };
                assert(entries[index as int] == (rgb, alpha));
                let mut position: usize = 0;
                while position < kept_rgb.len() && !(kept_alpha[position] == alpha && same_rgb(
                    kept_rgb[position],
                    rgb,
                ))
                    invariant
                        kept.len() == kept_rgb@.len() == kept_alpha@.len(),
                        position <= kept.len(),
                        forall|k: int|
                            0 <= k < kept.len() ==> #[trigger] kept[k] == (
                                kept_rgb@[k],
                                kept_alpha@[k],
                            ),
                        forall|k: int| 0 <= k < position ==> kept[k] != (rgb, alpha),
                    decreases kept_rgb@.len() - position,
                {
                    position += 1;
                }
                if position == kept_rgb.len() {
                    kept_rgb.push(rgb);
                    kept_alpha.push(alpha);
                    proof {
                        assert(!kept.contains((rgb, alpha)));
                        kept = kept.push((rgb, alpha));
                    }
                } else {
                    assert(kept[position as int] == (rgb, alpha));
                    assert(kept.contains((rgb, alpha)));
                }
                remap[index] = position as u8;
            }
            index += 1;
        }
        assert(kept_alpha@ =~= entry_alphas(kept));
        trim_trailing_opaque(&mut kept_alpha);
        let palette = PngPalette { rgb: kept_rgb, alpha: kept_alpha };
        proof {
            let alphas = entry_alphas(kept);
            trimming_keeps_every_alpha(alphas);
            assert(palette.alphas() == trimmed(alphas));
            assert forall|k: int| 0 <= k < kept.len() implies palette.entries()[k] == kept[k] by {
                assert(alpha_at(trimmed(alphas), k) == alpha_at(alphas, k));
                assert(kept[k] == (palette.colors()[k], alphas[k]));
            }
            assert(palette.entries() =~= kept);
        }
        (palette, remap)
    }

    /// The PLTE chunk payload: RGB triples, flattened.
    pub fn plte(&self) -> (plte: Vec<u8>)
        ensures
            plte@ == flat_rgb(self.colors()),
    {
        let mut out: Vec<u8> = Vec::new();
        let mut i: usize = 0;
        while i < self.rgb.len()
            invariant
                i <= self.rgb@.len(),
                out@ == flat_rgb(self.rgb@.subrange(0, i as int)),
            decreases self.rgb@.len() - i,
        {
            let entry: [u8; 3] = self.rgb[i];
            out.push(entry[0]);
            out.push(entry[1]);
            out.push(entry[2]);
            i += 1;
            assert(out@ =~= flat_rgb(self.rgb@.subrange(0, i as int)));
        }
        assert(self.rgb@.subrange(0, i as int) =~= self.rgb@);
        out
    }

    /// The tRNS chunk payload (the alpha values), or `None` if the palette is fully opaque.
    pub fn trns(&self) -> (trns: Option<&[u8]>)
        ensures
            trns is None <==> (forall|i: int|
                0 <= i < self.alphas().len() ==> self.alphas()[i] == OPAQUE),
            trns matches Some(t) ==> t@ == self.alphas(),
    {
        if self.has_transparency() {
            Some(self.alpha.as_slice())
        } else {
            None
        }
    }
}

fn same_rgb(a: [u8; 3], b: [u8; 3]) -> (same: bool)
    ensures
        same == (a == b),
{
    let same: bool = a[0] == b[0] && a[1] == b[1] && a[2] == b[2];
    assert(same ==> a =~= b);
    same
}

} // verus!
