# gamut_png

A verified PNG codec, with a JPEG XL container front end and a typed model of image metadata.

The library is written in Verus: its functions state what they return, and every statement is proved.
Where a decoder, an inflater or a deflater that the user supplies takes part, what is stated is which
backend is asked, in what order, with which arguments, and what becomes of each reply it may give.

`src/` holds the library, `tests/` exercises it from outside, and `app/` holds the few things around it
that need floating point or formatting traits.

| Area | Modules |
| --- | --- |
| Bytes, text, checksums, compression | `bytes`, `text`, `crc32`, `zlib` |
| Chunks and headers | `chunk`, `color`, `ihdr`, `layout` |
| Scanlines | `adam7`, `filter`, `pack`, `canvas` |
| Palettes and pixel layouts | `palette`, `pixels`, `reduce` |
| Encoding | `encoder`, `builder`, `ancillary`, `carry`, `store`, `draft`, `deflate` |
| Decoding | `parse`, `decoder`, `decoded`, `seam` |
| Taking files apart | `deconstruct`, `scan`, `survey` |
| What is read back of what was written | `roundtrip`, `shows`, `lossless`, `preserve` |
| What trying more than one encoding costs | `sizes` |
| Encoders that write the same | `alike` |
| Stacks of backends | `dispatch` |
| JPEG XL | `jxl`, `backend` |
| Metadata across formats | `metadata`, `provenance`, `capability` |

What holds of the library as a whole is stated by public proof functions, among them:

- an encoded image decodes to itself (`lossless`),
- metadata that is set or carried is read back (`preserve`),
- reading metadata alone agrees with decoding (`parse`, `decoder`),
- every byte of a file is classified (`survey`),
- a manifest store fills its reservation in place (`store`),
- trying more than one encoding never costs a byte (`sizes`),
- carrying metadata twice writes the same bytes as carrying it once (`alike`),
- the first backend that does not decline decides (`dispatch`).

Three things are taken on trust: that `crc32fast` computes CRC-32, that zlib streams from `miniz_oxide`
inflate back, and a handful of `std` functions on strings and on the size of values.
