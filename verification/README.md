# sonata

A media decoding library written in Verus: its parsers, bit readers and decoders carry
`requires` / `ensures` contracts that Verus proves.

Layout of `src/`:

- `io`: in-memory byte streams and most-significant-bit-first bit readers, Huffman tables, the
  bit-level model (`bits_model`) that their contracts are stated over, and the media source
  stream (`media`) that reads ahead from a source and can be rewound.
- `flac`: FLAC metadata blocks, frame headers, subframes and residuals, the packet parser that
  finds frames in a stream, the demuxer (probe, metadata, seeking) and the decoder with MD5
  validation.
- `mp3`: MPEG audio frame headers, layer 3 side information, scale factors, the bit reservoir and
  the Huffman coded spectral samples (`requantize`; the tables are a parameter, and raising the
  samples to the 4/3 power is left to the caller).
- `id3v2`: ID3v2 tag headers, extended headers and unsynchronisation; `id3v2::frames` reads
  frames, and parses text frames into tags (UTF-16 through `encoding_rs`).
- `wav`: RIFF WAVE chunks, and the reader that finds a file's format and audio data and seeks in
  it.
- `ogg`: page headers with their CRC-32, the logical streams that assemble packets from page
  bodies, the physical stream that routes pages to logical streams by serial number, and the
  codec mappings (`mappings`) that recognise Ogg FLAC and Ogg Opus streams and sort their packets.
- `opus`: the Ogg Opus identification header.
- `pcm`, `sample`, `conv`, `audio`, `codecs`, `formats`, `tags`, `checksum`: sample formats and
  conversions, channel layouts, codec parameters and the codec registry that instantiates the
  best registered decoder, streams and cues, CRCs.

The contracts are stated over spec functions of the byte or bit sequence being read (`Seq<u8>`
and bit indices into it). The outside crate `md5` computes the digest that FLAC validation checks;
its functions are declared as trusted items in `flac/validate.rs`.

`defaults::get_codecs` builds the registry of every decoder of the library.

`tests/` holds ordinary Rust tests of the library.
