# atrac3_rs

ATRAC3 bitstream, sound-unit, container and tonal-layout logic, verified
with Verus.

- `src/` — the verified library:
  - `bitstream` — MSB-first bit writer and reader.
  - `sound_unit` — sound units (gain bands, tonal components, spectrum), their
    validation and their exact bit encoding.
  - `quant`, `quant_sony`, `quant_tonal`, `sony_lb` — mantissa coding, Huffman
    codebooks, bit-cost formulas, the tonal entry layouts and their repacking,
    and the integer band statistics of the tonal search (coefficients are
    taken as the bit patterns of their `f32` values).
  - `gain`, `mdct`, `settings` — gain-band rules, the bit-reversal table, and
    how setting values turn into switches.
  - `container`, `inspect` — RIFF/AT3 wrapping and parsing, channel slots and
    sound-unit prefixes.
  - `prototype`, `oracle` — framing of encoded channels, and the argument
    lists of the external reference tool.
  - `error`, `text` — the error type and its messages.
  - `laws` — properties that relate several functions (write/read round trips,
    container wrap/parse, written lengths).
- `tests/` — tests of the library on concrete values.
- `app/` — the `at3cmp` command line: WAV reading and comparison metrics, QMF
  preview, reference-tool round trips and container inspection. Floating-point
  signal processing and I/O live here.

Not carried over: the encoder itself (QMF and MDCT analysis, gain estimation
and application, the tonal and spectral searches, synthesis, and the
alternative rate-distortion engine). It is floating-point signal processing
throughout, and at about 400 KB of source it does not fit in `app/`, so the
`at3cmp` commands that encode (`ProtoEncode`, `ProtoAt3`, `ProtoGainDump`,
`TransformRoundtrip`) are absent. The library holds the integer logic those
paths use: bit costs, layouts and repacking, band statistics on `f32` bit
patterns, sound-unit writing and container wrapping.
