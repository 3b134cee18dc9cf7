# xjb

Decimal formatting of IEEE-754 `f64` and `f32` values, written in Verus.

The library works on bit patterns: `xjb64(bits, buf)` and `xjb32(bits, buf)` write the
text of the value with that bit pattern to the start of `buf` and return its length;
`buf` needs 39 bytes for `f64` and 32 for `f32`. Their contracts state the exact text as
`format64` / `format32`, at most 25 and 24 bytes long and followed by a NUL byte, and that
the text spells the decimal the scaling step picks. How that decimal relates to the binary
value (that it reads back to it, or is the shortest that does) is not among the proved
facts. `xjb64_with_table` / `xjb32_with_table` do the same with power-of-ten tables
computed once (`Pow10Double::new`, `Pow10Float::new`) in place of recomputing an entry on
each call.

- `src/text.rs`: the text model: digits, trailing-zero trimming, positional and
  scientific rendering.
- `src/value.rs`: the decimal number a text spells, and the proof that rendered text
  spells the number its digits stand for.
- `src/bytes.rs`: little-endian byte views of words and the buffer writes.
- `src/digits.rs`: significands to ASCII digits, eight digits per word.
- `src/tables.rs`: powers of ten, shift amounts, exponent suffixes and layout positions,
  each computed from its recurrence or formula.
- `src/double.rs`, `src/single.rs`: the scaling step and the text layout for `f64` and
  `f32`.
- `app/lib.rs`: the same two functions taking a float and a raw pointer, with tables kept
  for the life of the process.
