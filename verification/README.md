# anonymizer

Pseudo-anonymization of mailing-list datasets: every `Name <address>` and
every bare e-mail address in the identity columns (`from`, `to`, `cc`,
`raw_body`, and the `identification` field of `trailers`) is replaced by the
lowercase hexadecimal SHA-1 digest of its text, so that the same identity
always becomes the same hash. Beside each anonymized dataset an identity map
pairs the original `from` values with their hashes.

The library in `src/` is written in Verus and verified:

- `text`, `identity`: character classes and the two identity patterns,
  scanned leftmost-first as a regular-expression search would;
- `hashing`: SHA-1 (from the `sha1` crate) written as hex;
- `anonymizer`: the anonymization of a text, specified by `anonymized`;
- `frame`, `transform`: a plain-value model of a data frame's columns and its
  anonymization, with the identity map;
- `paths`, `reader`, `writer`, and the crate root: output locations, the
  choice and order of input files, the compression level, and run planning;
- `email_parser`, `extractors`: header text from byte offsets, and patches
  from e-mail bodies;
- `laws`: properties proved of all inputs (unchanged text without `@`,
  named and bare identities, kept line breaks, kept frame shape, identity map
  agreeing with the dataset); `email_parser` proves that adjacent reads of
  an ASCII message concatenate.

`app/` is the program around it: command line and configuration files,
Parquet reading and writing with Polars, and the thread pool.

## Not included

The parser functions `parse_email`, `collect_header_data`,
`select_best_from_header`, `select_date` and `extract_attributions` are not
part of this library. They read `mail_parser::Message` values and call the
parser's e-mail reader, address normalization and scoring, and date checks,
with its `ParsedEmail` and `Attribution` types. Neither the `mail_parser`
crate nor those parser modules and types are available to this crate, so
these functions cannot be written against them; the two parser functions
that stand on their own, `read_raw_offset` and `extract_patches`, are here.
