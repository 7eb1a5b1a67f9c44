# psptool

A library that reads, checks and edits AMD PSP firmware images, and a command
line on top of it. The library is written in Verus: what each function returns
is stated in its contract and proved.

## Layout

- `src/`: the library.
  - Bytes and numbers: `wire`, `text`, `table`, `source`, `fletcher`.
  - Structures of an image: `address`, `magic`, `id`, `error`, `fet`,
    `directory`, `entry`, `walk`, `inventory`, `types`.
  - Bodies of entries: `body`, `crypto`, `extract`.
  - Editing: `writer`, `replace`, `sign`.
  - Reports: `verify`, `search_keys`, `list`.
  - What a command does: `load`, `cli`, `pick`, `export`, `commands`.
  - Example images: `micro`, `corpus`.
- `tests/`: tests of the library.
- `app/`: the program. It parses the command line, reads and writes files and
  prints.

## What is trusted

Ciphers, signatures, decompression, digests, regular expressions and
reference-counted bytes come from other crates. Each call stands in a small
function whose doc comment names the outside function and says what is taken
for granted of it; they are in `crypto`, `source`, `list`, `pick` and `sign`.
`text` takes one function of the standard library for granted.
