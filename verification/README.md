# pe_edit

A library for viewing and editing PE (Portable Executable) files, verified with
[Verus](https://github.com/verus-lang/verus): every function states what it
returns or changes, and the proofs are checked together with the code.

A file is parsed into a `PeDocument` (headers, sections, data directories, and
the import, export, resource, relocation, TLS and load configuration tables),
edited, and serialized back.

## What reading and writing keep

The laws are in `src/io/pe/laws/`. `parse` accepts every file that `serialize`
writes for a document whose sizes and offsets fit their fields, and gives its
headers and sections back (`written_file_is_read_back`). What it gives back of
the tables depends on what they hold:

- The imports come back as they were, and the exports sorted by ordinal and
  numbered without a gap, for a *plain document* (`plain_document_survives`):
  its sections hold the bytes that their sizes say, its names can be read back
  (no NUL byte in them, and not too long), every export has a name, no two share
  an ordinal, what is exported lies in the document's sections, an import table
  that is kept in place ends there, and the image stays below 2 GiB. Exports that
  were already numbered without a gap and are not forwarded come back unchanged,
  and so do exports that already stood in the image.
- Resources, relocations, the TLS directory and the load configuration come back
  each under a condition of its own (`written_resources_are_kept` and the laws
  after it).
- Saving a plain document that was read back changes no byte
  (`plain_document_is_stable`), whatever these four directories hold. An export
  table without symbols is the exception: it is rendered anew each time.

## Layout

```
src/
├── api/       what can be done to a document: view, edit, imports, exports,
│              directories, IAT scanning; and the laws of these operations
├── domain/    the document and its parts, each with its mathematical model
├── feature/   address conversion, section layout and merging
├── io/        sources of documents, a fixed mock document, the parser and writer
│   └── pe/laws/   what reading and writing keep of each other
├── process/   the code and the log of traced functions
├── ui/        what the command line and the windows compute and decide
├── disasm.rs  the boundary to the x86 decoder and encoder
├── text.rs    numbers and characters as text
└── bytes.rs   little-endian records
app/           the program around it: files, windows, processes
tests/         the library on concrete values
```

## What is trusted

- `disasm.rs`: decoding and re-encoding one instruction (`iced_x86`).
- `text.rs`: `String::push`, `char::from_u32`, `String::from_utf8_lossy`,
  `str::to_lowercase` and the debug text of a `str`.

Each states in its doc comment what is believed of the function behind it.
