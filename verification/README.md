# typos

A source code spell checker, written in Verus: the library in `src/` is verified, and
`app/` is the command-line program around it.

## Layout

- `src/tokens.rs`: splitting text into identifiers and words, and words into their parts
  by case and digits.
- `src/check.rs`, `src/dict.rs`, `src/builtin.rs`: checking tokens against a dictionary;
  the built-in dictionary (a word list and a VarCon variant table, with the locale's
  preferred spellings) and user overrides.
- `src/file.rs`, `src/checkers.rs`: checking buffers and files, fixing typos in place,
  reading UTF-8 and UTF-16 content.
- `src/config.rs`, `src/engine.rs`, `src/file_type.rs`, `src/args.rs`: settings, the
  settings that apply to one file, file types and their globs.
- `src/varcon.rs` and `src/varcon/`: the VarCon data model and its parser.
- `src/dictgen.rs` and `src/dictgen/`, `src/misspell.rs`, `src/word_map.rs`,
  `src/wordlist.rs`, `src/table.rs`: generating Rust tables from word lists.
- `src/print.rs`, `src/messages.rs`, `src/report.rs`, `src/diff.rs`, `src/lsp.rs`:
  reporting, and the unified diff of a fix.

Calls into outside crates (regex, globset, unicase, encoding_rs, content_inspector,
simdutf8, unicode-xid, edit-distance, csv, phf_codegen, difflib) go through small trusted items
whose contracts say what those crates document; everything built on them is proved.

The laws of the library stand in `src/` as public proof functions, for example
`lemma_fix_closed_form` and `lemma_fix_length` (fixing typos), `lemma_infer_idempotent`
(VarCon inference) and `lemma_flags_over_reports` (message status).

## The built-in dictionary

This build ships no dictionary data.  The built-in dictionary's logic is verified
(`BuiltIn::correct_word`: the word list's corrections, carried through the locale's
VarCon variants, sorted and deduplicated, in the word's case), but its word list and
variant table are arguments of `BuiltIn::new` and `engine::file_engine`, and the program
passes empty ones: it corrects only what the settings' `extend-words` and
`extend-identifiers` name.  A program that has the generated tables passes them there.

## Running

`app/main.rs` walks the given paths, reads files, checks them with the library and
prints what it found (briefly, at length, or as JSON lines), shows the fixes as a unified
diff with `--diff`, or writes them back with `--write-changes`.
