# lib_patcher

Symbol filtering for static libraries. A patched library shows only the symbols that
carry a given prefix; everything else (the Rust standard library, dependencies,
internal symbols) is hidden, so that several such libraries can be linked into one
program.

The library in `src/` holds all decisions and is verified with Verus. It reads
libraries as bytes and asks its surroundings to run tools and to write files; it never
does so itself.

- `keep`, `rename`: which symbols stay public, and how COFF symbols are renamed
- `headers`, `formats`, `inspect`, `imports`, `extract`: what a library holds
- `target`, `linux`, `android`, `librarian`, `patch`: platforms and tools
- `elf`, `nm`, `macos`, `scan`, `deffile`, `windows`, `command`: patching, step by step
- `verify`: the judgement on a patched library
- `blocklist`: lists of symbols that are hidden by name
- `text`, `order`, `names`, `lists`: strings, sorted lists and sets of names

`src/formats.rs` and the head of `src/text.rs` name every outside function whose
behaviour is taken as its documentation and source give it.

The command-line tool in `app/` performs the actions and prints messages:

    lib-patcher --input libmylib.a --output libmylib_patched.a --keep-prefix mylib_
    lib-patcher --input libmylib.a --list
