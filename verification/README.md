# export_logseq_notes

A library, verified with Verus, that turns a Logseq graph (or a Roam Research EDN export) into
web pages, and the program around it.

- `src/` is the library. Every function in it, but the trusted items below, has a contract that
  Verus proves: the reading of
  Logseq files into blocks and attributes, the inline grammar of block text, the graph of pages
  and blocks, page scripts' settings, tags, slugs and file names, the HTML rendering of pages,
  the Pic Store image data, and the Roam export's datoms. The calls into outside crates (regex,
  katex, urlencoding, urlocator, chrono, edn-rs, syntect) stand behind small trusted items whose
  contracts say what the crates' documentation and source show. EDN text reaches edn-rs only
  after two verified passes (`edn_scan`): the first writes each run of whitespace, commas and
  comments between values as one space, which the reader takes alike; the second shows that the
  reader takes the text safely. edn-rs reads by recursion, so the scan bounds how deep values
  nest (512 levels of containers and tags) and how many separators and tags come in a row; the
  tests read values nested 500 deep on the 2 MiB stack that Rust gives a thread it starts.
  Rendering recurses on a page's blocks and on the expressions inside them; a budget of eight
  units per block of the graph is spent only where rendering goes on to a child, a referenced or
  embedded block, or a table cell, so only blocks that lead back to themselves use it up.
- `app/` is the program: command line and configuration files, reading the graph's files, the
  metadata database, the page script engine, templates, uploads to Pic Store, and writing the
  output files.
- `tests/` runs the library on concrete inputs.
