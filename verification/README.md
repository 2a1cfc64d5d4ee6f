# Meta Programming Language

Documents in the Meta Programming Language embed code, data and questions to
language models in blocks, written as XML elements
(`<meta:code name="..." language="python">...</meta:code>`) or in a bracket
syntax (`[code:python name:...] ... [/code:python]`). This crate parses such
documents, decides how their blocks execute, and writes the results back.

The library under `src/` is verified with Verus. Contracts are stated over the
mathematical values (`@`) of blocks, states and texts. What an outside crate
computes is named in the contracts rather than described: the events that
`quick_xml` reads from a document, the tree that `xmltree` reads, the text
that `xmltree` writes for an element. That text is named only where no
element has more than one attribute, since `xmltree` writes attributes in the
order in which a `HashMap` is walked.

- `parser`: blocks and their modifiers; the parsers of the bracket syntax; the
  XML parser (events from `quick_xml`, blocks built by a verified state
  machine); variable references (`<meta:reference target="..."/>` tags and
  `${name}`); question/response linking; checks.
- `executor`: the executor state (blocks, outputs, fallbacks, blocks in
  progress, cache); caching rules; the decisions of block execution
  (registration, dependencies, cycles, fallbacks); runners' decisions
  (conditions, test modes, prompts, program output); substitution of
  `${name}` and reference resolution on XML trees held as plain values, and the passes over a document's blocks;
  writing results back into the document.
- `llm_client`: request settings from block modifiers, and the answers of
  replies.
- `file_watcher`: which notifier events count as file changes.
- `text`, `text_map`: text operations with specifications, and an
  insertion-ordered map with text keys.

`app/` is the command-line program: it reads and writes files, reads the
environment and the clock, runs processes and `curl`, watches files, and
serialises requests; it calls the library for every decision.

`tests/` holds the tests, which run against the compiled library.
