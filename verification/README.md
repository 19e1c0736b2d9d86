# linc

The document model and editing state machine of a structural editor, verified
with Verus.

A file holds nodes by reference; each node has a kind, a textual value and
named fields of child references (`-` marks an empty slot). A path of
selectors (field, position) walks from the root to a slot. The editor keeps a
cursor path, a command line with completion candidates, and rewrites the file
from the chosen completion, logging every write.

- `src/text.rs`: text helpers, references, and the fresh-reference source.
- `src/strmap.rs`: a text-keyed map with distinct keys in insertion order.
- `src/file.rs`: selectors, paths, nodes, files, and path resolution.
- `src/model.rs`: the editor state and its steps (`update`, `receive_paths`,
  `receive_commands`) with their contracts.
- `src/laws.rs`: properties stated over the whole library.
- `app/`: the browser component around the library (rendering, storage,
  focus, schema-driven completion and path traversal).
