# tacitus

A memory and knowledge engine for agents: typed memories with provenance, a
vault of Markdown notes with transactional writes, a registry of tools over
both, sandboxed plugins, and the relay and billing services beside them. The
library in `src/` is verified with Verus: each function states what it does in
`requires` and `ensures`, and the laws of the library are public proof functions
whose names begin with `law_`.

| Where | What |
| --- | --- |
| `src/memory` | remembering, recall under a token budget, conflicts, the memory file format |
| `src/vault` | notes, links, the index, search, tasks, templates, properties, changesets, renaming, link suggestions |
| `src/tools` | the tool table, the registry that runs a tool on the records, answers as JSON |
| `src/plugins` | the plugin manifest, the guest interface, the host's decisions |
| `src/relay` | the message log of a vault, sessions, the wire format |
| `src/billing` | webhook signatures, entitlements, checkout |
| `src/cli` | argument handling and the decisions of the commands |
| `src/text`, `numbers`, `order`, `strmap`, `paths`, `ids`, `tokens`, `lexical` | what the rest stands on |
| `app` | the program: files, sockets, HTTP, the WebAssembly engine, embeddings |
| `tests` | the library at work on concrete values |

Calls into other crates stand behind small functions marked
`#[verifier::external_body]`. The comment above each names the outside function
and says what is taken to be true of it.
