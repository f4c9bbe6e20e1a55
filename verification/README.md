# tools

The tools an agent bridge offers to a language model — reading, editing and
patching files, searching, running shell commands, fetching web pages,
uploading artifacts, delegating to subagents — with their decisions and
formatting verified by Verus.

- `src/` is the verified library: edit strategies and fuzzy matching, the
  patch parser and applier, output truncation, the tool registry and its
  suggestions, argument checks, the upload protocol's decisions, the ping
  and task schedules, and the shaping of every tool result. Calls into
  outside crates (hashing, encodings, HTML conversion, MIME types, glob
  matching, string similarity) go through small trusted wrappers whose
  contracts are stated next to them.
- `app/` is the unverified shell around it: the async executors, file,
  process and network I/O, JSON (de)serialisation, and the retry loops.
- `tests/` exercises the library on concrete values.
