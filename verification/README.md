# mish

A shell proxy for readers with little room. Commands run as they are typed; of
what they write, only what matters is passed on. Failures come with the facts
that a reader would ask for next, runs are logged, and interpreters can be kept
alive in sessions.

- `src/` is the library. It computes and decides, and is verified with Verus:
  cutting output into lines, classifying them by general signs and by the
  grammar of the tool, condensing and formatting, configuration, the audit log,
  compound command lines, sessions, and what to look up after a failure. What it
  calls of other crates is declared in `src/outside.rs`, with what is relied on.
- `app/` is ordinary Rust around it: files, processes, terminals and sockets. It
  performs what the library decides and hands back what came of it.
- `tests/` runs the library on values.
