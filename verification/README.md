# aichat_core

The request and reply logic of a command-line LLM client, written in Verus
and verified: request bodies for the messages API and for Bedrock (Converse
and Responses APIs), prompt-cache breakpoints and their TTLs, reply and
stream readers, AWS Signature Version 4, request patches, tool-call
de-duplication and configuration, history turns from editor input, and the
user input itself.

- `src/` is the verified library. Every function carries a contract over
  mathematical models (`Seq`, `Map`-like pair lists, JSON values); the
  public proof functions (`lemma_*`) state the library's laws.
- `tests/` exercises the library on concrete values.
- `app/` is the unverified shell around it: HTTP with reqwest, the Bedrock
  event stream, files and shell commands, prompts, and running tools.

Run `verus` on `src/lib.rs` to check the proofs.
