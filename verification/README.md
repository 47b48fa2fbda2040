# prooflane

The verified core of the Prooflane desktop back end, written in Verus.

- `src/` is the library. Every function in it is verified against its
  contract; the calls into outside crates (`serde_json`, `regex`, `toml`,
  `chrono`, `base64`, `minisign-verify`, `dirs`) sit behind small trusted
  wrappers whose doc comments say what is believed of them.
  - Codex transcripts: `reader` reads a rollout line by line (`detail`,
    `ledger`, `calls`, `shell`, `fold`, `collab`, `tool_io`, `exec_output`,
    `blob`, `outcome` hold the individual steps), `codex` builds the
    conversation list entry, `subagent` picks and times sub-agent rollouts,
    `transcript` groups messages into turns, `usage` accounts token spend.
  - `restricted`: the read-only Codex session protocol, its configuration
    allowlist and the reading of its reply.
  - `signature`: release signature checks.
  - `paths`: data-directory rules and the legacy directory migration.
- `app/` is the unverified shell around it: the file system, the
  environment, and the asynchronous runner of restricted sessions.
- `tests/` runs the library on concrete transcripts and inputs.
