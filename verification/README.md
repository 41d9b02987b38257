# agentharbor

The orchestration core of a host that runs agents in isolated workspaces, written in Verus:
what the core decides is stated in contracts and proved.

- `src/` is the core. It plans and decides; it does not touch the disk, start processes or read
  the clock.
  - `text`, `ids`, `error`, `files`: text forms, identifiers, errors, and planned file operations.
  - `domain`: entities, and the states a requirement may go through.
  - `requirements`: specifications, their Markdown documents, and repository intake.
  - `budget`: when a context has to be checkpointed.
  - `context`, `artifacts`, `checkpoints`, `rebuild`, `runs`: agent contexts, content-addressed
    artifacts, checkpoints, the rebuilding of a context, and what whole runs of these come to.
  - `persistence`: named state snapshots, and the quarantine of corrupt ones.
  - `process`, `environment`, `cancellation`: launches, what a child inherits from the host, and
    how it is stopped.
  - `worktree`, `filesystem`, `approval`: Git worktrees and whose turn it is on a repository, the
    workspace-root capability, and approvals.
  - `recovery`: resuming interrupted runs at startup.
  - `protocol`: the command protocol between webview and host.
- `app/` performs what the core asks for, and holds the serializable forms of its types.
- `tests/` runs the core on concrete values.

An operation that alternates between deciding and disk or process work is a state machine:
`request` says what it asks for, `advance` takes the answer. A write is a list of steps, performed
in order up to the first that fails.
