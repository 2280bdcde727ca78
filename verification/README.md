# codex_core

Context planning for a long-running agent session. The library decides what a model still sees
verbatim, what is summarised, and what a request may hold.

- **Exact-tail compaction** (`exact_tail*`): the newest groups of a history stay item for item as
  they are, the rest is summarised, and the replacement is checked to fit before it is installed.
- **Rolling prompts** (`rolling*`, `summary_tree*`, `projection_basis`): a prompt moves along the
  history; what it leaves behind is folded pair by pair into a tree of summaries that covers every
  group exactly once.
- **Transcripts and retention** (`transcript`, `retention`, `compact`): a history told as plain
  messages, and the messages that stay beside a summary.
- **Tasks** (`task*`, `stream`, `route`): the steps of a compaction between the calls to the model.
- **Memories** (`scratchpad*`, `stage_one`, `words`): reading scratchpads and drawing memories.

`session_model` names what planning has to know of the session, and `marker_model` is one session
of that kind. The laws that relate several functions are public proof functions whose names begin
with `law_`. `app/` holds the drivers: streams, files, clock and state database.
