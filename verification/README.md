# unleashed_agent

The rules of an editor's autonomous coding agent, written in Rust and proved with Verus: what its
tools may touch, which pages it may fetch, what it remembers of a project, when it stops.

## Layout

- `src/` is the library. Every function states what it does in `requires` and `ensures`, and Verus
  proves it. Public proof functions (`lemma_*`) state what holds across functions.
  - `agent_settings`, `settings_content`, `tool_permissions`, `security_rules`, `layout`: settings,
    and what they allow.
  - `goal`, `goal_mode_selector`, `repetition_watchdog`, `worker_pool`: when the agent goes on, and
    when it stops.
  - `project_memory`, `journal_laws`, `summary_laws`: the summary and the journal of a project.
  - `rag`: the index of documents.
  - `request`, `tool_call_normalization`, `tool_call_smoke`, `open_ai_compatible`,
    `network_agent`, `network_agent_health`: what is sent to a model, and how its answers are read.
  - `tools`: the tools of the agent. A tool that has to ask, to wait or to act is a step function
    from a state and an event to a state and an action.
  - `web_research`: URLs, requests, pages, the browser, and sessions of research.
  - `text`, `bytes`, `json`, `base64`, `hashing`, `images`, `paths`, `sorting`, `assoc`: what the
    rest is built from.
- `app/` does what the actions ask for: it reads and writes files, sends requests, runs programs, draws,
  and turns JSON into the library's types.
- `tests/` runs the library on concrete values.

## What is trusted

Calls into other crates (`serde_json`, `url`, `regex`, `sha2`, `base64`, `image`, `convert_case`,
`partial-json-fixer`) and into parts of `std` without a specification stand behind small functions
marked `external_body`. The comment above each says what it takes for granted. Where a result
cannot be stated in a few lines it has a name, and contracts speak of that name.
