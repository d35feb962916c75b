# cersei

A verified library for coding agents, and the runtime around it.

`src/` holds the logic, with contracts that Verus proves:

- `json`, `types`, `wire`, `text`, `keyed`, `sort`, `paths`: values and texts.
- `stream`, `framing`, `anthropic`, `anthropic_vertex`, `openai`: requests to model
  providers, and what their responses say.
- `agent`, `runner`, `tool_results`, `benchmark`: how an agent runs, turn by turn.
- `search`, `glob_tool`: searches of files.
- `sandbox`, `sprites`, `ndjson`, `vercel`, `vercel_runtime`: remote sandboxes.
- `memo`, `workflow`, `workflow_builder`, `executor`: workflows.

A run of an agent and a walk through a workflow are state machines: each call returns
the work to do next, and takes what came of it. `app/` does that work: it talks to the
network and the file system, and calls tools, hooks and steps.

`tests/` holds the tests.
