# aionui_team

The coordination core of agent teams: the task board, delegated tasks, the
activity feed, rosters and engagements, and the rules by which the runtimes of
members are started, restarted, cleared, removed and stopped. The library is
written in Verus: every function states what it does. The statements about the
library's own code are proved. Those about the functions that it calls of
`serde_json`, `dashmap` and `std` are not: they stand on wrappers marked
`#[verifier::external_body]`, in `src/json.rs`, `src/sessions.rs` and
`src/text.rs`, and are believed.

## Layout

- `src/text.rs`, `src/order.rs`, `src/search.rs`: texts and their bytes, stable
  sorting, finding the first of a kind.
- `src/json.rs`: the JSON documents inside task rows.
- `src/task.rs`, `src/graph.rs`, `src/input_context.rs`, `src/board_spec.rs`,
  `src/board_laws.rs`, `src/task_board.rs`: tasks, what they wait on, what they
  hand to each other, and the board that holds them.
- `src/scheduler.rs`, `src/wake.rs`: what members may do with tasks, and what
  they are told when they wake.
- `src/result_delivery.rs`, `src/delegation.rs`: tasks for other teams and the
  way back of their results.
- `src/teams.rs`, `src/engagements.rs`, `src/membership.rs`, `src/roster.rs`,
  `src/models.rs`, `src/config.rs`: teams, their bindings to projects, their
  agents, options and tools.
- `src/activity.rs`, `src/paging.rs`: the feed of messages and tasks, page by
  page.
- `src/sessions.rs`, `src/idle.rs`: the sessions that run, and stopping those
  that have nothing to do.
- `src/runtime.rs`, `src/session_start.rs`, `src/reconcile.rs`,
  `src/restart.rs`, `src/context_reset.rs`, `src/addition.rs`,
  `src/removal.rs`: what runtimes answer, and the step by step decisions that
  follow.
- `src/service.rs`: what the owner of a team can ask of it.
- `app/`: the service around the core, with its stores, processes and messages
  behind ports.

The long-running operations are state machines: `step` takes what happened and
returns what is to be done next. `app/` does it and reports back.
