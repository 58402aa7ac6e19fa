# dynatos

Reactivity for `dynatos`: signals, effects and triggers, with a verified core.

- `src/` is the library, verified with Verus. `world` holds the runtime
  state: the dependency graph between triggers and effects (`dep_graph`,
  over `petgraph`), the run queue (`run_queue`, over `priority-queue`), the
  stack of running effects and the world tags. The kinds of signals decide
  through `mapped`, `memo`, `async_load`, `ctx` and `with_default`; `signal`
  holds the operation traits every signal implements. `store` is a stack of
  values per key, and `query` / `location` read and write locations through
  `url`. `laws` states what holds across operations.
- `app/` holds the reference-counted handles (`Signal`, `Effect`, `Trigger`,
  `Derived`, `Memo`, mapped, async and enum split signals), the thread-local
  world they share, and the routing signals.
- `tests/` exercises the library.
