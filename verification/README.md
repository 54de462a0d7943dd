# puppet

An actor framework without boxing or dynamic dispatch: each actor's messages form an enum,
and a mailbox sends them over a channel to the task that runs the actor.

## Layout

- `src/` — the verified library.
  - `lib.rs`: the runtime traits (`Actor`, `Message`, `Executor`, `MessageHandler`) and
    `ActorMailbox`.
  - `model.rs`: a plain-value model of the `impl` block an actor is derived from.
  - `generics_processor.rs`: moving bounds into the `where` clause, the generic builder that
    tracks which type parameters the messages use, the breadth-first walk over message types,
    and message extraction.
  - `handler.rs`: finding the `#[puppet]` / `#[puppet_with_reply]` handlers.
  - `generate.rs`: the whole derivation, from the model to the plan of the generated code.
  - `errors.rs`, `utils.rs`, `queue.rs`: diagnostics, helpers, and the work queue.
- `app/` — the `#[puppet_actor]` front end (parsing with `syn`, writing code with `quote`),
  the asynchronous and blocking sends, deferred responses and the reply handle.
- `tests/` — tests of the library.
