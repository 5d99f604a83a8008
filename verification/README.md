# jam_services

Example JAM services with their logic verified in Verus.

- `src/` — the verified library:
  - `game` — Game of Life on a wrapping square board (`Game`, `XY`, `Mutation`),
    with the laws that applying `next_step`'s mutations gives the next
    generation, that a shifted board shifts the neighbour counts, and that
    `export` and `new` invert each other. `count_neighbours` computes a
    neighbour coordinate with Rust's remainder, which is negative left of the
    first row or column, so it runs only away from those edges or on a board of
    one cell; `next_step` visits every cell and so runs only on boards of at
    most one cell (larger boards would index out of bounds).
  - `life_service` — what one accumulation of the Game of Life service
    stores, from what it read and the slot number.
  - `fib` — saturating and wrapping Fibonacci.
  - `keys` — decimal storage keys (`module{n}`, `transfer{n}`) and the
    bookkeeping of incoming transfers.
  - `wasm_service` — the state seen by WASM host functions, and what an
    invocation (decoded by the JAM codec) asks for.
  - `bootstrap` — the bootstrap service without its host calls: payloads split
    into instructions (decoded by the JAM codec), and what refinement and
    accumulation do for each instruction.
  - `codec` — the fixed-width integers and transfer records of the JAM codec,
    behind trusted wrappers.
- `app/` — the services themselves: entry points, storage, host calls, logging,
  and the `wasmi` engine.
- `tests/` — tests of the library on concrete values.
