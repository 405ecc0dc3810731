# jx3sim

The verified core of a combat simulator and macro optimizer for two tank/damage
disciplines of JX3. The functions under `src/` carry `requires`/`ensures`
contracts that Verus proves, except the few marked `#[verifier::external_body]`
(the calls into `rand`, `String::push` and `char::is_alphanumeric`), whose
contracts Verus takes on trust; `app/` is the HTTP server around it.

## Layout

- `src/` — the library, verified by Verus.
  - `frames`, `cast_gate`, `player`, `recipes`, `formation`: haste frames and
    tiers, the cast gates and their reasons, a player's integer resources, recipe
    activation, and which selected formation the player opens itself.
  - `macro_text`, `compact`, `fmt`, `text`, `strings`: macro lines and pages as
    text, the compact form the game counts, decimal formatting, name sanitising
    and the settings filter.
  - `rules`, `struct_ops`, `ox`, `render`, `diversity`, `ga_events`: the rule pool
    of the structure search, its mutation operators and their odds, order
    crossover, page rendering under the character budget, the distance between
    individuals, and the order of a run's reports.
  - `loop_config`, `hashing`, `pareto`, `runtime`, `model`, `mount`: saved loop
    configurations, fingerprints, Pareto keys, run bookkeeping, request types and
    data paths.
  - `random`: the calls into `rand`, each with the contract the crate's source
    supports (trusted, not proved).
- `tests/` — tests of the library on concrete values.
- `app/` — the server: routes, file and network I/O, serde copies of the
  library's types, timing, and the threshold search's floating-point value handling.

Each module states its laws as public proof functions named `law_*`.
