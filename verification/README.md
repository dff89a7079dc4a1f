# Minehouse

Warehouse planning for a Minecraft storage system, written in Verus: the
planning logic is executable Rust whose behaviour is stated in `requires` /
`ensures` contracts and proved.

## Layout

- `src/` — the verified library.
  - `crafting`, `execution`, `exec_tree`, `recipe_rows`: crafting plans (recipe
    trees with choices, raw material totals), the stored nodes of craft jobs and
    their execution trees.
  - `craft_run`, `craft_job`, `staging`, `cleanup`, `capacity`: running crafts —
    staging ingredients into processing containers, simulating container
    capacity, clearing processing regions into bulk storage.
  - `transfer`, `lowering`, `endpoints`, `work`: transfer requests and
    documents between storage endpoints, and the work units that move items.
  - `putaway_run`: draining putaway regions into bulk storage, one decision
    at a time, with the endpoint work between decisions left to the caller.
  - `queue`, `planner_queue`, `status`: the planner's queues and the status
    report.
  - `regions`, `container_groups`, `category`, `storage_query`, `item_stack`:
    regions, containers and storage search.
  - `cube`: the binary form of the database's `cube` type.
  - `grouping`, `sorting`: stable grouping and sorting used throughout.
  - `laws`, `allocation`: properties that span several functions.
  - `ids`: the calls into `uuid` and `std` formatting that the library makes.
- `tests/` — tests of the library on concrete values.
- `app/` — the server around the library: configuration, the PostgreSQL
  queries (region leasing among them), the HTTP API, the shared planner
  queue, and the driver of putaway runs.
