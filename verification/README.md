# ala_cities

The rules of a small city simulation whose buildings are made of material the world
actually gives up, written in Verus: every function carries a contract, and the proofs
are checked by the verifier.

## Layout

- `src/` — the verified library.
  - `materials/` — the material tables (substances, processes, units, the world
    mapping of parts to families), the schema checks and the audit report, the
    reduction of a wanted good to gathers and processes (`chain`), the ledger and its
    mass audit, the geology that derives a tile's deposit from the seed, and surface
    regrowth.
  - `sim/` — the city's types (tiles, zones, structures, claims, shortages, the clock
    and the save migration), the ground (`ground`: road legs, zoning, deposits, takes,
    material plans and the mass audit), power (`power`), the city itself (`city`:
    placing and demolishing structures, the recount, posting and paying for build work,
    settling residents and filling jobs), growth (`growth`: build work posted where the
    zones want it), work (`works`: labour on the site and completion or refusal),
    movement (`walk`: walking routes a quarter or a whole step a tick, and routing
    parked residents over the roads), the road graph and its routes (`road`), tasks,
    citizens and the seeded random generator.
  - `session.rs` — the interaction capture's cap and refusal, and the feedback record.
  - `octree.rs` — a sparse voxel octree with read-after-write contracts and a digest.
  - `strings.rs`, `lookup.rs`, `exact.rs` — text, search and exact-arithmetic helpers
    the contracts are stated with.
- `tests/` — tests on concrete values, run against the compiled library.
- `app/` — the parts that are not verified: floating-point effects and colours, the
  money and demand, wear and repair, terrain noise and a new map, ray casting through
  `glam`, the random floats, a citizen's step fraction for drawing, the allowance the
  demand affords growth, the playtest files on disk, and serde copies of the saved
  types.
