# azalea_pathfinder

Path planning and movement decisions for block-world clients, verified with
Verus.

- local A* over a snapshot of the loaded world, resumable in small slices
- walking, auto-stepping, jumping, gap parkour, ladders, swimming and falling
- lava and water policies with configurable movement costs
- a tick-driven path follower with pause, cancel and replan support
- shadow-first movement telemetry and bounded, guarded cost calibration
- scoped obstacle overlays and conservative path invalidation
- a small router for travel between areas

## Layout

| Part | What it holds |
| --- | --- |
| `src/local` | the world view, movement rules, search, path follower |
| `src/planning.rs` | motion plans: paths with a description of every step |
| `src/adaptive` | observations, estimates, cost models, profiles |
| `src/adaptive_follower.rs` | the follower that keeps books on its attempts |
| `src/resilience` | overlays, footprints, invalidation, splicing |
| `src/plugin` | the decisions of a navigating client |
| `src/graph.rs`, `src/router.rs` | travel between areas |
| `app` | the Azalea plugin, files, threads, and floating-point steering |

Everything in `src` maps plain values to plain values. Positions and headings
are floating point and stay in `app`, which measures what a decision needs and
performs what it answers.

## What is proved

Each function states what it returns, and the laws that relate several of them
stand as public proof functions beside them. Among these:

- a completed search is optimal, guided or not, and a partial path is a
  cheapest one to where it ends (`local/astar.rs`)
- a search comes to one path, whatever slices it is run in; the path seed
  decides among those that cost the same (`local/course.rs`)
- every turn of a search and every expansion is held to its time limits,
  whatever the clock shows (`local/pace.rs`)
- a position is expanded again only at a lower cost, so that finitely many
  positions bound the work (`local/astar.rs`, `local/graph_model.rs`)
- a search with time left, whose budget covers what can be walked to, always
  finds a path or shows that there is none (`local/route_laws.rs`)
- planned paths keep out of lava buffers and forbidden water, end on footing,
  and never drop deeper than configured (`local/route_laws.rs`)
- a change that misses every footprint of a route leaves the route, its safety
  and its cost as they were (`resilience/conservation.rs`)
- models change prices and nothing else, and only promoted models do
  (`local/route_laws.rs`, `adaptive/profile_laws.rs`)
- an observation counts at most once, and learning keeps profiles valid
  (`adaptive/profile_laws.rs`)

Trusted are the clock (`std::time::Instant`) and the `blake3` hash, each behind
one small function.

## Tracing

Set `PF_NAV_DEBUG` to trace navigation legs, or `PF_PARKOUR_DEBUG` to list the
gap jumps along each plan and the one being followed. With `PF_PATH_DIR` set,
each accepted plan is written to a file of its own in that directory.
