# strack_sim

A packet-level simulator for data-centre networks, written in Rust and verified with Verus.

## Layout

- `src/engine`: events, the event queue and the clock.
- `src/network`: packets, links, switches with shared buffers, drop rules and host delays.
- `src/nic`: the transport protocols (a simple TCP, Cubic, Reno, DCQCN, HPCC, STrack over RDMA) with
  their senders and receivers, behind the trait `Protocol`.
- `src/topology`: dumbbell, leaf-spine, fat-tree and multi-rail networks with their routing tables.
- `src/traffic`: workload generators (incast, all-reduce, all-to-all, permutations, mixes,
  synthetic arrivals).
- `src/training`: collectives and the communication plan of a training step.
- `src/sim_runner`: the main loop, which drives hosts and switches from the event queue.
- `src/monitor`, `src/viz`: flow completion times, percentiles, node placement and sampling.
- `tests`: ordinary tests of the library.
- `app`: what needs floating point, formatting or serialisation: reports, the cubic curve, the
  HPCC scaling, heavy-tailed sizes, Poisson gaps and the JSON of the visualisation.

## What is proved

Every public function states its result, or how it changes its argument, in `requires` and
`ensures`. Properties that span functions are public proof functions whose names start with `law_`.

What an event handler or a transport protocol of a user does is described by the user: a handler
through the calls that it has had, a protocol through relations between its states. The event loops
state which calls they make, in which order, and what they do with the answers.

The pseudo-random generator comes from `rand` and `rand_pcg`. What the library takes from them on
trust is declared in `src/traffic/rng.rs`.
