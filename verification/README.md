# polestar_models

State-machine models of Holochain and Kitsune components, with their
transitions proved against contracts by Verus.

- `src/machine.rs`: the `Machine` trait that every model implements: which
  actions a state admits, and the outcome of a transition stated as a spec
  function.
- `src/single_op.rs`, `src/op_single.rs`, `src/op_family.rs`,
  `src/op_network.rs`, `src/network_single_op.rs`: the life of ops, alone,
  in families with dependencies, and across nodes.
- `src/ops_model.rs`, `src/ops_system.rs`, `src/ops_projection.rs`: a node
  that authors, stores, validates and gossips ops, the abstract model of one
  op across the network, and the projection from the first to the second.
- `src/gossip_node.rs`, `src/gossip_node_timed.rs`, `src/gossip_network.rs`,
  `src/round_model.rs`, `src/shard.rs`, `src/arq.rs`: gossip between
  peers, gossip rounds, and the arcs of location space a node covers.
- `src/scheduler.rs`, `src/scheduler_ordered.rs`: schedules of timed values.
- `src/network.rs`, `src/network/`: networks of node machines over a
  topology, with recursive delivery of messages.
- `src/behavior.rs`, `src/scenario.rs`, `src/inline_model_checker.rs`:
  driving a machine by a behavior, and checking a run against a model.
- `src/holochain.rs`, `src/holochain/`: apps, cells and the conductor.
- `src/emojispam.rs`: typing, copying and pasting emojis, as a small
  machine whose every action has a cost.
- `src/sorted_map.rs`, `src/ids.rs`, `src/fx.rs`: a sorted map, ids, and
  effect handling.
- `app/`: the channel-driven runtime of the ops-system node, a process-wide
  id counter, and DOT output of graphs.
- `tests/`: tests of the library on concrete values.
