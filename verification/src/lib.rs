//! Verified state-machine models of Holochain and Kitsune components.

use vstd::prelude::*;

pub mod arq;
pub mod behavior;
pub mod emojispam;
pub mod fx;
pub mod gossip_network;
pub mod holochain;
pub mod gossip_node;
pub mod gossip_node_timed;
pub mod ids;
pub mod inline_model_checker;
pub mod machine;
pub mod network;
pub mod network_single_op;
pub mod op_family;
pub mod op_network;
pub mod op_single;
pub mod round_model;
pub mod scenario;
pub mod ops_model;
pub mod ops_projection;
pub mod ops_system;
pub mod scheduler;
pub mod scheduler_ordered;
pub mod single_op;
pub mod shard;
pub mod sorted_map;

verus! {

} // verus!
