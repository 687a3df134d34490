use vstd::prelude::*;

pub mod batcher;
pub mod capture;
pub mod channel;
pub mod graph;
pub mod links;
pub mod node;
pub mod order;
pub mod pairing;
pub mod policy;
pub mod props;
pub mod registry;
pub mod registry_state;
pub mod router;
pub mod routing;
pub mod search;
pub mod session;
pub mod settings;
pub mod sink;
pub mod text;
pub mod transport;
pub mod updates;
pub mod visuals;

verus! {

} // verus!
