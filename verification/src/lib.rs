//! A city builder's verified core: the material economy, the mass ledger, the seeded
//! ground, the road graph and the deterministic random stream.
pub mod exact;
pub mod lookup;
pub mod octree;
pub mod materials;
pub mod raycast;
pub mod render;
pub mod session;
pub mod sim;
pub mod strings;
