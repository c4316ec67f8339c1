//! The OSPFv2 state machines and the inputs and outputs of route computation.
pub mod interface;
pub mod neighbor;
pub mod paths;
pub mod spf;
pub mod spf_laws;
pub mod trail_laws;
