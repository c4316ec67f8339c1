//! Decision logic of an OSPFv2/OSPFv3 routing daemon, with machine-checked contracts.
pub mod area;
pub mod cli;
pub mod config;
pub mod control;
pub mod daemon_v3;
pub mod daemon_v3_laws;
pub mod election;
pub mod instance;
pub mod instance_v3;
pub mod io;
pub mod io_punt;
pub mod io_punt_v3;
pub mod io_v3;
pub mod lsdb;
pub mod lsdb_v3;
pub mod packet;
pub mod packet_v3;
pub mod prefix;
pub mod proto;
pub mod spf_v3;
pub mod spf_v3_laws;
pub mod text;
pub mod wire;
