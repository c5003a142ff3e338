//! Settings of the Master and of a Cluster, with their defaults filled in.
//! Reading the configuration file happens outside; these functions take
//! what the file gave for each key (or nothing) and decide the settings.

pub mod cluster;
pub mod master;
