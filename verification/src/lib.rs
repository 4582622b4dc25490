//! Post-commit notifications and override dry runs of a node.

pub mod cache_update_handler;
pub mod commit_hooks;
pub mod delivery;
pub mod dry_run;
pub mod framing;
pub mod object;
pub mod object_map;
pub mod pool_related;
pub mod text;
pub mod tx_handler;
pub mod written_objects;
