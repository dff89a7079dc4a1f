//! Minehouse: warehouse planning for a Minecraft storage system.
//!
//! The crate holds the planning logic of the warehouse: crafting plans,
//! container capacity simulation, transfer planning and the bookkeeping of
//! transfer documents and planner queues.
pub mod ids;
pub mod crafting;
pub mod item_stack;
pub mod capacity;
pub mod work;
pub mod grouping;
pub mod sorting;
pub mod staging;
pub mod cleanup;
pub mod queue;
pub mod storage_query;
pub mod transfer;
pub mod lowering;
pub mod regions;
pub mod craft_run;
pub mod craft_job;
pub mod execution;
pub mod endpoints;
pub mod cube;
pub mod exec_tree;
pub mod status;
pub mod recipe_rows;
pub mod planner_queue;
pub mod category;
pub mod rpc_error;
pub mod container_groups;
pub mod putaway_run;
pub mod allocation;
pub mod laws;
