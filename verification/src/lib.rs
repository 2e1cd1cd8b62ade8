//! Verified core of a backward-chaining GOAP planner.
//!
//! Agents describe their state and the world's as snapshots; actions declare
//! preconditions, requirements and provisions; goals declare desired states.
//! The planner chains predecessor actions backward from a goal, matching the
//! provisions of candidate actions against open requirements, and verifies a
//! complete chain forward from the initial state before recording it as a plan.
//!
//! Modules:
//! - `snapshot`: plain-data values, world objects and blackboards.
//! - `requirement`, `precondition`, `plan_types`: the specs actions and goals carry.
//! - `planner`: branches, candidate discovery, the verification pass, policies.
//! - `scheduler`: decisions of the background job driver.
//! - `debug_tree`, `tree_text`, `logger`, `plan_tree`: search-tree recording and
//!   its text, logging, results.
use vstd::prelude::*;

pub mod debug_tree;
pub mod logger;
pub mod plan_tree;
pub mod plan_types;
pub mod planner;
pub mod precondition;
pub mod requirement;
pub mod scheduler;
pub mod snapshot;
pub mod tree_text;
