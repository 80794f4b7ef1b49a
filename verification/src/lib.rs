use vstd::prelude::*;

pub mod text;
pub mod value;
pub mod blackboard;
pub mod boards;
pub mod condition;
pub mod effect;
pub mod htn;
pub mod grammar;
pub mod parser;
pub mod actor;
pub mod planning_actor;
pub mod sorting;
pub mod registry;
pub mod fact_htn;

verus! {
} // verus!
