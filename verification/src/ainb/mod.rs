//! AINB AI-node graphs: the writer with its string pool, headers, commands, parameters
//! and the GUID text that reading and writing share.
pub mod common;
pub mod header;
pub mod section;
pub mod node;
pub mod command;
pub mod blackboard;
pub mod model;
pub mod parameter;
pub mod property;
pub mod param_set;
pub mod attachment;
pub mod writer;
pub mod guid;
