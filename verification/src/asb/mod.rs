//! ASB animation sequences: node types, file headers and tables, EXB expression
//! programs, and the writer's string pool, GUIDs and patch slots.
pub mod data_type;
pub mod source;
pub mod opcode;
pub mod node_type;
pub mod header;
pub mod baev_array;
pub mod parameter;
pub mod command;
pub mod blackboard;
pub mod node_tables;
pub mod node_connections;
pub mod node_body;
pub mod instruction;
pub mod exb;
pub mod writer;
pub mod exb_writer;
