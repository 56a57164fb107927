//! EVFL event flows: the output writer with its relocation table, the lookup of
//! relocated pointer slots, the dictionary tree of names, and timeline triggers.
pub mod relocation;
pub mod writer;
pub mod radix;
pub mod trigger;
