//! Editing engines for schematic and PCB documents.

pub mod types;
pub mod graph;
pub mod geometry;
pub mod text_order;
pub mod sch_records;
pub mod netlist;
pub mod library;
pub mod layout;
pub mod pcb_records;
pub mod pcb_placement;
pub mod pcb_session;
pub mod routing;
pub mod session;
