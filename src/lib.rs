//! Generational references: an arena that hands out owning handles and
//! checked, non-owning handles whose validity is decided by per-slot
//! generation counters.
pub mod arena;
pub mod laws;
pub mod slot_table;

pub use arena::{ArenaModel, Gr, GrArena, Weak};
pub use slot_table::{SlotTable, SlotsModel, BLOCK_SIZE, FIRST_GEN};
