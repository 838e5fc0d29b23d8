//! Simulation of virtual-to-physical address translation for a single
//! memory management unit: an address codec, a page table, a bounded pool
//! of physical frames, and a pluggable frame-eviction policy, reporting
//! for each translated address whether it was a hit or a page fault.

pub mod address;
pub mod counter;
pub mod lru;
pub mod mmu;
pub mod page_table;
pub mod pal;
pub mod primary;
pub mod second_chance;
pub mod trace;

pub use address::LogicalAddress;
pub use counter::CounterPALTable;
pub use counter::CounterPALTableEntry;
pub use lru::LRUPALTable;
pub use lru::LRUPALTableEntry;
pub use mmu::MMU;
pub use mmu::Session;
pub use mmu::TranslationError;
pub use mmu::TranslationResult;
pub use page_table::PageTable;
pub use page_table::PageTableEntry;
pub use pal::PAL;
pub use pal::PALAlgorithm;
pub use pal::PALTable;
pub use primary::Frame;
pub use primary::PrimaryMemory;
pub use second_chance::SecondChancePALTable;
pub use second_chance::SecondChancePALTableEntry;
pub use trace::Trace;
