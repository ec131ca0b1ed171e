//! The virtual-memory manager: page entries, directories and tables, the
//! frame allocator, the mapping strategies and the checks on user memory.

pub mod invalidate_page;
pub mod mmu;
pub mod page_entry;
pub mod paging;
pub mod vm_internal;
pub mod address_mapping;
pub mod direct_mapping;
pub mod frame_alloc;
pub mod alloc_mapping;
pub mod mapped_memory;
pub mod memory_alloc;
pub mod manager;
pub mod directory;
pub mod page;
pub mod validate_memory;
