//! A freestanding heap-allocator backend for a hosted runtime that runs
//! directly atop boot firmware, with no operating system underneath.
//!
//! The library has two layers. The firmware table binding (`table`,
//! `firmware`) describes the firmware's dispatch tables and gives typed
//! access to the four memory primitives the allocator consumes:
//! allocate-pool, free-pool, copy-memory and set-memory. The allocator
//! adapter (`adapter`) exposes the fixed operation set a hosted runtime's
//! memory subsystem expects — allocate, allocate_zeroed, deallocate,
//! reallocate, reallocate_in_place, usable_size — and translates each into
//! calls through the binding.
//!
//! The firmware's own memory manager lives on the far side of a binary ABI
//! and a foreign calling convention, which verification cannot cross. The
//! library therefore verifies against a pool model: `firmware::BootServices`
//! keeps the regions a firmware pool allocator would keep (base address,
//! liveness, tag, byte contents) and its four primitives carry exact
//! contracts over that state. The adapter's contracts — what is returned,
//! what is freed, which bytes are preserved or zeroed, when failure is
//! reported — are proved against those primitives. An embedding that talks
//! to real firmware supplies the thin foreign-call layer itself and reuses
//! the verified decision functions (`normalize_pool_result`, `copy_length`)
//! and the layout constants of `table`.
use vstd::prelude::*;

pub mod adapter;
pub mod firmware;
pub mod table;

pub use adapter::setup_alloc;
pub use adapter::Allocator;
pub use firmware::BootServices;
pub use firmware::SystemTable;
pub use table::CVoid;
pub use table::MemoryType;
pub use table::TableHeader;

verus! {

/// The firmware status word that reports success. Any other status is a
/// failure and is normalized by the binding to a null result.
pub const STATUS_SUCCESS: u64 = 0;

/// The firmware status word for an exhausted pool, the one failure the
/// pool model itself ever reports.
pub const STATUS_OUT_OF_RESOURCES: u64 = 0x8000_0000_0000_0009;

/// The hardening the binding applies to every allocate-pool call: on any
/// non-success status the out-pointer firmware wrote must be treated as
/// invalid, so the binding hands upstream code a null address instead.
pub fn normalize_pool_result(status: u64, out: usize) -> (r: usize)
    ensures
        r == (if status == STATUS_SUCCESS {
            out
        } else {
            0usize
        }),
{
    if status == STATUS_SUCCESS {
        out
    } else {
        0
    }
}

/// How many bytes a relocation moves: the old content on growth, a
/// truncated prefix on shrink — the smaller of the two sizes either way.
pub fn copy_length(old_size: usize, new_size: usize) -> (r: usize)
    ensures
        r == (if old_size <= new_size {
            old_size
        } else {
            new_size
        }),
{
    if old_size <= new_size {
        old_size
    } else {
        new_size
    }
}

} // verus!
