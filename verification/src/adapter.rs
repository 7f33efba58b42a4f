//! The allocator adapter: the fixed operation set a hosted runtime's
//! memory subsystem expects, routed through the boot-services binding.
//!
//! The embedding runtime calls [`setup_alloc`] once, before anything
//! else, handing over the firmware table and the memory category every
//! allocation is to be tagged with; the [`Allocator`] it returns carries
//! that state to every later call. With an ambient global binding,
//! calling an operation before setup would be undefined behavior — a
//! null table reference dereferenced, not a reportable error. Here no
//! operation can even be named before `setup_alloc` has run, because
//! the operations exist only on the value `setup_alloc` returns.
//!
//! Alignment parameters are accepted for interface compatibility and
//! ignored: firmware pool allocation takes no alignment, so a caller
//! needing more than the pool's own alignment is not served.
use vstd::prelude::*;

use crate::firmware::lemma_region_push;
use crate::firmware::lemma_region_update;
use crate::firmware::unchanged_except;
use crate::firmware::unchanged_except2;
use crate::firmware::PoolModel;
use crate::firmware::SystemTable;
use crate::table::MemoryType;

verus! {

/// The process-wide adapter state: the firmware table and the memory
/// category to tag every allocation with. Built exactly once per
/// process image, by [`setup_alloc`].
pub struct Allocator {
    pub system_table: SystemTable,
    pub mem_type: MemoryType,
}

/// The one-time setup operation: installs the firmware table reference
/// and the active memory category. Calling it again simply builds a
/// fresh state; calling anything else first is impossible, since the
/// operations live on the value returned here.
pub fn setup_alloc(system_table: SystemTable, mem_type: MemoryType) -> (a: Allocator)
    ensures
        a.system_table == system_table,
        a.mem_type == mem_type,
{
    Allocator { system_table, mem_type }
}

impl Allocator {
    /// The pool state behind the bound firmware table.
    pub open spec fn pool(self) -> PoolModel {
        self.system_table.boot_services@
    }

    pub open spec fn wf(self) -> bool {
        self.system_table.boot_services.wf()
    }

    /// Requests `size` bytes, tagged with the configured memory
    /// category. Returns the address of a fresh live region of exactly
    /// `size` bytes, or 0 when the firmware allocate step fails — a
    /// recoverable out-of-memory signal, never a stale pointer.
    pub fn allocate(&mut self, size: usize, align: usize) -> (r: usize)
        requires
            old(self).wf(),
        ensures
            final(self).wf(),
            final(self).mem_type == old(self).mem_type,
            final(self).pool() == old(self).pool().alloc_step(old(self).mem_type, size).0,
            r == old(self).pool().alloc_step(old(self).mem_type, size).1,
            (r != 0) == old(self).pool().can_allocate(size),
            r != 0 ==> !old(self).pool().has_region(r) && final(self).pool().is_live(r)
                && final(self).pool().region(r).bytes.len() == size
                && final(self).pool().region(r).mem_type == old(self).mem_type
                && final(self).pool().outstanding() == old(self).pool().outstanding() + 1,
            r == 0 ==> final(self).pool().regions == old(self).pool().regions
                && final(self).pool().outstanding() == old(self).pool().outstanding(),
            unchanged_except(old(self).pool(), final(self).pool(), r),
    {
        let _ = align;
        let mt = self.mem_type;
        self.system_table.boot_services.allocate_pool(mt, size)
    }

    /// Requests `size` bytes and zero-fills them: allocate, then one
    /// set-memory call over the whole region. Every byte of a region
    /// this returns is zero.
    pub fn allocate_zeroed(&mut self, size: usize, align: usize) -> (r: usize)
        requires
            old(self).wf(),
        ensures
            final(self).wf(),
            final(self).mem_type == old(self).mem_type,
            (r != 0) == old(self).pool().can_allocate(size),
            r != 0 ==> !old(self).pool().has_region(r) && final(self).pool().is_live(r)
                && final(self).pool().region(r).bytes.len() == size
                && final(self).pool().region(r).mem_type == old(self).mem_type
                && (forall|k: int| 0 <= k < size ==> final(self).pool().region(r).bytes[k] == 0)
                && final(self).pool().outstanding() == old(self).pool().outstanding() + 1,
            r == 0 ==> final(self).pool().regions == old(self).pool().regions
                && final(self).pool().outstanding() == old(self).pool().outstanding(),
            unchanged_except(old(self).pool(), final(self).pool(), r),
    {
        let _ = align;
        let mt = self.mem_type;
        let r = self.system_table.boot_services.allocate_pool(mt, size);
        if r != 0 {
            self.system_table.boot_services.set_mem(r, 0, size);
        }
        r
    }

    /// Returns the region at `ptr` to the firmware pool. The pointer
    /// must have come from a successful allocation and not have been
    /// freed since — anything else is undefined behavior by the
    /// firmware's contract, which is why the precondition, not a
    /// runtime check, excludes it. The old size and alignment are
    /// accepted for interface compatibility and ignored.
    pub fn deallocate(&mut self, ptr: usize, old_size: usize, align: usize)
        requires
            old(self).wf(),
            old(self).pool().is_live(ptr),
        ensures
            final(self).wf(),
            final(self).mem_type == old(self).mem_type,
            final(self).pool() == old(self).pool().free_step(ptr),
            final(self).pool().has_region(ptr) && !final(self).pool().is_live(ptr),
            final(self).pool().outstanding() + 1 == old(self).pool().outstanding(),
            unchanged_except(old(self).pool(), final(self).pool(), ptr),
    {
        let _ = old_size;
        let _ = align;
        self.system_table.boot_services.free_pool(ptr);
    }

    /// Moves the allocation at `ptr` (whose size is `old_size`) to a
    /// fresh region of `size` bytes: allocate, copy the smaller of the
    /// two sizes, free the old region. When the allocate step fails the
    /// result is 0 and the old region is left untouched — still live,
    /// its bytes intact, still freeable — so a failed grow loses
    /// nothing.
    pub fn reallocate(&mut self, ptr: usize, old_size: usize, size: usize, align: usize) -> (r:
        usize)
        requires
            old(self).wf(),
            old(self).pool().is_live(ptr),
            old(self).pool().region(ptr).bytes.len() == old_size,
        ensures
            final(self).wf(),
            final(self).mem_type == old(self).mem_type,
            (r != 0) == old(self).pool().can_allocate(size),
            r == 0 ==> final(self).pool().regions == old(self).pool().regions
                && final(self).pool().is_live(ptr)
                && final(self).pool().region(ptr) == old(self).pool().region(ptr)
                && final(self).pool().outstanding() == old(self).pool().outstanding(),
            r != 0 ==> r != ptr && !old(self).pool().has_region(r) && final(self).pool().is_live(r)
                && final(self).pool().region(r).bytes.len() == size
                && final(self).pool().region(r).mem_type == old(self).mem_type && (forall|k: int|
                0 <= k < old_size && k < size ==> final(self).pool().region(r).bytes[k]
                    == old(self).pool().region(ptr).bytes[k]) && final(self).pool().has_region(ptr)
                && !final(self).pool().is_live(ptr)
                && final(self).pool().outstanding() == old(self).pool().outstanding(),
            unchanged_except2(old(self).pool(), final(self).pool(), ptr, r),
    {
        let _ = align;
        let ghost m = old(self).pool();
        proof {
            let i = m.index_of(ptr);
            assert(m.regions[i].base == ptr);
        }
        let mt = self.mem_type;
        let out = self.system_table.boot_services.allocate_pool(mt, size);
        let ghost m1 = self.pool();
        if out == 0 {
            proof {
                assert(m1.has_region(ptr) == m.has_region(ptr));
                assert(m1.region(ptr) == m.region(ptr));
                assert forall|q: usize| q != ptr && q != 0usize implies #[trigger] m1.has_region(q)
                    == m.has_region(q) by {}
                assert forall|q: usize|
                    q != ptr && q != 0usize && m.has_region(q) implies #[trigger] m1.region(q)
                        == m.region(q) by {}
            }
            return 0;
        }
        proof {
            assert(ptr != out);
            assert(m1.has_region(ptr) == m.has_region(ptr));
            assert(m1.region(ptr) == m.region(ptr));
        }
        let n = crate::copy_length(old_size, size);
        self.system_table.boot_services.copy_mem(out, ptr, n);
        let ghost m2 = self.pool();
        proof {
            assert(m2.has_region(ptr) == m1.has_region(ptr));
            assert(m2.region(ptr) == m1.region(ptr));
        }
        self.system_table.boot_services.free_pool(ptr);
        let ghost m3 = self.pool();
        proof {
            assert(m3.has_region(out) == m2.has_region(out));
            assert(m3.region(out) == m2.region(out));
            assert forall|q: usize| q != ptr && q != out implies #[trigger] m3.has_region(q)
                == m.has_region(q) by {
                assert(m1.has_region(q) == m.has_region(q));
                assert(m2.has_region(q) == m1.has_region(q));
                assert(m3.has_region(q) == m2.has_region(q));
            }
            assert forall|q: usize|
                q != ptr && q != out && m.has_region(q) implies #[trigger] m3.region(q)
                    == m.region(q) by {
                assert(m1.has_region(q) == m.has_region(q));
                assert(m1.region(q) == m.region(q));
                assert(m2.has_region(q) == m1.has_region(q));
                assert(m2.region(q) == m1.region(q));
                assert(m3.region(q) == m2.region(q));
            }
        }
        out
    }

    /// Reports how far an allocation can grow without moving: firmware
    /// pool regions cannot be resized in place, so the answer is always
    /// the old size, and no firmware call is made (the receiver is not
    /// even mutable).
    pub fn reallocate_in_place(&self, ptr: usize, old_size: usize, size: usize, align: usize) -> (r:
        usize)
        ensures
            r == old_size,
    {
        let _ = ptr;
        let _ = size;
        let _ = align;
        old_size
    }

    /// The usable size of an allocation of `size` bytes: pool
    /// allocations carry no extra slack, so exactly the request.
    pub fn usable_size(&self, size: usize, align: usize) -> (r: usize)
        ensures
            r == size,
    {
        let _ = align;
        size
    }
}

/// Pairing law: for any `size > 0` that the pool can serve, an
/// allocation followed by deallocation of the returned address leaves no
/// observable allocation state behind — the balance of outstanding
/// allocations is back where it was, and exactly the addresses that were
/// live before are live after. The two steps here are the exact states
/// [`Allocator::allocate`] and [`Allocator::deallocate`] ensure.
pub proof fn lemma_allocate_deallocate_balanced(m: PoolModel, mem_type: MemoryType, size: usize)
    requires
        m.wf(),
        size > 0,
        m.can_allocate(size),
    ensures
        ({
            let (m1, r) = m.alloc_step(mem_type, size);
            let m2 = m1.free_step(r);
            &&& r != 0
            &&& m2.outstanding() == m.outstanding()
            &&& forall|q: usize| #[trigger] m2.is_live(q) == m.is_live(q)
        }),
{
    let (m1, r) = m.alloc_step(mem_type, size);
    let m2 = m1.free_step(r);
    let fresh = m1.regions.last();
    lemma_region_push(m, m1, fresh);
    let i = m1.index_of(r);
    lemma_region_update(m1, m2, i, m2.regions[i]);
    assert forall|q: usize| #[trigger] m2.is_live(q) == m.is_live(q) by {
        if q == r {
            assert(!m.has_region(r));
            assert(!m2.region(r).live);
        } else {
            assert(m1.has_region(q) == m.has_region(q));
            assert(m2.has_region(q) == m1.has_region(q));
            if m.has_region(q) {
                assert(m1.region(q) == m.region(q));
                assert(m2.region(q) == m1.region(q));
            }
        }
    }
}

} // verus!
