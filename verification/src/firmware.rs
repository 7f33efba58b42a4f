//! The boot-services binding: the four memory primitives of the
//! firmware's boot-services table, verified against a pool model.
//!
//! Real firmware keeps a pool of allocated regions behind its
//! allocate-pool and free-pool services; this module keeps the same
//! bookkeeping as plain data. [`BootServices`] holds every region ever
//! handed out — its base address, whether it is still live, the memory
//! category it was tagged with, and its byte contents — together with the
//! count of outstanding allocations and the count of primitive calls
//! made. The four primitives carry exact contracts over the ghost
//! [`PoolModel`] view, so everything the allocator adapter does with them
//! is proved, and a test can stand this model in for firmware and observe
//! balances, byte contents and call counts.
use vstd::prelude::*;

use crate::normalize_pool_result;
use crate::table::MemoryType;
use crate::table::TableHeader;
use crate::STATUS_OUT_OF_RESOURCES;
use crate::STATUS_SUCCESS;

verus! {

/// The byte value a fresh pool region is filled with. Firmware leaves
/// fresh pool memory unspecified; the model picks a recognizable value
/// so that no caller can mistake fresh memory for zeroed memory.
pub const FRESH_BYTE: u8 = 0xCD;

/// One pool region, as the model remembers it: where it starts, whether
/// it is still allocated, the category it was tagged with, and its bytes.
#[verifier::ext_equal]
pub ghost struct RegionModel {
    pub base: usize,
    pub live: bool,
    pub mem_type: MemoryType,
    pub bytes: Seq<u8>,
}

/// The mathematical state of the pool: every region ever handed out (in
/// order of allocation, bases strictly increasing), the next base to hand
/// out, whether allocation is currently failing, and how many primitive
/// calls have been made.
#[verifier::ext_equal]
pub ghost struct PoolModel {
    pub regions: Seq<RegionModel>,
    pub next_base: usize,
    pub failing: bool,
    pub calls: u64,
}

/// A call counter one higher, pinned at its ceiling.
pub open spec fn bump(c: u64) -> u64 {
    if c == u64::MAX {
        c
    } else {
        (c + 1) as u64
    }
}

/// How many of the regions are still allocated.
pub open spec fn live_count(s: Seq<RegionModel>) -> nat
    decreases s.len(),
{
    if s.len() == 0 {
        0
    } else {
        live_count(s.drop_last()) + if s.last().live {
            1nat
        } else {
            0nat
        }
    }
}

impl PoolModel {
    /// Well-formedness: bases are nonzero, below the next base to hand
    /// out, and strictly increasing — so an address names at most one
    /// region, live or dead, and the next region is fresh.
    pub open spec fn wf(self) -> bool {
        &&& self.next_base > 0
        &&& forall|i: int|
            0 <= i < self.regions.len() ==> 0 < (#[trigger] self.regions[i]).base < self.next_base
        &&& forall|i: int, j: int|
            0 <= i < j < self.regions.len() ==> self.regions[i].base < self.regions[j].base
    }

    /// Region `i` exists and starts at `addr`.
    pub open spec fn is_region_at(self, i: int, addr: usize) -> bool {
        0 <= i < self.regions.len() && self.regions[i].base == addr
    }

    /// Some region (live or dead) starts at `addr`.
    pub open spec fn has_region(self, addr: usize) -> bool {
        exists|i: int| self.is_region_at(i, addr)
    }

    /// The index of the region starting at `addr` (meaningful when
    /// `has_region(addr)`; under `wf` it is unique).
    pub open spec fn index_of(self, addr: usize) -> int {
        choose|i: int| self.is_region_at(i, addr)
    }

    /// The region starting at `addr` (meaningful when `has_region(addr)`).
    pub open spec fn region(self, addr: usize) -> RegionModel {
        self.regions[self.index_of(addr)]
    }

    /// The region starting at `addr` exists and is still allocated.
    pub open spec fn is_live(self, addr: usize) -> bool {
        self.has_region(addr) && self.region(addr).live
    }

    /// How many allocations are outstanding (allocated, not yet freed).
    pub open spec fn outstanding(self) -> nat {
        live_count(self.regions)
    }

    /// Whether an allocation of `size` bytes will succeed: the model
    /// fails when failure is injected or when the pool's address space
    /// is exhausted.
    pub open spec fn can_allocate(self, size: usize) -> bool {
        !self.failing && size < usize::MAX - self.next_base
    }

    /// The pool after one allocate-pool call, and the address it
    /// returns: on success a fresh live region of `size` bytes tagged
    /// `mem_type`, filled with [`FRESH_BYTE`]; on failure the address 0
    /// and no new region. Every call, either way, is counted.
    pub open spec fn alloc_step(self, mem_type: MemoryType, size: usize) -> (PoolModel, usize) {
        if self.can_allocate(size) {
            (
                PoolModel {
                    regions: self.regions.push(
                        RegionModel {
                            base: self.next_base,
                            live: true,
                            mem_type,
                            bytes: Seq::new(size as nat, |k: int| FRESH_BYTE),
                        },
                    ),
                    next_base: (self.next_base + size + 1) as usize,
                    failing: self.failing,
                    calls: bump(self.calls),
                },
                self.next_base,
            )
        } else {
            (
                PoolModel {
                    regions: self.regions,
                    next_base: self.next_base,
                    failing: self.failing,
                    calls: bump(self.calls),
                },
                0usize,
            )
        }
    }

    /// The pool after one free-pool call on `addr` (meaningful when
    /// `is_live(addr)`): the region stays on the books with its bytes,
    /// but is no longer allocated.
    pub open spec fn free_step(self, addr: usize) -> PoolModel {
        let i = self.index_of(addr);
        let r = self.regions[i];
        PoolModel {
            regions: self.regions.update(
                i,
                RegionModel { base: r.base, live: false, mem_type: r.mem_type, bytes: r.bytes },
            ),
            next_base: self.next_base,
            failing: self.failing,
            calls: bump(self.calls),
        }
    }

    /// The pool after one set-memory call: the first `n` bytes of the
    /// region at `addr` become `c`, the rest keep their values.
    pub open spec fn set_step(self, addr: usize, c: u8, n: usize) -> PoolModel {
        let i = self.index_of(addr);
        let r = self.regions[i];
        PoolModel {
            regions: self.regions.update(
                i,
                RegionModel {
                    base: r.base,
                    live: r.live,
                    mem_type: r.mem_type,
                    bytes: Seq::new(
                        r.bytes.len(),
                        |k: int|
                            if k < n {
                                c
                            } else {
                                r.bytes[k]
                            },
                    ),
                },
            ),
            next_base: self.next_base,
            failing: self.failing,
            calls: bump(self.calls),
        }
    }

    /// The pool after one copy-memory call: the first `n` bytes of the
    /// region at `dest` become the first `n` bytes of the region at
    /// `src`, the rest keep their values (meaningful when the two
    /// regions are distinct — the firmware's copy does not promise
    /// overlap safety, and distinct pool regions never overlap).
    pub open spec fn copy_step(self, dest: usize, src: usize, n: usize) -> PoolModel {
        let di = self.index_of(dest);
        let d = self.regions[di];
        let s = self.region(src);
        PoolModel {
            regions: self.regions.update(
                di,
                RegionModel {
                    base: d.base,
                    live: d.live,
                    mem_type: d.mem_type,
                    bytes: Seq::new(
                        d.bytes.len(),
                        |k: int|
                            if k < n {
                                s.bytes[k]
                            } else {
                                d.bytes[k]
                            },
                    ),
                },
            ),
            next_base: self.next_base,
            failing: self.failing,
            calls: bump(self.calls),
        }
    }
}

/// The ghost image of a sequence of concrete regions.
pub open spec fn regions_view(v: Seq<PoolRegion>) -> Seq<RegionModel> {
    Seq::new(v.len(), |i: int| v[i]@)
}

/// One pool region as the executable model stores it.
pub struct PoolRegion {
    pub base: usize,
    pub live: bool,
    pub mem_type: MemoryType,
    pub bytes: Vec<u8>,
}

impl View for PoolRegion {
    type V = RegionModel;

    open spec fn view(&self) -> RegionModel {
        RegionModel {
            base: self.base,
            live: self.live,
            mem_type: self.mem_type,
            bytes: self.bytes@,
        }
    }
}

/// The boot-services table as the allocator consumes it: the table
/// header and the state behind its four memory primitives, kept as a
/// verified pool model. The `outstanding` field caches the number of
/// live regions so a test can read the balance in constant time.
pub struct BootServices {
    pub header: TableHeader,
    pub regions: Vec<PoolRegion>,
    pub next_base: usize,
    pub failing: bool,
    pub calls: u64,
    pub outstanding: usize,
}

impl View for BootServices {
    type V = PoolModel;

    open spec fn view(&self) -> PoolModel {
        PoolModel {
            regions: regions_view(self.regions@),
            next_base: self.next_base,
            failing: self.failing,
            calls: self.calls,
        }
    }
}

impl BootServices {
    /// Well-formedness: the pool model is well formed and the cached
    /// balance equals the number of live regions.
    pub open spec fn wf(self) -> bool {
        &&& self@.wf()
        &&& self.outstanding == self@.outstanding()
    }

    /// An empty pool: no regions handed out yet, nothing failing.
    pub fn new(header: TableHeader) -> (bs: BootServices)
        ensures
            bs.wf(),
            bs.header == header,
            bs@.regions =~= Seq::<RegionModel>::empty(),
            bs@.next_base == 1,
            bs@.failing == false,
            bs@.calls == 0,
            bs@.outstanding() == 0,
    {
        let bs = BootServices {
            header,
            regions: Vec::new(),
            next_base: 1,
            failing: false,
            calls: 0,
            outstanding: 0,
        };
        proof {
            assert(bs@.regions =~= Seq::<RegionModel>::empty());
        }
        bs
    }

    /// The index of the region starting at `addr`, if there is one.
    fn find_index(&self, addr: usize) -> (r: Option<usize>)
        ensures
            match r {
                Some(i) => self@.is_region_at(i as int, addr),
                None => !self@.has_region(addr),
            },
    {
        let n = self.regions.len();
        let mut j: usize = 0;
        while j < n
            invariant
                n == self.regions.len(),
                j <= n,
                forall|k: int| 0 <= k < j ==> #[trigger] self.regions@[k].base != addr,
            decreases n - j,
        {
            if self.regions[j].base == addr {
                return Some(j);
            }
            j += 1;
        }
        proof {
            assert forall|i: int| !self@.is_region_at(i, addr) by {
                if 0 <= i < self.regions@.len() {
                    assert(self.regions@[i].base != addr);
                }
            }
        }
        None
    }

    /// The allocate-pool primitive: requests `size` bytes tagged with
    /// `mem_type`. Firmware reports a status word and writes an
    /// out-pointer; on any non-success status the out-pointer is
    /// invalid, so this binding checks the status and hands upstream
    /// code a null address instead of whatever firmware wrote.
    pub fn allocate_pool(&mut self, mem_type: MemoryType, size: usize) -> (r: usize)
        requires
            old(self).wf(),
        ensures
            final(self).wf(),
            final(self)@ == old(self)@.alloc_step(mem_type, size).0,
            r == old(self)@.alloc_step(mem_type, size).1,
            final(self).header == old(self).header,
            final(self)@.next_base >= old(self)@.next_base,
            final(self)@.failing == old(self)@.failing,
            final(self)@.calls == bump(old(self)@.calls),
            (r != 0) == old(self)@.can_allocate(size),
            r != 0 ==> !old(self)@.has_region(r) && final(self)@.is_live(r)
                && final(self)@.region(r).base == r
                && final(self)@.region(r).mem_type == mem_type
                && final(self)@.region(r).bytes == Seq::new(size as nat, |k: int| FRESH_BYTE)
                && final(self)@.outstanding() == old(self)@.outstanding() + 1,
            r == 0 ==> final(self)@.regions == old(self)@.regions && final(self)@.outstanding()
                == old(self)@.outstanding(),
            unchanged_except(old(self)@, final(self)@, r),
    {
        let ghost m = old(self)@;
        let status: u64;
        let mut out: usize = 0;
        if self.failing || size >= usize::MAX - self.next_base {
            status = STATUS_OUT_OF_RESOURCES;
            proof {
                assert(!m.can_allocate(size));
            }
        } else {
            status = STATUS_SUCCESS;
            let base = self.next_base;
            let mut bytes: Vec<u8> = Vec::new();
            let mut k: usize = 0;
            while k < size
                invariant
                    bytes@.len() == k,
                    k <= size,
                    forall|t: int| 0 <= t < k ==> bytes@[t] == FRESH_BYTE,
                decreases size - k,
            {
                bytes.push(FRESH_BYTE);
                k += 1;
            }
            proof {
                assert(bytes@ =~= Seq::new(size as nat, |t: int| FRESH_BYTE));
                assert(self.outstanding < usize::MAX) by {
                    lemma_region_count_bounded(m);
                    lemma_live_count_le_len(m.regions);
                }
            }
            self.regions.push(PoolRegion { base, live: true, mem_type, bytes });
            self.next_base = base + size + 1;
            self.outstanding = self.outstanding + 1;
            out = base;
        }
        self.calls =
        if self.calls == u64::MAX {
            u64::MAX
        } else {
            self.calls + 1
        };
        proof {
            let m2 = m.alloc_step(mem_type, size).0;
            if m.can_allocate(size) {
                assert(self@.regions =~~= m2.regions);
                assert(self@ =~~= m2);
                lemma_region_push(m, m2, m2.regions.last());
            } else {
                assert(self@ =~~= m2);
                lemma_same_regions(m, m2, 0);
            }
        }
        normalize_pool_result(status, out)
    }

    /// The free-pool primitive: returns the region at `p` to the pool.
    /// Handing it a pointer that did not come from allocate-pool (or one
    /// already freed) is undefined behavior by the firmware's contract,
    /// so the precondition demands a live region.
    pub fn free_pool(&mut self, p: usize)
        requires
            old(self).wf(),
            old(self)@.is_live(p),
        ensures
            final(self).wf(),
            final(self)@ == old(self)@.free_step(p),
            final(self).header == old(self).header,
            final(self)@.next_base == old(self)@.next_base,
            final(self)@.failing == old(self)@.failing,
            final(self)@.calls == bump(old(self)@.calls),
            final(self)@.has_region(p) && !final(self)@.is_live(p),
            final(self)@.region(p).bytes == old(self)@.region(p).bytes,
            final(self)@.region(p).mem_type == old(self)@.region(p).mem_type,
            final(self)@.outstanding() + 1 == old(self)@.outstanding(),
            unchanged_except(old(self)@, final(self)@, p),
    {
        let ghost m = old(self)@;
        let i = self.region_index(p);
        proof {
            lemma_live_count_pos(m.regions, i as int);
            lemma_live_count_le_len(m.regions);
        }
        let mut region = self.regions.remove(i);
        region.live = false;
        self.regions.insert(i, region);
        self.outstanding = self.outstanding - 1;
        self.calls =
        if self.calls == u64::MAX {
            u64::MAX
        } else {
            self.calls + 1
        };
        proof {
            assert(self.regions@ =~= old(self).regions@.update(i as int, self.regions@[i as int]));
            let m2 = m.free_step(p);
            assert(self@.regions =~~= m2.regions);
            assert(self@ =~~= m2);
            lemma_region_update(m, m2, i as int, m2.regions[i as int]);
        }
    }

    /// The set-memory primitive: writes the byte `c` over the first `n`
    /// bytes of the region at `s`, and reports `s` back as firmware's
    /// set-memory leaves the destination pointer unchanged.
    pub fn set_mem(&mut self, s: usize, c: u8, n: usize) -> (r: usize)
        requires
            old(self).wf(),
            old(self)@.is_live(s),
            n <= old(self)@.region(s).bytes.len(),
        ensures
            final(self).wf(),
            final(self)@ == old(self)@.set_step(s, c, n),
            r == s,
            final(self).header == old(self).header,
            final(self)@.next_base == old(self)@.next_base,
            final(self)@.failing == old(self)@.failing,
            final(self)@.calls == bump(old(self)@.calls),
            final(self)@.is_live(s),
            final(self)@.region(s).bytes.len() == old(self)@.region(s).bytes.len(),
            forall|k: int| 0 <= k < n ==> final(self)@.region(s).bytes[k] == c,
            forall|k: int|
                n <= k < old(self)@.region(s).bytes.len() ==> final(self)@.region(s).bytes[k]
                    == old(self)@.region(s).bytes[k],
            final(self)@.region(s).mem_type == old(self)@.region(s).mem_type,
            final(self)@.outstanding() == old(self)@.outstanding(),
            unchanged_except(old(self)@, final(self)@, s),
    {
        let ghost m = old(self)@;
        let i = self.region_index(s);
        let mut region = self.regions.remove(i);
        let len = region.bytes.len();
        let mut fresh: Vec<u8> = Vec::new();
        let mut k: usize = 0;
        while k < len
            invariant
                fresh@.len() == k,
                k <= len,
                len == region.bytes@.len(),
                n <= len,
                forall|t: int| 0 <= t < k && t < n ==> fresh@[t] == c,
                forall|t: int| n <= t < k ==> fresh@[t] == region.bytes@[t],
            decreases len - k,
        {
            if k < n {
                fresh.push(c);
            } else {
                fresh.push(region.bytes[k]);
            }
            k += 1;
        }
        region.bytes = fresh;
        self.regions.insert(i, region);
        self.calls =
        if self.calls == u64::MAX {
            u64::MAX
        } else {
            self.calls + 1
        };
        proof {
            assert(self.regions@ =~= old(self).regions@.update(i as int, self.regions@[i as int]));
            let m2 = m.set_step(s, c, n);
            assert(self@.regions[i as int].bytes =~= m2.regions[i as int].bytes);
            assert(self@.regions =~~= m2.regions);
            assert(self@ =~~= m2);
            lemma_region_update(m, m2, i as int, m2.regions[i as int]);
        }
        s
    }

    /// The copy-memory primitive: copies the first `n` bytes of the
    /// region at `src` over the first `n` bytes of the region at
    /// `dest`, and reports `dest` back. Firmware's copy promises
    /// nothing for overlapping ranges, so the two regions must be
    /// distinct — distinct pool regions never overlap.
    pub fn copy_mem(&mut self, dest: usize, src: usize, n: usize) -> (r: usize)
        requires
            old(self).wf(),
            old(self)@.is_live(dest),
            old(self)@.is_live(src),
            dest != src,
            n <= old(self)@.region(dest).bytes.len(),
            n <= old(self)@.region(src).bytes.len(),
        ensures
            final(self).wf(),
            final(self)@ == old(self)@.copy_step(dest, src, n),
            r == dest,
            final(self).header == old(self).header,
            final(self)@.next_base == old(self)@.next_base,
            final(self)@.failing == old(self)@.failing,
            final(self)@.calls == bump(old(self)@.calls),
            final(self)@.is_live(dest),
            final(self)@.region(dest).bytes.len() == old(self)@.region(dest).bytes.len(),
            forall|k: int|
                0 <= k < n ==> final(self)@.region(dest).bytes[k] == old(self)@.region(
                    src,
                ).bytes[k],
            forall|k: int|
                n <= k < old(self)@.region(dest).bytes.len() ==> final(self)@.region(
                    dest,
                ).bytes[k] == old(self)@.region(dest).bytes[k],
            final(self)@.region(dest).mem_type == old(self)@.region(dest).mem_type,
            final(self)@.outstanding() == old(self)@.outstanding(),
            unchanged_except(old(self)@, final(self)@, dest),
    {
        let ghost m = old(self)@;
        let si = self.region_index(src);
        let mut prefix: Vec<u8> = Vec::new();
        let mut k: usize = 0;
        while k < n
            invariant
                prefix@.len() == k,
                k <= n,
                self@ == m,
                m.wf(),
                m.is_region_at(si as int, src),
                m.index_of(src) == si as int,
                n <= m.region(src).bytes.len(),
                forall|t: int| 0 <= t < k ==> prefix@[t] == m.region(src).bytes[t],
            decreases n - k,
        {
            prefix.push(self.regions[si].bytes[k]);
            k += 1;
        }
        let di = self.region_index(dest);
        proof {
            assert(di != si);
        }
        let mut region = self.regions.remove(di);
        let len = region.bytes.len();
        let mut fresh: Vec<u8> = Vec::new();
        let mut j: usize = 0;
        while j < len
            invariant
                fresh@.len() == j,
                j <= len,
                len == region.bytes@.len(),
                n <= len,
                prefix@.len() == n,
                forall|t: int| 0 <= t < n ==> prefix@[t] == m.region(src).bytes[t],
                forall|t: int| 0 <= t < j && t < n ==> fresh@[t] == prefix@[t],
                forall|t: int| n <= t < j ==> fresh@[t] == region.bytes@[t],
            decreases len - j,
        {
            if j < n {
                fresh.push(prefix[j]);
            } else {
                fresh.push(region.bytes[j]);
            }
            j += 1;
        }
        region.bytes = fresh;
        self.regions.insert(di, region);
        self.calls =
        if self.calls == u64::MAX {
            u64::MAX
        } else {
            self.calls + 1
        };
        proof {
            assert(self.regions@ =~= old(self).regions@.update(
                di as int,
                self.regions@[di as int],
            ));
            let m2 = m.copy_step(dest, src, n);
            assert(self@.regions[di as int].bytes =~= m2.regions[di as int].bytes);
            assert(self@.regions =~~= m2.regions);
            assert(self@ =~~= m2);
            lemma_region_update(m, m2, di as int, m2.regions[di as int]);
        }
        dest
    }

    /// Injects or clears allocation failure; stands for firmware running
    /// out of pool, so a test can drive the failure paths.
    pub fn set_failing(&mut self, failing: bool)
        requires
            old(self).wf(),
        ensures
            final(self).wf(),
            final(self)@.regions == old(self)@.regions,
            final(self)@.next_base == old(self)@.next_base,
            final(self)@.calls == old(self)@.calls,
            final(self)@.failing == failing,
            final(self).header == old(self).header,
    {
        self.failing = failing;
    }

    /// The balance of outstanding allocations.
    pub fn outstanding(&self) -> (r: usize)
        requires
            self.wf(),
        ensures
            r == self@.outstanding(),
    {
        self.outstanding
    }

    /// How many primitive calls have been made.
    pub fn calls(&self) -> (r: u64)
        ensures
            r == self@.calls,
    {
        self.calls
    }

    /// Whether the region at `addr` exists and is still allocated.
    pub fn is_live(&self, addr: usize) -> (r: bool)
        requires
            self.wf(),
        ensures
            r == self@.is_live(addr),
    {
        match self.find_index(addr) {
            Some(i) => {
                proof {
                    lemma_index_of(self@, addr, i as int);
                }
                self.regions[i].live
            },
            None => false,
        }
    }

    /// The length in bytes of the region at `addr`.
    pub fn region_len(&self, addr: usize) -> (r: usize)
        requires
            self.wf(),
            self@.has_region(addr),
        ensures
            r == self@.region(addr).bytes.len(),
    {
        let i = self.region_index(addr);
        self.regions[i].bytes.len()
    }

    /// Byte `k` of the region at `addr`.
    pub fn region_byte(&self, addr: usize, k: usize) -> (r: u8)
        requires
            self.wf(),
            self@.has_region(addr),
            k < self@.region(addr).bytes.len(),
        ensures
            r == self@.region(addr).bytes[k as int],
    {
        let i = self.region_index(addr);
        self.regions[i].bytes[k]
    }

    /// The memory category the region at `addr` was allocated with.
    pub fn region_mem_type(&self, addr: usize) -> (r: MemoryType)
        requires
            self.wf(),
            self@.has_region(addr),
        ensures
            r == self@.region(addr).mem_type,
    {
        let i = self.region_index(addr);
        self.regions[i].mem_type
    }

    /// The index of the region at `addr`, for callers that know one exists.
    fn region_index(&self, addr: usize) -> (i: usize)
        requires
            self.wf(),
            self@.has_region(addr),
        ensures
            self@.is_region_at(i as int, addr),
            self@.index_of(addr) == i as int,
    {
        let i = self.find_index(addr).unwrap();
        proof {
            lemma_index_of(self@, addr, i as int);
        }
        i
    }
}

/// Bases grow at least as fast as indices: region `i` starts at `i + 1`
/// or beyond.
pub proof fn lemma_base_lower_bound(m: PoolModel, i: int)
    requires
        m.wf(),
        0 <= i < m.regions.len(),
    ensures
        m.regions[i].base >= i + 1,
    decreases i,
{
    if i > 0 {
        lemma_base_lower_bound(m, i - 1);
        assert(m.regions[i - 1].base < m.regions[i].base);
    }
}

/// A well-formed pool holds fewer regions than there are addresses, so
/// its balance of outstanding allocations always fits the counter.
pub proof fn lemma_region_count_bounded(m: PoolModel)
    requires
        m.wf(),
    ensures
        m.regions.len() < usize::MAX,
{
    if m.regions.len() > 0 {
        let n = m.regions.len() as int;
        lemma_base_lower_bound(m, n - 1);
        assert(m.regions[n - 1].base < m.next_base);
    }
}

/// Two pools with the same regions and the same next base agree on
/// every address, whichever address is set aside.
pub proof fn lemma_same_regions(m: PoolModel, m2: PoolModel, addr: usize)
    requires
        m.wf(),
        m2.regions == m.regions,
        m2.next_base == m.next_base,
    ensures
        m2.wf(),
        unchanged_except(m, m2, addr),
        m2.outstanding() == m.outstanding(),
{
    assert forall|q: usize| q != addr implies #[trigger] m2.has_region(q) == m.has_region(
        q,
    ) by {
        if m.has_region(q) {
            let i = choose|i: int| m.is_region_at(i, q);
            assert(m2.is_region_at(i, q));
        }
        if m2.has_region(q) {
            let i = choose|i: int| m2.is_region_at(i, q);
            assert(m.is_region_at(i, q));
        }
    }
    assert forall|q: usize| q != addr && m.has_region(q) implies #[trigger] m2.region(q)
        == m.region(q) by {
        let i = choose|i: int| m.is_region_at(i, q);
        lemma_index_of(m, q, i);
        lemma_index_of(m2, q, i);
    }
}

/// Appending a region whose base is the next to hand out keeps the pool
/// well formed; the new base is fresh, every other address unaffected.
pub proof fn lemma_region_push(m: PoolModel, m2: PoolModel, r: RegionModel)
    requires
        m.wf(),
        r.base == m.next_base,
        m2.regions == m.regions.push(r),
        m2.next_base > r.base,
    ensures
        m2.wf(),
        !m.has_region(r.base),
        m2.index_of(r.base) == m.regions.len(),
        m2.has_region(r.base),
        m2.region(r.base) == r,
        unchanged_except(m, m2, r.base),
        m2.outstanding() == m.outstanding() + (if r.live {
            1nat
        } else {
            0nat
        }),
{
    let n = m.regions.len() as int;
    assert forall|i: int| 0 <= i < m2.regions.len() implies 0 < (#[trigger] m2.regions[i]).base
        < m2.next_base by {
        if i < n {
            assert(m2.regions[i] == m.regions[i]);
        }
    }
    assert forall|i: int, j: int| 0 <= i < j < m2.regions.len() implies m2.regions[i].base
        < m2.regions[j].base by {
        assert(m2.regions[i] == m.regions[i]);
        if j < n {
            assert(m2.regions[j] == m.regions[j]);
        }
    }
    assert(m2.wf());
    assert(!m.has_region(r.base)) by {
        if m.has_region(r.base) {
            let i = choose|i: int| m.is_region_at(i, r.base);
            assert(m.regions[i].base < m.next_base);
        }
    }
    assert(m2.is_region_at(n, r.base));
    lemma_index_of(m2, r.base, n);
    assert forall|q: usize| q != r.base implies #[trigger] m2.has_region(q) == m.has_region(
        q,
    ) by {
        if m.has_region(q) {
            let i = choose|i: int| m.is_region_at(i, q);
            assert(m2.regions[i] == m.regions[i]);
            assert(m2.is_region_at(i, q));
        }
        if m2.has_region(q) {
            let i = choose|i: int| m2.is_region_at(i, q);
            assert(i < n);
            assert(m2.regions[i] == m.regions[i]);
            assert(m.is_region_at(i, q));
        }
    }
    assert forall|q: usize| q != r.base && m.has_region(q) implies #[trigger] m2.region(q)
        == m.region(q) by {
        let i = choose|i: int| m.is_region_at(i, q);
        lemma_index_of(m, q, i);
        assert(m2.regions[i] == m.regions[i]);
        lemma_index_of(m2, q, i);
    }
    lemma_live_count_push(m.regions, r);
}

/// Replacing a region by one with the same base keeps the pool well
/// formed, moves the balance by the difference of the two liveness
/// bits, and affects no other address.
pub proof fn lemma_region_update(m: PoolModel, m2: PoolModel, i: int, r: RegionModel)
    requires
        m.wf(),
        0 <= i < m.regions.len(),
        r.base == m.regions[i].base,
        m2.regions == m.regions.update(i, r),
        m2.next_base == m.next_base,
    ensures
        m2.wf(),
        m.index_of(r.base) == i,
        m.has_region(r.base),
        m2.index_of(r.base) == i,
        m2.has_region(r.base),
        m2.region(r.base) == r,
        unchanged_except(m, m2, r.base),
        m2.outstanding() + (if m.regions[i].live {
            1int
        } else {
            0int
        }) == m.outstanding() + (if r.live {
            1int
        } else {
            0int
        }),
{
    assert forall|j: int| 0 <= j < m2.regions.len() implies (#[trigger] m2.regions[j]).base
        == m.regions[j].base by {
        if j != i {
            assert(m2.regions[j] == m.regions[j]);
        }
    }
    assert(m2.wf());
    assert(m.is_region_at(i, r.base));
    lemma_index_of(m, r.base, i);
    assert(m2.is_region_at(i, r.base));
    lemma_index_of(m2, r.base, i);
    assert forall|q: usize| q != r.base implies #[trigger] m2.has_region(q) == m.has_region(
        q,
    ) by {
        if m.has_region(q) {
            let j = choose|j: int| m.is_region_at(j, q);
            assert(m2.regions[j].base == m.regions[j].base);
            assert(m2.is_region_at(j, q));
        }
        if m2.has_region(q) {
            let j = choose|j: int| m2.is_region_at(j, q);
            assert(m2.regions[j].base == m.regions[j].base);
            assert(m.is_region_at(j, q));
        }
    }
    assert forall|q: usize| q != r.base && m.has_region(q) implies #[trigger] m2.region(q)
        == m.region(q) by {
        let j = choose|j: int| m.is_region_at(j, q);
        lemma_index_of(m, q, j);
        assert(j != i);
        assert(m2.regions[j] == m.regions[j]);
        lemma_index_of(m2, q, j);
    }
    lemma_live_count_update(m.regions, i, r);
}

/// The top-level firmware table, as far as the allocator reads it: the
/// header, the table revision, and the boot-services reference. The
/// console and runtime-services fields of the binary layout are not
/// consumed by the allocator; their places are accounted for by the
/// offset constants of the layout description.
pub struct SystemTable {
    pub header: TableHeader,
    pub revision: u32,
    pub boot_services: BootServices,
}

impl SystemTable {
    pub fn new(header: TableHeader, revision: u32, boot_services: BootServices) -> (t: SystemTable)
        ensures
            t.header == header,
            t.revision == revision,
            t.boot_services == boot_services,
    {
        SystemTable { header, revision, boot_services }
    }

    /// The boot-services table this top-level table refers to.
    pub fn boot_services(&self) -> (r: &BootServices)
        ensures
            *r == self.boot_services,
    {
        &self.boot_services
    }
}

/// A region's address picks out exactly one index under `wf`.
pub proof fn lemma_region_index_unique(m: PoolModel, addr: usize, i: int, j: int)
    requires
        m.wf(),
        m.is_region_at(i, addr),
        m.is_region_at(j, addr),
    ensures
        i == j,
{
    if i < j {
        assert(m.regions[i].base < m.regions[j].base);
    }
    if j < i {
        assert(m.regions[j].base < m.regions[i].base);
    }
}

/// A witness index for `addr` is the index `index_of` picks.
pub proof fn lemma_index_of(m: PoolModel, addr: usize, i: int)
    requires
        m.wf(),
        m.is_region_at(i, addr),
    ensures
        m.has_region(addr),
        m.index_of(addr) == i,
        m.region(addr) == m.regions[i],
{
    assert(m.has_region(addr));
    lemma_region_index_unique(m, addr, i, m.index_of(addr));
}

/// Appending a region adds its liveness to the count.
pub proof fn lemma_live_count_push(s: Seq<RegionModel>, r: RegionModel)
    ensures
        live_count(s.push(r)) == live_count(s) + if r.live {
            1nat
        } else {
            0nat
        },
{
    assert(s.push(r).drop_last() =~= s);
    assert(s.push(r).last() == r);
}

/// Replacing a region adjusts the count by the two liveness bits.
pub proof fn lemma_live_count_update(s: Seq<RegionModel>, i: int, r: RegionModel)
    requires
        0 <= i < s.len(),
    ensures
        live_count(s.update(i, r)) + (if s[i].live {
            1int
        } else {
            0int
        }) == live_count(s) + (if r.live {
            1int
        } else {
            0int
        }),
    decreases s.len(),
{
    if i == s.len() - 1 {
        assert(s.update(i, r).drop_last() =~= s.drop_last());
        assert(s.update(i, r).last() == r);
    } else {
        assert(s.update(i, r).drop_last() =~= s.drop_last().update(i, r));
        assert(s.update(i, r).last() == s.last());
        lemma_live_count_update(s.drop_last(), i, r);
    }
}

/// No more regions are live than exist.
pub proof fn lemma_live_count_le_len(s: Seq<RegionModel>)
    ensures
        live_count(s) <= s.len(),
    decreases s.len(),
{
    if s.len() > 0 {
        lemma_live_count_le_len(s.drop_last());
    }
}

/// A live region makes the count positive.
pub proof fn lemma_live_count_pos(s: Seq<RegionModel>, i: int)
    requires
        0 <= i < s.len(),
        s[i].live,
    ensures
        live_count(s) >= 1,
    decreases s.len(),
{
    if i < s.len() - 1 {
        lemma_live_count_pos(s.drop_last(), i);
    }
}

/// Every address other than `addr` names the same region (or still no
/// region) in `m2` as in `m1`.
pub open spec fn unchanged_except(m1: PoolModel, m2: PoolModel, addr: usize) -> bool {
    &&& forall|q: usize| q != addr ==> #[trigger] m2.has_region(q) == m1.has_region(q)
    &&& forall|q: usize|
        q != addr && m1.has_region(q) ==> #[trigger] m2.region(q) == m1.region(q)
}

/// Every address other than `a` and `b` names the same region (or still
/// no region) in `m2` as in `m1`.
pub open spec fn unchanged_except2(m1: PoolModel, m2: PoolModel, a: usize, b: usize) -> bool {
    &&& forall|q: usize| q != a && q != b ==> #[trigger] m2.has_region(q) == m1.has_region(q)
    &&& forall|q: usize|
        q != a && q != b && m1.has_region(q) ==> #[trigger] m2.region(q) == m1.region(q)
}

} // verus!
