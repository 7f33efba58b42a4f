//! The fixed binary layout of the firmware's dispatch tables.
//!
//! The firmware hands the embedding runtime one top-level table whose
//! fields sit at specification-mandated offsets; one field refers to the
//! boot-services table, a long fixed sequence of function slots of which
//! this library consumes exactly four. A layout mismatch is undetectable
//! at run time and corrupts every call, so the offsets of the consumed
//! fields are written down here as proved constants: an embedding that
//! builds the foreign-call layer can hold its own table declaration
//! against them.
use vstd::prelude::*;

verus! {

/// The common header every firmware table starts with: a 64-bit
/// signature, then four 32-bit words (revision, size of the full table,
/// checksum, reserved) — 24 bytes in all.
#[derive(Clone, Copy, Debug, PartialEq, Eq, Structural)]
pub struct TableHeader {
    pub signature: u64,
    pub revision: u32,
    pub header_size: u32,
    pub crc32: u32,
    pub reserved: u32,
}

impl TableHeader {
    pub fn new(signature: u64, revision: u32, header_size: u32, crc32: u32) -> (h: TableHeader)
        ensures
            h == (TableHeader { signature, revision, header_size, crc32, reserved: 0u32 }),
    {
        TableHeader { signature, revision, header_size, crc32, reserved: 0 }
    }
}

/// An opaque, type-erased value behind a firmware pointer. Nothing can
/// be read out of one — the single variant carries no information — and
/// the pool model carries plain addresses with an explicit length in its
/// place.
#[derive(Clone, Copy, Debug, PartialEq, Eq, Structural)]
pub enum CVoid {
    Opaque,
}

/// The classification a region of pool memory is tagged with, for the
/// firmware's own bookkeeping. Exactly one category is active at a time:
/// it is installed by the setup operation and used for every allocation.
#[derive(Clone, Copy, Debug, PartialEq, Eq, Structural)]
pub enum MemoryType {
    Reserved,
    LoaderCode,
    LoaderData,
    BootServicesCode,
    BootServicesData,
    RuntimeServicesCode,
    RuntimeServicesData,
    Conventional,
    Unusable,
    AcpiReclaimed,
    AcpiNvs,
    MemoryMappedIo,
    MemoryMappedIoPortSpace,
    PalCode,
}

impl MemoryType {
    /// The 32-bit code the firmware specification assigns to each
    /// category; this number, not the host enum, crosses the ABI.
    pub open spec fn spec_code(self) -> u32 {
        match self {
            MemoryType::Reserved => 0,
            MemoryType::LoaderCode => 1,
            MemoryType::LoaderData => 2,
            MemoryType::BootServicesCode => 3,
            MemoryType::BootServicesData => 4,
            MemoryType::RuntimeServicesCode => 5,
            MemoryType::RuntimeServicesData => 6,
            MemoryType::Conventional => 7,
            MemoryType::Unusable => 8,
            MemoryType::AcpiReclaimed => 9,
            MemoryType::AcpiNvs => 10,
            MemoryType::MemoryMappedIo => 11,
            MemoryType::MemoryMappedIoPortSpace => 12,
            MemoryType::PalCode => 13,
        }
    }

    pub fn code(&self) -> (r: u32)
        ensures
            r == self.spec_code(),
    {
        match self {
            MemoryType::Reserved => 0,
            MemoryType::LoaderCode => 1,
            MemoryType::LoaderData => 2,
            MemoryType::BootServicesCode => 3,
            MemoryType::BootServicesData => 4,
            MemoryType::RuntimeServicesCode => 5,
            MemoryType::RuntimeServicesData => 6,
            MemoryType::Conventional => 7,
            MemoryType::Unusable => 8,
            MemoryType::AcpiReclaimed => 9,
            MemoryType::AcpiNvs => 10,
            MemoryType::MemoryMappedIo => 11,
            MemoryType::MemoryMappedIoPortSpace => 12,
            MemoryType::PalCode => 13,
        }
    }
}

/// Size in bytes of a [`TableHeader`].
pub const TABLE_HEADER_BYTES: usize = 24;

/// Size in bytes of every field that follows a header in either table:
/// on the 64-bit firmware platform each is one pointer-sized slot (the
/// top-level table's 32-bit revision field is padded up to the same
/// width by the platform's alignment rules).
pub const TABLE_FIELD_BYTES: usize = 8;

/// Byte offset of field `index` among the fields that follow a table's
/// header, counting from the start of the table.
pub open spec fn table_field_offset(index: nat) -> nat {
    TABLE_HEADER_BYTES as nat + TABLE_FIELD_BYTES as nat * index
}

/// In the top-level table the fields after the header run: vendor string,
/// revision, then five console handles and streams, the runtime-services
/// reference — all unused here — and tenth the boot-services reference.
pub const SYSTEM_TABLE_BOOT_SERVICES_FIELD: usize = 9;

/// In the boot-services table the function slots after the header run:
/// task-priority (2), page allocation and the memory map (3), then the
/// two pool slots consumed here; events and timers (6), protocol
/// handling (11, one of them reserved), images and exit (8), the
/// monotonic counter, stall and watchdog (3), controllers (2), more
/// protocol handling (8), the checksum slot — and then the two byte-block
/// slots consumed here, before the last event slot. Every unused slot
/// still occupies its place, so the consumed offsets below stay correct.
pub const BOOT_SERVICES_ALLOCATE_POOL_SLOT: usize = 5;

pub const BOOT_SERVICES_FREE_POOL_SLOT: usize = 6;

pub const BOOT_SERVICES_COPY_MEM_SLOT: usize = 41;

pub const BOOT_SERVICES_SET_MEM_SLOT: usize = 42;

/// Byte offset of the boot-services reference in the top-level table.
pub const SYSTEM_TABLE_BOOT_SERVICES_OFFSET: usize = 96;

/// Byte offset of the allocate-pool slot in the boot-services table.
pub const ALLOCATE_POOL_OFFSET: usize = 64;

/// Byte offset of the free-pool slot in the boot-services table.
pub const FREE_POOL_OFFSET: usize = 72;

/// Byte offset of the copy-memory slot in the boot-services table.
pub const COPY_MEM_OFFSET: usize = 352;

/// Byte offset of the set-memory slot in the boot-services table.
pub const SET_MEM_OFFSET: usize = 360;

/// The offset constants of the five consumed fields agree with the slot
/// positions the firmware specification mandates.
pub proof fn lemma_consumed_field_offsets()
    ensures
        SYSTEM_TABLE_BOOT_SERVICES_OFFSET == table_field_offset(
            SYSTEM_TABLE_BOOT_SERVICES_FIELD as nat,
        ),
        ALLOCATE_POOL_OFFSET == table_field_offset(BOOT_SERVICES_ALLOCATE_POOL_SLOT as nat),
        FREE_POOL_OFFSET == table_field_offset(BOOT_SERVICES_FREE_POOL_SLOT as nat),
        COPY_MEM_OFFSET == table_field_offset(BOOT_SERVICES_COPY_MEM_SLOT as nat),
        SET_MEM_OFFSET == table_field_offset(BOOT_SERVICES_SET_MEM_SLOT as nat),
{
}

} // verus!
