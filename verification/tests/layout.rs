//! The binary-layout contract: the proved offset constants and the
//! firmware-assigned memory-category codes.
use alloc_uefi::table;
use alloc_uefi::MemoryType;
use alloc_uefi::TableHeader;

#[test]
fn consumed_field_offsets_match_the_firmware_specification() {
    assert_eq!(table::TABLE_HEADER_BYTES, 24);
    assert_eq!(table::TABLE_FIELD_BYTES, 8);
    assert_eq!(table::SYSTEM_TABLE_BOOT_SERVICES_OFFSET, 96);
    assert_eq!(table::ALLOCATE_POOL_OFFSET, 64);
    assert_eq!(table::FREE_POOL_OFFSET, 72);
    assert_eq!(table::COPY_MEM_OFFSET, 352);
    assert_eq!(table::SET_MEM_OFFSET, 360);
}

#[test]
fn memory_category_codes_match_the_firmware_specification() {
    assert_eq!(MemoryType::Reserved.code(), 0);
    assert_eq!(MemoryType::LoaderCode.code(), 1);
    assert_eq!(MemoryType::LoaderData.code(), 2);
    assert_eq!(MemoryType::BootServicesCode.code(), 3);
    assert_eq!(MemoryType::BootServicesData.code(), 4);
    assert_eq!(MemoryType::RuntimeServicesCode.code(), 5);
    assert_eq!(MemoryType::RuntimeServicesData.code(), 6);
    assert_eq!(MemoryType::Conventional.code(), 7);
    assert_eq!(MemoryType::Unusable.code(), 8);
    assert_eq!(MemoryType::AcpiReclaimed.code(), 9);
    assert_eq!(MemoryType::AcpiNvs.code(), 10);
    assert_eq!(MemoryType::MemoryMappedIo.code(), 11);
    assert_eq!(MemoryType::MemoryMappedIoPortSpace.code(), 12);
    assert_eq!(MemoryType::PalCode.code(), 13);
}

#[test]
fn table_header_keeps_its_fields() {
    let h = TableHeader::new(0x2042_4F4F_5420_5356, 0x0002_0046, 24, 0xDEAD_BEEF);
    assert_eq!(h.signature, 0x2042_4F4F_5420_5356);
    assert_eq!(h.revision, 0x0002_0046);
    assert_eq!(h.header_size, 24);
    assert_eq!(h.crc32, 0xDEAD_BEEF);
    assert_eq!(h.reserved, 0);
}
