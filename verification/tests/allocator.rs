//! The allocator adapter exercised against the pool model standing in
//! for firmware: balances, byte contents, call counts and failure paths.
use alloc_uefi::setup_alloc;
use alloc_uefi::Allocator;
use alloc_uefi::BootServices;
use alloc_uefi::MemoryType;
use alloc_uefi::SystemTable;
use alloc_uefi::TableHeader;

const SIGNATURE: u64 = 0x5453_5953_2049_4249;

fn fresh_allocator(mem_type: MemoryType) -> Allocator {
    let header = TableHeader::new(SIGNATURE, 2, 24, 0);
    let boot_services = BootServices::new(header);
    let table = SystemTable::new(header, 2, boot_services);
    setup_alloc(table, mem_type)
}

fn allocator_around(boot_services: BootServices, mem_type: MemoryType) -> Allocator {
    let header = TableHeader::new(SIGNATURE, 2, 24, 0);
    let table = SystemTable::new(header, 2, boot_services);
    setup_alloc(table, mem_type)
}

#[test]
fn allocate_then_deallocate_balances() {
    let mut a = fresh_allocator(MemoryType::LoaderData);
    let p = a.allocate(16, 8);
    assert_ne!(p, 0);
    assert_eq!(a.system_table.boot_services().outstanding(), 1);
    assert!(a.system_table.boot_services().is_live(p));
    a.deallocate(p, 16, 8);
    assert_eq!(a.system_table.boot_services().outstanding(), 0);
    assert!(!a.system_table.boot_services().is_live(p));
    assert_eq!(a.system_table.boot_services().calls(), 2);
}

#[test]
fn allocate_then_deallocate_balances_single_byte() {
    let mut a = fresh_allocator(MemoryType::BootServicesData);
    let p = a.allocate(1, 1);
    assert_ne!(p, 0);
    assert_eq!(a.system_table.boot_services().outstanding(), 1);
    a.deallocate(p, 1, 1);
    assert_eq!(a.system_table.boot_services().outstanding(), 0);
}

#[test]
fn allocate_returns_region_of_requested_size() {
    let mut a = fresh_allocator(MemoryType::LoaderData);
    let p = a.allocate(37, 8);
    assert_ne!(p, 0);
    assert_eq!(a.system_table.boot_services().region_len(p), 37);
}

#[test]
fn allocate_zero_size_succeeds_with_empty_region() {
    let mut a = fresh_allocator(MemoryType::LoaderData);
    let p = a.allocate(0, 8);
    assert_ne!(p, 0);
    assert_eq!(a.system_table.boot_services().region_len(p), 0);
}

#[test]
fn fresh_allocation_is_not_zeroed() {
    let mut a = fresh_allocator(MemoryType::LoaderData);
    let p = a.allocate(3, 8);
    assert_ne!(p, 0);
    for k in 0..3 {
        assert_eq!(a.system_table.boot_services().region_byte(p, k), alloc_uefi::firmware::FRESH_BYTE);
    }
}

#[test]
fn allocate_zeroed_returns_all_zero_bytes() {
    let mut a = fresh_allocator(MemoryType::LoaderData);
    let p = a.allocate_zeroed(37, 8);
    assert_ne!(p, 0);
    assert_eq!(a.system_table.boot_services().region_len(p), 37);
    for k in 0..37 {
        assert_eq!(a.system_table.boot_services().region_byte(p, k), 0);
    }
}

#[test]
fn allocate_zeroed_zero_size_succeeds() {
    let mut a = fresh_allocator(MemoryType::LoaderData);
    let p = a.allocate_zeroed(0, 8);
    assert_ne!(p, 0);
    assert_eq!(a.system_table.boot_services().region_len(p), 0);
}

#[test]
fn allocate_propagates_configured_memory_category() {
    let mut a = fresh_allocator(MemoryType::AcpiNvs);
    let p = a.allocate(4, 4);
    assert_ne!(p, 0);
    assert_eq!(a.system_table.boot_services().region_mem_type(p), MemoryType::AcpiNvs);
    let q = a.allocate_zeroed(4, 4);
    assert_ne!(q, 0);
    assert_eq!(a.system_table.boot_services().region_mem_type(q), MemoryType::AcpiNvs);
}

#[test]
fn allocate_failure_returns_null() {
    let header = TableHeader::new(SIGNATURE, 2, 24, 0);
    let mut boot_services = BootServices::new(header);
    boot_services.set_failing(true);
    let mut a = allocator_around(boot_services, MemoryType::LoaderData);
    let p = a.allocate(8, 8);
    assert_eq!(p, 0);
    assert_eq!(a.system_table.boot_services().outstanding(), 0);
    assert_eq!(a.system_table.boot_services().calls(), 1);
}

#[test]
fn allocate_exhausted_address_space_returns_null() {
    let mut a = fresh_allocator(MemoryType::LoaderData);
    let p = a.allocate(usize::MAX, 8);
    assert_eq!(p, 0);
    assert_eq!(a.system_table.boot_services().outstanding(), 0);
}

#[test]
fn reallocate_grow_preserves_old_content() {
    let header = TableHeader::new(SIGNATURE, 2, 24, 0);
    let mut boot_services = BootServices::new(header);
    let p = boot_services.allocate_pool(MemoryType::LoaderData, 4);
    assert_ne!(p, 0);
    boot_services.set_mem(p, 0xAB, 4);
    let mut a = allocator_around(boot_services, MemoryType::LoaderData);
    let r = a.reallocate(p, 4, 8, 8);
    assert_ne!(r, 0);
    assert_ne!(r, p);
    assert_eq!(a.system_table.boot_services().region_len(r), 8);
    for k in 0..4 {
        assert_eq!(a.system_table.boot_services().region_byte(r, k), 0xAB);
    }
    assert!(!a.system_table.boot_services().is_live(p));
    assert_eq!(a.system_table.boot_services().outstanding(), 1);
}

#[test]
fn reallocate_shrink_truncates_content() {
    let header = TableHeader::new(SIGNATURE, 2, 24, 0);
    let mut boot_services = BootServices::new(header);
    let p = boot_services.allocate_pool(MemoryType::LoaderData, 8);
    assert_ne!(p, 0);
    boot_services.set_mem(p, 0x5A, 8);
    let mut a = allocator_around(boot_services, MemoryType::LoaderData);
    let r = a.reallocate(p, 8, 3, 8);
    assert_ne!(r, 0);
    assert_eq!(a.system_table.boot_services().region_len(r), 3);
    for k in 0..3 {
        assert_eq!(a.system_table.boot_services().region_byte(r, k), 0x5A);
    }
}

#[test]
fn reallocate_failure_leaves_original_untouched() {
    let header = TableHeader::new(SIGNATURE, 2, 24, 0);
    let mut boot_services = BootServices::new(header);
    let p = boot_services.allocate_pool(MemoryType::LoaderData, 4);
    assert_ne!(p, 0);
    boot_services.set_mem(p, 0x77, 4);
    boot_services.set_failing(true);
    let mut a = allocator_around(boot_services, MemoryType::LoaderData);
    let r = a.reallocate(p, 4, 8, 8);
    assert_eq!(r, 0);
    assert!(a.system_table.boot_services().is_live(p));
    for k in 0..4 {
        assert_eq!(a.system_table.boot_services().region_byte(p, k), 0x77);
    }
    a.deallocate(p, 4, 8);
    assert!(!a.system_table.boot_services().is_live(p));
    assert_eq!(a.system_table.boot_services().outstanding(), 0);
}

#[test]
fn reallocate_in_place_always_returns_old_size() {
    let a = fresh_allocator(MemoryType::LoaderData);
    let calls_before = a.system_table.boot_services().calls();
    assert_eq!(a.reallocate_in_place(0x40, 16, 32, 8), 16);
    assert_eq!(a.reallocate_in_place(0x40, 32, 16, 8), 32);
    assert_eq!(a.reallocate_in_place(0x40, 1, usize::MAX, 8), 1);
    assert_eq!(a.system_table.boot_services().calls(), calls_before);
}

#[test]
fn usable_size_is_the_requested_size() {
    let a = fresh_allocator(MemoryType::LoaderData);
    assert_eq!(a.usable_size(0, 8), 0);
    assert_eq!(a.usable_size(1, 8), 1);
    assert_eq!(a.usable_size(123_456_789, 8), 123_456_789);
    assert_eq!(a.usable_size(usize::MAX, 8), usize::MAX);
}

#[test]
fn distinct_allocations_have_distinct_addresses() {
    let mut a = fresh_allocator(MemoryType::LoaderData);
    let p = a.allocate(4, 4);
    let q = a.allocate(4, 4);
    assert_ne!(p, 0);
    assert_ne!(q, 0);
    assert_ne!(p, q);
    assert_eq!(a.system_table.boot_services().outstanding(), 2);
    a.deallocate(p, 4, 4);
    assert!(a.system_table.boot_services().is_live(q));
    a.deallocate(q, 4, 4);
    assert_eq!(a.system_table.boot_services().outstanding(), 0);
}

// Calling any allocator operation before setup is a documented
// precondition violation, not a runtime-checked error: the operations
// live on the value `setup_alloc` returns, so no operation can even be
// named before the setup operation has run.
#[test]
fn operations_exist_only_on_the_configured_allocator() {
    let header = TableHeader::new(SIGNATURE, 2, 24, 0);
    let boot_services = BootServices::new(header);
    let table = SystemTable::new(header, 2, boot_services);
    let mut a = setup_alloc(table, MemoryType::Conventional);
    assert_eq!(a.mem_type, MemoryType::Conventional);
    let p = a.allocate(8, 8);
    assert_ne!(p, 0);
}
