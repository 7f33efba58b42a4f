//! The decision functions an embedding's foreign-call layer reuses:
//! status normalization and the relocation copy length.
use alloc_uefi::copy_length;
use alloc_uefi::normalize_pool_result;
use alloc_uefi::STATUS_OUT_OF_RESOURCES;
use alloc_uefi::STATUS_SUCCESS;

#[test]
fn success_status_passes_the_pointer_through() {
    assert_eq!(normalize_pool_result(STATUS_SUCCESS, 0x1000), 0x1000);
    assert_eq!(normalize_pool_result(STATUS_SUCCESS, 0), 0);
}

#[test]
fn any_failure_status_normalizes_to_null() {
    assert_eq!(normalize_pool_result(STATUS_OUT_OF_RESOURCES, 0x1000), 0);
    assert_eq!(normalize_pool_result(1, 0x1000), 0);
    assert_eq!(normalize_pool_result(u64::MAX, usize::MAX), 0);
}

#[test]
fn copy_length_is_the_smaller_size() {
    assert_eq!(copy_length(4, 8), 4);
    assert_eq!(copy_length(8, 4), 4);
    assert_eq!(copy_length(5, 5), 5);
    assert_eq!(copy_length(0, 9), 0);
    assert_eq!(copy_length(usize::MAX, 1), 1);
}
