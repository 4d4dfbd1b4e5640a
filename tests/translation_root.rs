use boot_memory::memory::{level_4_table_address, TranslationRootError};

#[test]
fn aligned_root_gives_its_virtual_address() {
    assert_eq!(level_4_table_address(0x100_0000_0000, 0x1000), Ok(0x100_0000_1000));
    assert_eq!(level_4_table_address(0xffff_8000_0000_0000, 0x2000), Ok(0xffff_8000_0000_2000));
}

#[test]
fn misaligned_offset_is_fatal() {
    assert_eq!(
        level_4_table_address(0x100_0000_0800, 0x1000),
        Err(TranslationRootError::Misaligned(0x100_0000_1800))
    );
    assert_eq!(level_4_table_address(1, 0x5000), Err(TranslationRootError::Misaligned(0x5001)));
}

#[test]
fn non_canonical_root_is_fatal() {
    assert_eq!(
        level_4_table_address(0x0000_8000_0000_0000, 0x1000),
        Err(TranslationRootError::NonCanonical(0x0000_8000_0000_1000))
    );
}

#[test]
fn overflowing_root_is_fatal() {
    assert_eq!(
        level_4_table_address(u64::MAX - 0xfff, 0x1000),
        Err(TranslationRootError::AddressOverflow)
    );
}
