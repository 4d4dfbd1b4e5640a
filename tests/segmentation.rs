use boot_memory::gdt::{
    double_fault_stack_top, register_load_sequence, RegisterLoad, SegmentRegister, Selectors,
    DOUBLE_FAULT_STACK_SIZE,
};

#[test]
fn data_selector_goes_to_stack_and_data_registers() {
    let sel = Selectors { code_selector: 8, data_selector: 16, tss_selector: 24 };
    let loads = register_load_sequence(&sel);
    assert_eq!(
        loads,
        vec![
            RegisterLoad::Segment(SegmentRegister::Cs, 8),
            RegisterLoad::TaskRegister(24),
            RegisterLoad::Segment(SegmentRegister::Ss, 16),
            RegisterLoad::Segment(SegmentRegister::Ds, 16),
            RegisterLoad::Segment(SegmentRegister::Es, 16),
            RegisterLoad::Segment(SegmentRegister::Fs, 16),
            RegisterLoad::Segment(SegmentRegister::Gs, 16),
        ]
    );
}

#[test]
fn double_fault_stack_top_is_five_units_up() {
    assert_eq!(DOUBLE_FAULT_STACK_SIZE, 20480);
    assert_eq!(double_fault_stack_top(0x20_0000), Some(0x20_5000));
    assert_eq!(double_fault_stack_top(0xffff_8000_0000_0000), Some(0xffff_8000_0000_5000));
}

#[test]
fn double_fault_stack_top_out_of_range() {
    assert_eq!(double_fault_stack_top(0x0000_7fff_ffff_f000), None);
    assert_eq!(double_fault_stack_top(u64::MAX - 0x100), None);
}
