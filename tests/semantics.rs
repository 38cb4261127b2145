use rsvm::arith::{branch_target, idiv, irem, ishl, ishr, iushr, lcmp, ldiv, lrem, lshl, lushr};
use rsvm::handle::{Handle, HandleData, HandleScope};
use rsvm::memory::{align, Address, Heap, LocalAllocBuf, Space, SpaceType};

#[test]
fn integer_division_by_zero_fails() {
    assert_eq!(idiv(7, 0), None);
    assert_eq!(irem(7, 0), None);
    assert_eq!(ldiv(7, 0), None);
    assert_eq!(lrem(7, 0), None);
}

#[test]
fn integer_division_truncates() {
    assert_eq!(idiv(7, 2), Some(3));
    assert_eq!(idiv(-7, 2), Some(-3));
    assert_eq!(irem(-7, 2), Some(-1));
    assert_eq!(irem(7, -2), Some(1));
    assert_eq!(idiv(i32::MIN, -1), Some(i32::MIN));
    assert_eq!(irem(i32::MIN, -1), Some(0));
    assert_eq!(ldiv(i64::MIN, -1), Some(i64::MIN));
    assert_eq!(ldiv(-9, 4), Some(-2));
}

#[test]
fn shift_distances_are_masked() {
    assert_eq!(ishl(1, 33), 2);
    assert_eq!(ishl(1, 32), 1);
    assert_eq!(ishr(-16, 2), -4);
    assert_eq!(iushr(-1, 28), 15);
    assert_eq!(lshl(1, 65), 2);
    assert_eq!(lushr(-1, 60), 15);
    assert_eq!(lcmp(1, 2), -1);
    assert_eq!(lcmp(2, 2), 0);
    assert_eq!(lcmp(3, 2), 1);
}

#[test]
fn branch_targets_are_relative_to_the_opcode() {
    assert_eq!(branch_target(10, -3, 20), Some(7));
    assert_eq!(branch_target(10, 5, 20), Some(15));
    assert_eq!(branch_target(10, 10, 20), None);
    assert_eq!(branch_target(2, -3, 20), None);
}

#[test]
fn handle_scope_restores_offset() {
    let mut data = HandleData::new();
    let outer = Handle::new(&mut data, Address::new(0x100));
    let scope = HandleScope::new_with_data(&data);
    assert_eq!(scope.prev, 1);
    let h1 = Handle::new(&mut data, Address::new(0x200));
    let h2 = HandleScope::make_handle(&mut data, Address::new(0x300));
    assert_eq!(data.offset(), 3);
    assert!(h1.swap(&h2, &mut data));
    assert_eq!(h1.value(&data), Address::new(0x300));
    scope.exit(&mut data);
    assert_eq!(data.offset(), 1);
    assert_eq!(outer.value(&data), Address::new(0x100));
    assert_eq!(h1.value(&data), Address::null());
    assert!(Handle::null().is_null());
}

#[test]
fn space_bump_allocation() {
    let mut s = Space::new(SpaceType::PERM, Address::new(0x1000), 64);
    assert_eq!(s.allocate(16), Address::new(0x1000));
    assert_eq!(s.allocate(48), Address::new(0x1010));
    assert_eq!(s.allocate(8), Address::null());
    assert!(s.contains(Address::new(0x103f)));
    assert!(!s.contains(Address::new(0x1040)));
    s.reset();
    assert_eq!(s.allocate(8), Address::new(0x1000));
    assert_eq!(align(13), 16);
    assert_eq!(align(16), 16);
}

#[test]
fn tlab_allocation_refills_from_young_space() {
    let mut heap = Heap::new(
        Address::new(0x1000_0000),
        Address::new(0x2000_0000),
        Address::new(0x3000_0000),
        Address::new(0x4000_0000),
    );
    let mut lab = LocalAllocBuf::new(Address::null(), Address::null());
    let a = heap.alloc_obj_lab(&mut lab, 32);
    assert!(a.is_not_null());
    let b = heap.alloc_obj_lab(&mut lab, 32);
    assert_eq!(b.as_usize(), a.as_usize() + 32);
    assert_eq!(lab.available(), 1024 - 64);
    let big = heap.alloc_obj_lab(&mut lab, 4096);
    assert!(heap.new_contains(big));
    assert_eq!(heap.alloc_obj_permanent(16), Address::new(0x3000_0000));
    assert!(heap.perm_contains(Address::new(0x3000_0000)));
}
