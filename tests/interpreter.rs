use rsvm::class::ClassData;
use rsvm::constant_pool::{ConstantPool, TAG_CLASS, TAG_METHODREF, TAG_NAME_AND_TYPE};
use rsvm::method::Method;
use rsvm::vm::{Outcome, VMConfig, Vm};

fn new_vm() -> Vm {
    Vm::new(VMConfig::new(
        ".".to_string(),
        ".".to_string(),
        "./tests/classes".to_string(),
        "Main".to_string(),
    ))
}

/// A class `name` whose only method is static `mname` with descriptor
/// `desc` and the given code; constant 2 is a method reference to it.
fn one_method_class(vm: &mut Vm, name: &str, mname: &str, desc: &str, code: Vec<u8>) -> usize {
    let cls_sym = vm.get_symbol(name.as_bytes()).unwrap();
    let m_sym = vm.get_symbol(mname.as_bytes()).unwrap();
    let d_sym = vm.get_symbol(desc.as_bytes()).unwrap();
    let mut cp = ConstantPool::new(7);
    cp.set_utf8(1, cls_sym);
    cp.set_pair(2, TAG_METHODREF, 3, 4);
    cp.set_value(3, TAG_CLASS, 1);
    cp.set_pair(4, TAG_NAME_AND_TYPE, 5, 6);
    cp.set_utf8(5, m_sym);
    cp.set_utf8(6, d_sym);
    let id = vm.registry.len();
    let m = Method::new(id, 0x0009, m_sym, d_sym, desc.as_bytes(), 4, 2, code, vec![]).unwrap();
    let data = ClassData {
        name: cls_sym,
        access_flags: 0x0021,
        super_class: None,
        interfaces: vec![],
        fields: vec![],
        methods: vec![m],
        component_type: None,
        inst_size: 0,
        static_size: 0,
        cp,
        init_method: None,
    };
    vm.define_class(name.as_bytes(), data).unwrap()
}

fn rs_fibonacci(num: i32) -> i32 {
    if num == 1 || num == 2 {
        return 1;
    }
    rs_fibonacci(num - 1) + rs_fibonacci(num - 2)
}

#[test]
fn invoke_fibonacci() {
    let mut vm = new_vm();
    let code = vec![
        26, 4, 159, 0, 8, // iload_0 iconst_1 if_icmpeq +8
        26, 5, 160, 0, 5, // iload_0 iconst_2 if_icmpne +5
        4, 172, // iconst_1 ireturn
        26, 4, 100, 184, 0, 2, // iload_0 iconst_1 isub invokestatic #2
        26, 5, 100, 184, 0, 2, // iload_0 iconst_2 isub invokestatic #2
        96, 172, // iadd ireturn
    ];
    let c = one_method_class(&mut vm, "rsvm/MethodCall", "fibonacci", "(I)I", code);
    vm.call_static(c, 0, &vec![32]).unwrap();
    let out = vm.run(u64::MAX);
    assert_eq!(out, Outcome::Returned(Some(rs_fibonacci(32) as i64)));
    assert_eq!(out, Outcome::Returned(Some(2178309)));
}

#[test]
fn goto_test() {
    let mut vm = new_vm();
    // goto +4 skips the unsupported byte at 3 and lands on iconst_5
    let code = vec![167, 0, 4, 0xff, 8, 172];
    let c = one_method_class(&mut vm, "rsvm/Goto", "next", "()I", code);
    vm.call_static(c, 0, &vec![]).unwrap();
    assert_eq!(vm.run(100), Outcome::Returned(Some(5)));
}

#[test]
fn native_methods_are_handed_to_the_host() {
    let mut vm = new_vm();
    let cls_sym = vm.get_symbol(b"rsvm/Native").unwrap();
    let twice = vm.get_symbol(b"twice").unwrap();
    let twice_d = vm.get_symbol(b"(J)J").unwrap();
    let run = vm.get_symbol(b"run").unwrap();
    let run_d = vm.get_symbol(b"()I").unwrap();
    let mut cp = ConstantPool::new(7);
    cp.set_utf8(1, cls_sym);
    cp.set_value(2, TAG_CLASS, 1);
    cp.set_utf8(3, twice);
    cp.set_utf8(4, twice_d);
    cp.set_pair(5, TAG_NAME_AND_TYPE, 3, 4);
    cp.set_pair(6, TAG_METHODREF, 2, 5);
    let id = vm.registry.len();
    let native = Method::new(id, 0x0109, twice, twice_d, b"(J)J", 0, 2, vec![], vec![]).unwrap();
    // lconst_1; invokestatic twice; l2i; ireturn
    let caller = Method::new(id, 0x0009, run, run_d, b"()I", 4, 1, vec![10, 184, 0, 6, 136, 172], vec![]).unwrap();
    let data = ClassData {
        name: cls_sym,
        access_flags: 0x21,
        super_class: None,
        interfaces: vec![],
        fields: vec![],
        methods: vec![native, caller],
        component_type: None,
        inst_size: 0,
        static_size: 0,
        cp,
        init_method: None,
    };
    let c = vm.define_class(b"rsvm/Native", data).unwrap();
    vm.call_static(c, 1, &vec![]).unwrap();
    match vm.run(100) {
        Outcome::NativeCall { symbol, args, wide_result, void_result } => {
            assert_eq!(symbol, b"Java_rsvm_Native_twice".to_vec());
            assert_eq!(args, vec![c as i64, 1]);
            assert!(wide_result);
            assert!(!void_result);
            vm.native_return(Some(args[1] * 2), true);
        }
        other => panic!("unexpected outcome {:?}", other),
    }
    assert_eq!(vm.run(100), Outcome::Returned(Some(2)));
}

fn word(v: i32) -> Vec<u8> {
    v.to_be_bytes().to_vec()
}

#[test]
fn table_and_lookup_switches() {
    let mut vm = new_vm();
    let mut code = vec![26, 170, 0, 0];
    for v in [36, 1, 3, 27, 30, 33] {
        code.extend(word(v));
    }
    code.extend([16, 10, 172, 16, 20, 172, 16, 30, 172, 2, 172]);
    let c = one_method_class(&mut vm, "rsvm/Table", "pick", "(I)I", code);
    for (key, want) in [(1, 10), (2, 20), (3, 30), (0, -1), (5, -1)] {
        vm.call_static(c, 0, &vec![key]).unwrap();
        assert_eq!(vm.run(100), Outcome::Returned(Some(want)));
    }
    let mut code = vec![26, 171, 0, 0];
    for v in [33, 2, 10, 27, 20, 30] {
        code.extend(word(v));
    }
    code.extend([16, 1, 172, 16, 2, 172, 2, 172]);
    let c = one_method_class(&mut vm, "rsvm/Lookup", "pick", "(I)I", code);
    for (key, want) in [(10, 1), (20, 2), (15, -1)] {
        vm.call_static(c, 0, &vec![key]).unwrap();
        assert_eq!(vm.run(100), Outcome::Returned(Some(want)));
    }
}

#[test]
fn wide_locals_and_long_arrays() {
    let mut vm = new_vm();
    let c = one_method_class(&mut vm, "rsvm/Wide", "inc", "(I)I", vec![196, 132, 0, 0, 0x03, 0xE8, 196, 21, 0, 0, 172]);
    vm.call_static(c, 0, &vec![5]).unwrap();
    assert_eq!(vm.run(100), Outcome::Returned(Some(1005)));
    let c = one_method_class(&mut vm, "rsvm/Longs", "get", "()I", vec![5, 188, 11, 89, 4, 10, 80, 4, 47, 136, 172]);
    vm.call_static(c, 0, &vec![]).unwrap();
    assert_eq!(vm.run(100), Outcome::Returned(Some(1)));
    // an index past the end raises the bounds exception
    let c = one_method_class(&mut vm, "rsvm/Oob", "get", "()I", vec![5, 188, 10, 6, 46, 172]);
    vm.call_static(c, 0, &vec![]).unwrap();
    assert_eq!(
        vm.run(100),
        Outcome::Threw(rsvm::vm::ExceptionKind::ArrayIndexOutOfBoundsException)
    );
}

#[test]
fn jsr_and_ret() {
    let mut vm = new_vm();
    // jsr +5 (to 5); iload_0; ireturn; [5] astore_1; iinc 0 1; ret 1
    let code = vec![168, 0, 5, 26, 172, 76, 132, 0, 1, 169, 1];
    let c = one_method_class(&mut vm, "rsvm/Jsr", "sub", "(I)I", code);
    vm.call_static(c, 0, &vec![41]).unwrap();
    assert_eq!(vm.run(100), Outcome::Returned(Some(42)));
}

#[test]
fn long_division_by_zero() {
    let mut vm = new_vm();
    let c = one_method_class(&mut vm, "rsvm/LDiv", "div", "()J", vec![10, 9, 109, 173]);
    vm.call_static(c, 0, &vec![]).unwrap();
    assert_eq!(vm.run(100), Outcome::Threw(rsvm::vm::ExceptionKind::ArithmeticException));
    let c = one_method_class(&mut vm, "rsvm/LShl", "shl", "()J", vec![10, 16, 65, 121, 173]);
    vm.call_static(c, 0, &vec![]).unwrap();
    assert_eq!(vm.run(100), Outcome::Returned(Some(2)));
}
