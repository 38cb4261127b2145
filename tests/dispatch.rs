use rsvm::class::ClassData;
use rsvm::constant_pool::{ConstantPool, TAG_CLASS, TAG_METHODREF, TAG_NAME_AND_TYPE, TAG_STRING};
use rsvm::method::Method;
use rsvm::runtime::HeapObj;
use rsvm::vm::{Outcome, VMConfig, Vm};

/// The constant pool every class of these tests shares.
fn pool(vm: &mut Vm) -> ConstantPool {
    let utf8 = [
        (1u16, "java/lang/Object"),
        (3, "Base"),
        (5, "Sub"),
        (7, "<init>"),
        (8, "()V"),
        (13, "name"),
        (14, "()Ljava/lang/String;"),
        (20, "rsvm/MethodCall"),
    ];
    let mut cp = ConstantPool::new(22);
    for (i, s) in utf8 {
        let sym = vm.get_symbol(s.as_bytes()).unwrap();
        cp.set_utf8(i, sym);
    }
    cp.set_value(2, TAG_CLASS, 1);
    cp.set_value(4, TAG_CLASS, 3);
    cp.set_value(6, TAG_CLASS, 5);
    cp.set_pair(9, TAG_NAME_AND_TYPE, 7, 8);
    cp.set_pair(10, TAG_METHODREF, 2, 9);
    cp.set_pair(11, TAG_METHODREF, 4, 9);
    cp.set_pair(12, TAG_METHODREF, 6, 9);
    cp.set_pair(15, TAG_NAME_AND_TYPE, 13, 14);
    cp.set_pair(16, TAG_METHODREF, 4, 15);
    cp.set_value(18, TAG_STRING, 3);
    cp.set_value(19, TAG_STRING, 5);
    cp.set_value(21, TAG_CLASS, 20);
    cp
}

fn define(vm: &mut Vm, name: &str, sup: Option<usize>, methods: Vec<(u16, &str, &str, Vec<u8>)>) -> usize {
    let id = vm.registry.len();
    let mut ms = Vec::new();
    for (flags, n, d, code) in methods {
        let ns = vm.get_symbol(n.as_bytes()).unwrap();
        let ds = vm.get_symbol(d.as_bytes()).unwrap();
        ms.push(Method::new(id, flags, ns, ds, d.as_bytes(), 4, 2, code, vec![]).unwrap());
    }
    let cp = pool(vm);
    let data = ClassData {
        name: vm.get_symbol(name.as_bytes()).unwrap(),
        access_flags: 0x21,
        super_class: sup,
        interfaces: vec![],
        fields: vec![],
        methods: ms,
        component_type: None,
        inst_size: 0,
        static_size: 0,
        cp,
        init_method: None,
    };
    vm.define_class(name.as_bytes(), data).unwrap()
}

#[test]
fn invoke_virtual() {
    let mut vm = Vm::new(VMConfig::new(
        ".".to_string(),
        ".".to_string(),
        "./tests/classes".to_string(),
        "Main".to_string(),
    ));
    let object = define(&mut vm, "java/lang/Object", None, vec![(1, "<init>", "()V", vec![177])]);
    let base = define(
        &mut vm,
        "Base",
        Some(object),
        vec![
            (1, "<init>", "()V", vec![42, 183, 0, 10, 177]),
            (1, "name", "()Ljava/lang/String;", vec![18, 18, 176]),
        ],
    );
    let _sub = define(
        &mut vm,
        "Sub",
        Some(base),
        vec![
            (1, "<init>", "()V", vec![42, 183, 0, 11, 177]),
            (1, "name", "()Ljava/lang/String;", vec![18, 19, 176]),
        ],
    );
    // Base b = new Sub(); return b.name();
    let mc = define(
        &mut vm,
        "rsvm/MethodCall",
        Some(object),
        vec![(9, "invokeVirtual", "()Ljava/lang/String;", vec![187, 0, 6, 89, 183, 0, 12, 182, 0, 16, 176])],
    );
    vm.call_static(mc, 0, &vec![]).unwrap();
    let r = match vm.run(10_000) {
        Outcome::Returned(Some(r)) => r,
        other => panic!("unexpected outcome {:?}", other),
    };
    let id = match &vm.heap[(r - 1) as usize] {
        HeapObj::Str { id, .. } => *id,
        _ => panic!("not a string"),
    };
    let result = String::from_utf16(vm.strings.chars(id)).unwrap();
    assert_eq!("Sub", &result);
}

#[test]
fn missing_class_is_requested_then_found() {
    let mut vm = Vm::new(VMConfig::new(
        ".".to_string(),
        ".".to_string(),
        ".".to_string(),
        "Main".to_string(),
    ));
    let object = define(&mut vm, "java/lang/Object", None, vec![(1, "<init>", "()V", vec![177])]);
    let mc = define(
        &mut vm,
        "rsvm/MethodCall",
        Some(object),
        vec![(9, "make", "()Ljava/lang/String;", vec![187, 0, 6, 89, 183, 0, 12, 182, 0, 16, 176])],
    );
    vm.call_static(mc, 0, &vec![]).unwrap();
    assert_eq!(vm.run(100), Outcome::NeedClass(b"Sub".to_vec()));
    let base = define(
        &mut vm,
        "Base",
        Some(object),
        vec![
            (1, "<init>", "()V", vec![42, 183, 0, 10, 177]),
            (1, "name", "()Ljava/lang/String;", vec![18, 18, 176]),
        ],
    );
    define(&mut vm, "Sub", Some(base), vec![(1, "<init>", "()V", vec![42, 183, 0, 11, 177])]);
    // Sub does not override name(): Base's method answers
    let r = match vm.run(10_000) {
        Outcome::Returned(Some(r)) => r,
        other => panic!("unexpected outcome {:?}", other),
    };
    let id = match &vm.heap[(r - 1) as usize] {
        HeapObj::Str { id, .. } => *id,
        _ => panic!("not a string"),
    };
    assert_eq!(String::from_utf16(vm.strings.chars(id)).unwrap(), "Base");
}

#[test]
fn division_by_zero_surfaces_as_exception() {
    let mut vm = Vm::new(VMConfig::new(
        ".".to_string(),
        ".".to_string(),
        ".".to_string(),
        "Main".to_string(),
    ));
    let object = define(&mut vm, "java/lang/Object", None, vec![]);
    let c = define(&mut vm, "Div", Some(object), vec![(9, "div", "()I", vec![8, 3, 108, 172])]);
    vm.call_static(c, 0, &vec![]).unwrap();
    assert_eq!(
        vm.run(100),
        Outcome::Threw(rsvm::vm::ExceptionKind::ArithmeticException)
    );
}

#[test]
fn thrown_object_is_caught_by_matching_handler() {
    let mut vm = Vm::new(VMConfig::new(
        ".".to_string(),
        ".".to_string(),
        ".".to_string(),
        "Main".to_string(),
    ));
    let object = define(&mut vm, "java/lang/Object", None, vec![(1, "<init>", "()V", vec![177])]);
    define(&mut vm, "Base", Some(object), vec![(1, "<init>", "()V", vec![42, 183, 0, 10, 177])]);
    // new Base; dup; invokespecial <init>; athrow; [handler] pop; iconst_5; ireturn
    let code = vec![187, 0, 4, 89, 183, 0, 11, 191, 87, 8, 172];
    let id = vm.registry.len();
    let n = vm.get_symbol(b"catching").unwrap();
    let d = vm.get_symbol(b"()I").unwrap();
    let caught = rsvm::method::ExceptionTable::new(0, 8, 8, 4);
    let m = Method::new(id, 9, n, d, b"()I", 4, 1, code.clone(), vec![caught]).unwrap();
    let n2 = vm.get_symbol(b"escaping").unwrap();
    let m2 = Method::new(id, 9, n2, d, b"()I", 4, 1, code, vec![]).unwrap();
    let cp = pool(&mut vm);
    let data = ClassData {
        name: vm.get_symbol(b"Thrower").unwrap(),
        access_flags: 0x21,
        super_class: Some(object),
        interfaces: vec![],
        fields: vec![],
        methods: vec![m, m2],
        component_type: None,
        inst_size: 0,
        static_size: 0,
        cp,
        init_method: None,
    };
    let c = vm.define_class(b"Thrower", data).unwrap();
    vm.call_static(c, 0, &vec![]).unwrap();
    assert_eq!(vm.run(1000), Outcome::Returned(Some(5)));
    vm.call_static(c, 1, &vec![]).unwrap();
    match vm.run(1000) {
        Outcome::Threw(rsvm::vm::ExceptionKind::Thrown(r)) => assert!(r > 0),
        other => panic!("unexpected outcome {:?}", other),
    }
}

#[test]
fn invoke_hello_rsvm() {
    let mut vm = Vm::new(VMConfig::new(
        ".".to_string(),
        ".".to_string(),
        "./tests/classes".to_string(),
        "rsvm.HelloRSVM".to_string(),
    ));
    let name = rsvm::vm::binary_to_internal(b"rsvm.HelloRSVM");
    assert_eq!(name, b"rsvm/HelloRSVM".to_vec());
    let cls = vm.get_symbol(&name).unwrap();
    let hello = vm.get_symbol(b"Hello\n").unwrap();
    let print = vm.get_symbol(b"print").unwrap();
    let print_d = vm.get_symbol(b"(Ljava/lang/String;)V").unwrap();
    let main = vm.get_symbol(b"main").unwrap();
    let main_d = vm.get_symbol(b"([Ljava/lang/String;)V").unwrap();
    let mut cp = ConstantPool::new(9);
    cp.set_utf8(1, cls);
    cp.set_value(2, TAG_CLASS, 1);
    cp.set_utf8(3, print);
    cp.set_utf8(4, print_d);
    cp.set_pair(5, TAG_NAME_AND_TYPE, 3, 4);
    cp.set_pair(6, TAG_METHODREF, 2, 5);
    cp.set_utf8(7, hello);
    cp.set_value(8, TAG_STRING, 7);
    let id = vm.registry.len();
    let native = Method::new(id, 0x0109, print, print_d, b"(Ljava/lang/String;)V", 0, 1, vec![], vec![]).unwrap();
    // ldc "Hello\n"; invokestatic print; return
    let m = Method::new(id, 0x0009, main, main_d, b"([Ljava/lang/String;)V", 2, 1, vec![18, 8, 184, 0, 6, 177], vec![])
        .unwrap();
    let data = ClassData {
        name: cls,
        access_flags: 0x21,
        super_class: None,
        interfaces: vec![],
        fields: vec![],
        methods: vec![native, m],
        component_type: None,
        inst_size: 0,
        static_size: 0,
        cp,
        init_method: None,
    };
    let c = vm.define_class(&name, data).unwrap();
    let (mc, mk) = vm.get_static_method(c, b"main", b"([Ljava/lang/String;)V").unwrap();
    vm.call_static(mc, mk, &vec![0]).unwrap();
    let mut stdout: Vec<u16> = Vec::new();
    loop {
        match vm.run(1000) {
            Outcome::NativeCall { symbol, args, void_result, .. } => {
                assert_eq!(symbol, b"Java_rsvm_HelloRSVM_print".to_vec());
                assert!(void_result);
                let r = args[1];
                if let HeapObj::Str { id, .. } = &vm.heap[(r - 1) as usize] {
                    stdout.extend_from_slice(vm.strings.chars(*id));
                }
                vm.native_return(None, false);
            }
            Outcome::Returned(None) => break,
            other => panic!("unexpected outcome {:?}", other),
        }
    }
    assert_eq!(String::from_utf16(&stdout).unwrap(), "Hello\n");
}

#[test]
fn vm_exceptions_reach_exception_tables() {
    let mut vm = Vm::new(VMConfig::new(".".to_string(), ".".to_string(), ".".to_string(), "Main".to_string()));
    let object = define(&mut vm, "java/lang/Object", None, vec![]);
    define(&mut vm, "java/lang/ArithmeticException", Some(object), vec![]);
    // iconst_1; iconst_0; idiv; ireturn; [handler] pop; iconst_5; ireturn
    let code = vec![4, 3, 108, 172, 87, 8, 172];
    let id = vm.registry.len();
    let n = vm.get_symbol(b"div").unwrap();
    let d = vm.get_symbol(b"()I").unwrap();
    let all = rsvm::method::ExceptionTable::new(0, 4, 4, 0);
    let m = Method::new(id, 9, n, d, b"()I", 4, 1, code, vec![all]).unwrap();
    let cp = pool(&mut vm);
    let data = ClassData {
        name: vm.get_symbol(b"Div").unwrap(),
        access_flags: 0x21,
        super_class: Some(object),
        interfaces: vec![],
        fields: vec![],
        methods: vec![m],
        component_type: None,
        inst_size: 0,
        static_size: 0,
        cp,
        init_method: None,
    };
    let c = vm.define_class(b"Div", data).unwrap();
    vm.call_static(c, 0, &vec![]).unwrap();
    assert_eq!(vm.run(100), Outcome::Returned(Some(5)));
}
