use rsvm::class::ClassData;
use rsvm::constant_pool::{ConstantPool, TAG_CLASS, TAG_FIELDREF, TAG_NAME_AND_TYPE};
use rsvm::field::Field;
use rsvm::method::Method;
use rsvm::runtime::{Component, HeapObj};
use rsvm::registry::ClassLoadErr;
use rsvm::vm::{DefineOutcome, Outcome, VMConfig, Vm};

fn pool(vm: &mut Vm) -> ConstantPool {
    let mut cp = ConstantPool::new(16);
    for (i, s) in [(1u16, "Q"), (3, "P"), (5, "v"), (6, "I"), (9, "x"), (12, "[[I")] {
        let sym = vm.get_symbol(s.as_bytes()).unwrap();
        cp.set_utf8(i, sym);
    }
    cp.set_value(2, TAG_CLASS, 1);
    cp.set_value(4, TAG_CLASS, 3);
    cp.set_pair(7, TAG_NAME_AND_TYPE, 5, 6);
    cp.set_pair(8, TAG_FIELDREF, 2, 7);
    cp.set_pair(10, TAG_NAME_AND_TYPE, 9, 6);
    cp.set_pair(11, TAG_FIELDREF, 4, 10);
    cp.set_value(13, TAG_CLASS, 12);
    cp
}

fn class_with(vm: &mut Vm, name: &str, field: Option<&str>, methods: Vec<(u16, &str, &str, Vec<u8>)>, init: Option<usize>) -> usize {
    let id = vm.registry.len();
    let mut ms = Vec::new();
    for (flags, n, d, code) in methods {
        let ns = vm.get_symbol(n.as_bytes()).unwrap();
        let ds = vm.get_symbol(d.as_bytes()).unwrap();
        ms.push(Method::new(id, flags, ns, ds, d.as_bytes(), 4, 2, code, vec![]).unwrap());
    }
    let mut fields = Vec::new();
    if let Some(f) = field {
        fields.push(Field {
            access_flags: 0x0008,
            layout_offset: 0,
            name: vm.get_symbol(f.as_bytes()).unwrap(),
            field_class: None,
            descriptor: vm.get_symbol(b"I").unwrap(),
            constval_index: 0,
            size: 4,
        });
    }
    let cp = pool(vm);
    let data = ClassData {
        name: vm.get_symbol(name.as_bytes()).unwrap(),
        access_flags: 0x21,
        super_class: None,
        interfaces: vec![],
        fields,
        methods: ms,
        component_type: None,
        inst_size: 0,
        static_size: 8,
        cp,
        init_method: init,
    };
    vm.define_class(name.as_bytes(), data).unwrap()
}

fn new_vm() -> Vm {
    Vm::new(VMConfig::new(".".to_string(), ".".to_string(), ".".to_string(), "Main".to_string()))
}

#[test]
fn class_initialization_ordering() {
    let mut vm = new_vm();
    // class Q { static int v = 1; }
    class_with(&mut vm, "Q", Some("v"), vec![(8, "<clinit>", "()V", vec![4, 179, 0, 8, 177])], Some(0));
    // class P { static int x = Q.v; }
    class_with(&mut vm, "P", Some("x"), vec![(8, "<clinit>", "()V", vec![178, 0, 8, 179, 0, 11, 177])], Some(0));
    let main = class_with(&mut vm, "Main", None, vec![(9, "get", "()I", vec![178, 0, 11, 172])], None);
    vm.call_static(main, 0, &vec![]).unwrap();
    assert_eq!(vm.run(1000), Outcome::Returned(Some(1)));
    // the initializers ran once: reading again gives the same value
    vm.call_static(main, 0, &vec![]).unwrap();
    assert_eq!(vm.run(1000), Outcome::Returned(Some(1)));
}

#[test]
fn multi_dimensional_arrays() {
    let mut vm = new_vm();
    // new int[2][3]; arraylength of the outer array
    let code = vec![5, 6, 197, 0, 13, 2, 89, 190, 95, 3, 50, 190, 96, 172];
    let main = class_with(&mut vm, "Main", None, vec![(9, "make", "()I", code)], None);
    vm.call_static(main, 0, &vec![]).unwrap();
    // outer length 2 plus inner length 3
    assert_eq!(vm.run(1000), Outcome::Returned(Some(5)));
    let inner_count = vm
        .heap
        .iter()
        .filter(|o| matches!(o, HeapObj::Array { arr, .. } if arr.component == Component::Prim(b'I')))
        .count();
    assert_eq!(inner_count, 2);
}

#[test]
fn array_classes_are_synthesized() {
    let mut vm = new_vm();
    let object = class_with(&mut vm, "java/lang/Object", None, vec![], None);
    let string = class_with(&mut vm, "java/lang/String", None, vec![], None);
    let c = match vm.define_array_class(b"[[Ljava/lang/String;") {
        DefineOutcome::Defined(c) => c,
        other => panic!("{:?}", other),
    };
    let inner = vm.registry.find_class(b"[Ljava/lang/String;").unwrap();
    assert_eq!(vm.registry.class_data(c).component_type, Some(inner));
    assert_eq!(vm.registry.class_data(inner).component_type, Some(string));
    assert_eq!(vm.registry.class_data(c).super_class, Some(object));
    let ints = match vm.define_array_class(b"[I") {
        DefineOutcome::Defined(c) => c,
        other => panic!("{:?}", other),
    };
    assert_eq!(vm.registry.class_data(ints).component_type, None);
    assert_eq!(vm.registry.class_data(ints).inst_size, 4);
    assert_eq!(vm.define_array_class(b"[Lmissing/Thing;"), DefineOutcome::NeedClass(b"missing/Thing".to_vec()));
    assert_eq!(vm.define_array_class(b"I"), DefineOutcome::Failed(ClassLoadErr::InvalidFormat));
    assert_eq!(vm.define_array_class(b"[I;"), DefineOutcome::Failed(ClassLoadErr::InvalidFormat));
    let pre = vm.preloaded_classes();
    assert_eq!(pre.jobject_cls(), Some(object));
    assert_eq!(pre.jclass_cls(), None);
    assert_eq!(pre.jobject_arr_cls(), None);
    let objs = match vm.define_array_class(b"[Ljava/lang/Object;") {
        DefineOutcome::Defined(c) => c,
        other => panic!("{:?}", other),
    };
    assert_eq!(vm.preloaded_classes().jobject_arr_cls(), Some(objs));
}

#[test]
fn ldc_of_a_class_pushes_its_class_object() {
    let mut vm = new_vm();
    let q = class_with(&mut vm, "Q", Some("v"), vec![], None);
    // ldc #2 (class Q) twice; if_acmpeq +5; iconst_0; ireturn; iconst_1; ireturn
    let main = class_with(&mut vm, "Main", None, vec![(9, "same", "()I", vec![18, 2, 18, 2, 165, 0, 5, 3, 172, 4, 172])], None);
    vm.call_static(main, 0, &vec![]).unwrap();
    assert_eq!(vm.run(100), Outcome::Returned(Some(1)));
    assert!(vm.mirrors[q] > 0);
}
