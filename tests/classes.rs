use rsvm::class::{layout_fields, ClassData, ClassState, FieldLayout};
use rsvm::constant_pool::ConstantPool;
use rsvm::method::Method;
use rsvm::registry::{ClassRegistry, InitAction, MethodResolutionError};
use rsvm::symbol::SymbolTable;

struct World {
    syms: SymbolTable,
    reg: ClassRegistry,
}

impl World {
    fn new() -> World {
        let mut syms = SymbolTable::new();
        let ctor = syms.get_or_insert(b"<init>");
        World { syms, reg: ClassRegistry::new(ctor) }
    }

    fn sym(&mut self, s: &str) -> usize {
        self.syms.get_or_insert(s.as_bytes())
    }

    fn method(&mut self, cls: usize, flags: u16, name: &str, desc: &str) -> Method {
        let n = self.sym(name);
        let d = self.sym(desc);
        Method::new(cls, flags, n, d, desc.as_bytes(), 2, 2, vec![177], vec![]).unwrap()
    }

    fn class(&mut self, name: &str, flags: u16, sup: Option<usize>, ifs: Vec<usize>, ms: Vec<(u16, &str, &str)>) -> usize {
        let id = self.reg.len();
        let methods = ms.iter().map(|(f, n, d)| self.method(id, *f, n, d)).collect();
        let data = ClassData {
            name: self.sym(name),
            access_flags: flags,
            super_class: sup,
            interfaces: ifs,
            fields: vec![],
            methods,
            component_type: None,
            inst_size: 0,
            static_size: 0,
            cp: ConstantPool::new(1),
            init_method: None,
        };
        self.reg.define_class(name.as_bytes(), data).unwrap()
    }
}

#[test]
fn class_registry_identity() {
    let mut w = World::new();
    let object = w.class("java/lang/Object", 0x21, None, vec![], vec![]);
    let again = w.class("java/lang/Object", 0x21, None, vec![], vec![]);
    assert_eq!(object, again);
    assert_eq!(w.reg.find_class(b"java/lang/Object"), Some(object));
    assert_eq!(w.reg.find_class(b"java/lang/Missing"), None);
    assert_eq!(w.reg.len(), 1);
}

#[test]
fn vtable_holds_most_derived_override() {
    let mut w = World::new();
    let base = w.class("Base", 0x21, None, vec![], vec![(1, "name", "()Ljava/lang/String;"), (1, "id", "()I")]);
    let sub = w.class("Sub", 0x21, Some(base), vec![], vec![(1, "name", "()Ljava/lang/String;"), (1, "extra", "()V")]);
    w.reg.link(sub).unwrap();
    let name = w.sym("name");
    let desc = w.sym("()Ljava/lang/String;");
    let (e, slot) = w.reg.resolve_class_method(base, name, desc).unwrap();
    assert_eq!(e.cls, base);
    let (e2, slot2) = w.reg.resolve_class_method(sub, name, desc).unwrap();
    assert_eq!(e2.cls, sub);
    assert_eq!(slot, slot2);
    let v = w.reg.resolve_virtual_with_index(sub, name, desc, slot).unwrap();
    assert_eq!(v.cls, sub);
    assert_eq!(w.reg.vtab(base).len(), 2);
    assert_eq!(w.reg.vtab(sub).len(), 3);
    let id = w.sym("id");
    let idd = w.sym("()I");
    let (e3, _) = w.reg.resolve_class_method(sub, id, idd).unwrap();
    assert_eq!(e3.cls, base);
    assert_eq!(
        w.reg.resolve_virtual_with_index(sub, name, desc, 7),
        Err(MethodResolutionError::AbstractMethod)
    );
}

#[test]
fn interface_dispatch_through_hierarchy() {
    let mut w = World::new();
    let object = w.class("java/lang/Object", 0x21, None, vec![], vec![]);
    let i = w.class("I", 0x601, Some(object), vec![], vec![(0x401, "f", "()I")]);
    let a = w.class("A", 0x421, Some(object), vec![i], vec![]);
    let b = w.class("B", 0x21, Some(a), vec![], vec![(1, "f", "()I")]);
    w.reg.link(b).unwrap();
    let f = w.sym("f");
    let d = w.sym("()I");
    let e = w.reg.resolve_interface_method(b, i, f, d).unwrap();
    assert_eq!(e.cls, b);
    let (v, _) = w.reg.resolve_class_method(b, f, d).unwrap();
    assert_eq!(v, e);
    // the abstract class itself has only the interface method in that slot
    let ea = w.reg.resolve_interface_method(a, i, f, d).unwrap();
    assert_eq!(ea.cls, i);
    assert!(w.reg.is_implement(b, i));
    assert!(w.reg.is_assignable_from(i, b, object));
    assert_eq!(
        w.reg.resolve_interface_method(object, i, f, d),
        Err(MethodResolutionError::IncompatibleClassChange)
    );
}

#[test]
fn array_store_compatibility() {
    let mut w = World::new();
    let object = w.class("java/lang/Object", 0x21, None, vec![], vec![]);
    let string = w.class("java/lang/String", 0x31, Some(object), vec![], vec![]);
    // a String may go where an Object is expected, not the other way
    assert!(w.reg.is_assignable_from(object, string, object));
    assert!(!w.reg.is_assignable_from(string, object, object));
}

#[test]
fn class_initialization_runs_once() {
    let mut w = World::new();
    let id = w.reg.len();
    let clinit = w.method(id, 8, "<clinit>", "()V");
    let data = ClassData {
        name: w.sym("Q"),
        access_flags: 0x21,
        super_class: None,
        interfaces: vec![],
        fields: vec![],
        methods: vec![clinit],
        component_type: None,
        inst_size: 0,
        static_size: 8,
        cp: ConstantPool::new(1),
        init_method: Some(0),
    };
    let q = w.reg.define_class(b"Q", data).unwrap();
    assert_eq!(w.reg.state(q), ClassState::Created);
    assert_eq!(w.reg.begin_initialize(q), Ok(InitAction::RunClinit(0)));
    assert_eq!(w.reg.state(q), ClassState::Initializing);
    assert_eq!(w.reg.begin_initialize(q), Ok(InitAction::Done));
    w.reg.finish_initialize(q);
    assert_eq!(w.reg.state(q), ClassState::Initialized);
    assert_eq!(w.reg.begin_initialize(q), Ok(InitAction::Done));
}

#[test]
fn duplicate_signatures_are_refused() {
    let mut w = World::new();
    let id = w.reg.len();
    let m1 = w.method(id, 1, "f", "()V");
    let m2 = w.method(id, 1, "f", "()V");
    let data = ClassData {
        name: w.sym("Dup"),
        access_flags: 0x21,
        super_class: None,
        interfaces: vec![],
        fields: vec![],
        methods: vec![m1, m2],
        component_type: None,
        inst_size: 0,
        static_size: 0,
        cp: ConstantPool::new(1),
        init_method: None,
    };
    assert!(w.reg.define_class(b"Dup", data).is_err());
}

#[test]
fn field_layout_packs_and_aligns() {
    let fields = vec![(false, 4u16), (false, 2), (false, 4), (false, 2), (false, 8), (true, 1)];
    let (offs, ssize, isize) = layout_fields(&fields).unwrap();
    assert_eq!(offs, vec![0, 4, 8, 12, 16, 0]);
    assert_eq!(ssize, 8);
    assert_eq!(isize, 24);
    for i in 0..fields.len() {
        for j in (i + 1)..fields.len() {
            if fields[i].0 == fields[j].0 {
                assert!(offs[i] + fields[i].1 <= offs[j] || offs[j] + fields[j].1 <= offs[i]);
            }
        }
    }
}

#[test]
fn field_layout_single_steps() {
    let mut l = FieldLayout::new();
    assert_eq!(l.obtain_field_offset(1), 0);
    assert_eq!(l.obtain_field_offset(4), 1);
    assert_eq!(l.obtain_field_offset(8), 8);
    assert_eq!(l.get_aligned_size(), 16);
    assert_eq!(l.obtain_field_offset(2), 16);
    assert_eq!(l.get_aligned_size(), 24);
}

#[test]
fn native_names_and_descriptor_names() {
    assert_eq!(
        ClassData::get_native_fn_name(b"java/lang/Object", b"hashCode"),
        b"Java_java_lang_Object_hashCode".to_vec()
    );
    assert_eq!(ClassData::descriptor_to_class_name(b"Ljava/lang/String;"), b"java/lang/String".to_vec());
    assert_eq!(ClassData::descriptor_to_class_name(b"[I"), b"[I".to_vec());
}

#[test]
fn declared_interfaces() {
    let mut w = World::new();
    let i = w.class("I", 0x601, None, vec![], vec![]);
    let a = w.class("A", 0x21, None, vec![i], vec![]);
    assert!(w.reg.class_data(a).is_implement(i));
    assert!(!w.reg.class_data(i).is_implement(a));
    assert!(w.reg.class_data(i).is_interface());
}

#[test]
fn superinterfaces_are_in_the_interface_table() {
    let mut w = World::new();
    let object = w.class("java/lang/Object", 0x21, None, vec![], vec![]);
    let i = w.class("I", 0x601, Some(object), vec![], vec![(0x401, "f", "()I")]);
    let j = w.class("J", 0x601, Some(object), vec![i], vec![(0x401, "g", "()I")]);
    let c = w.class("C", 0x21, Some(object), vec![j], vec![(1, "f", "()I"), (1, "g", "()I")]);
    assert_eq!(w.reg.link(c), Ok(()));
    let f = w.sym("f");
    let g = w.sym("g");
    let d = w.sym("()I");
    let e = w.reg.resolve_interface_method(c, i, f, d).unwrap();
    assert_eq!(e.cls, c);
    let e2 = w.reg.resolve_interface_method(c, j, g, d).unwrap();
    assert_eq!(e2.cls, c);
    assert!(w.reg.is_implement(c, i));
    assert!(!w.reg.is_implement(i, j));
}
