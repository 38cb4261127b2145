use rsvm::parser::{major_version_is_support, ClassParser};
use rsvm::reader::{ExternalBytesClassReader, OwnedBytesClassReader};
use rsvm::registry::ClassLoadErr;
use rsvm::symbol::SymbolTable;
use rsvm::vm::{DefineOutcome, Outcome, VMConfig, Vm};

fn u2(out: &mut Vec<u8>, v: u16) {
    out.extend_from_slice(&v.to_be_bytes());
}

fn u4(out: &mut Vec<u8>, v: u32) {
    out.extend_from_slice(&v.to_be_bytes());
}

fn utf8(out: &mut Vec<u8>, s: &str) {
    out.push(1);
    u2(out, s.len() as u16);
    out.extend_from_slice(s.as_bytes());
}

/// A class file for `rsvm/Fib` with a static int field and the recursive
/// `fibonacci(I)I`.
fn fib_class(major: u16) -> Vec<u8> {
    let mut b = Vec::new();
    u4(&mut b, 0xCAFEBABE);
    u2(&mut b, 0);
    u2(&mut b, major);
    u2(&mut b, 12);
    utf8(&mut b, "rsvm/Fib"); // 1
    b.push(7);
    u2(&mut b, 1); // 2
    utf8(&mut b, "fibonacci"); // 3
    utf8(&mut b, "(I)I"); // 4
    b.push(12);
    u2(&mut b, 3);
    u2(&mut b, 4); // 5
    b.push(10);
    u2(&mut b, 2);
    u2(&mut b, 5); // 6
    utf8(&mut b, "Code"); // 7
    utf8(&mut b, "count"); // 8
    utf8(&mut b, "I"); // 9
    utf8(&mut b, "SourceFile"); // 10
    utf8(&mut b, "Fib.java"); // 11
    u2(&mut b, 0x21);
    u2(&mut b, 2);
    u2(&mut b, 0);
    u2(&mut b, 0);
    // one static field `count`
    u2(&mut b, 1);
    u2(&mut b, 0x0008);
    u2(&mut b, 8);
    u2(&mut b, 9);
    u2(&mut b, 0);
    // one method
    let code: Vec<u8> = vec![
        26, 4, 159, 0, 8, 26, 5, 160, 0, 5, 4, 172, 26, 4, 100, 184, 0, 6, 26, 5, 100, 184, 0, 6, 96, 172,
    ];
    u2(&mut b, 1);
    u2(&mut b, 0x0009);
    u2(&mut b, 3);
    u2(&mut b, 4);
    u2(&mut b, 1);
    u2(&mut b, 7);
    u4(&mut b, (2 + 2 + 4 + code.len() + 2 + 2) as u32);
    u2(&mut b, 4);
    u2(&mut b, 1);
    u4(&mut b, code.len() as u32);
    b.extend_from_slice(&code);
    u2(&mut b, 0);
    u2(&mut b, 0);
    // class attributes
    u2(&mut b, 1);
    u2(&mut b, 10);
    u4(&mut b, 2);
    u2(&mut b, 11);
    b
}

#[test]
fn parses_and_runs_a_class_file() {
    let mut vm = Vm::new(VMConfig::new(".".to_string(), ".".to_string(), ".".to_string(), "rsvm.Fib".to_string()));
    let c = match vm.load_class_bytes(fib_class(52)) {
        DefineOutcome::Defined(c) => c,
        other => panic!("{:?}", other),
    };
    assert_eq!(vm.registry.find_class(b"rsvm/Fib"), Some(c));
    let (mc, m) = vm.get_static_method(c, b"fibonacci", b"(I)I").unwrap();
    assert_eq!(mc, c);
    vm.call_static(c, m, &vec![10]).unwrap();
    assert_eq!(vm.run(1_000_000), Outcome::Returned(Some(55)));
    let cd = vm.registry.class_data(c);
    assert_eq!(cd.fields.len(), 1);
    assert_eq!(cd.static_size, 8);
}

#[test]
fn parser_reports_layout_and_methods() {
    let mut syms = SymbolTable::new();
    let mut p = ClassParser::new(fib_class(57));
    let pc = p.parse_class(&mut syms).unwrap();
    assert_eq!(pc.major_version, 57);
    assert_eq!(pc.methods.len(), 1);
    assert_eq!(pc.methods[0].code.len(), 26);
    assert_eq!(pc.methods[0].arg_slots, 1);
    assert_eq!(pc.fields[0].layout_offset, 0);
    assert_eq!(pc.fields[0].size, 4);
    assert_eq!(syms.as_bytes(pc.this_name), b"rsvm/Fib");
    assert!(pc.super_name.is_none());
}

#[test]
fn bad_magic_and_versions_are_refused() {
    let mut bytes = fib_class(52);
    bytes[0] = 0xCB;
    let mut syms = SymbolTable::new();
    assert_eq!(ClassParser::new(bytes).parse_class(&mut syms).err(), Some(ClassLoadErr::InvalidMagic));
    assert!(ClassParser::new(fib_class(58)).parse_class(&mut syms).is_err());
    assert!(ClassParser::new(fib_class(44)).parse_class(&mut syms).is_err());
    let mut truncated = fib_class(52);
    truncated.truncate(40);
    assert!(ClassParser::new(truncated).parse_class(&mut syms).is_err());
    assert!(major_version_is_support(45));
    assert!(major_version_is_support(57));
    assert!(!major_version_is_support(58));
}

#[test]
fn reader_reads_big_endian() {
    let mut r = OwnedBytesClassReader::new(vec![0xCA, 0xFE, 0xBA, 0xBE, 0x00, 0x34, 0x07]);
    assert_eq!(r.read_ubyte4(), Ok(0xCAFEBABE));
    assert_eq!(r.read_ubyte2(), Ok(0x34));
    assert_eq!(r.available(), 1);
    assert_eq!(r.read_ubyte2(), Err(ClassLoadErr::Truncated));
    assert_eq!(r.read_ubyte1(), Ok(7));
    assert_eq!(r.read_ubyte1(), Err(ClassLoadErr::Truncated));
    let bytes = [1u8, 2, 3];
    let e = ExternalBytesClassReader::new(&bytes);
    let mut o = e.to_owned();
    assert_eq!(o.peek_nbytes(2), Ok(vec![1, 2]));
    assert_eq!(o.skip(4), Err(ClassLoadErr::Truncated));
    assert_eq!(o.skip(3), Ok(()));
}
