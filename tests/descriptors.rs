use rsvm::descriptor::{Descriptor, DescriptorParser};
use rsvm::memory::POINTER_SIZE;

fn rc(s: &str, n: usize) -> Descriptor {
    Descriptor::ResolvedClass(s.as_bytes().to_vec(), n)
}

fn sym(s: &str) -> Descriptor {
    Descriptor::Symbol(s.as_bytes().to_vec(), POINTER_SIZE)
}

#[test]
fn parse_primitive_descriptor() {
    let mut d = DescriptorParser::from_bytes(b"IIJ");
    assert_eq!(rc("I", 4), d.next());
    assert_eq!(rc("I", 4), d.next());
    assert_eq!(rc("J", 8), d.next());
    assert_eq!(Descriptor::End, d.next());
}

#[test]
fn parse_ref_size_descriptor() {
    let mut d = DescriptorParser::from_bytes(
        b"ILjava/lang/String;Ljava/lang/Object;[Ljava/lang/Object;[[[Ljava/lang/Object;DJ",
    );
    assert_eq!(rc("I", 4), d.next());
    assert_eq!(sym("java/lang/String"), d.next());
    assert_eq!(sym("java/lang/Object"), d.next());
    assert_eq!(sym("[Ljava/lang/Object;"), d.next());
    assert_eq!(sym("[[[Ljava/lang/Object;"), d.next());
    assert_eq!(rc("D", 8), d.next());
    assert_eq!(rc("J", 8), d.next());
    assert_eq!(Descriptor::End, d.next());
}

#[test]
fn parse_method_descriptor() {
    let mut d = DescriptorParser::from_bytes(
        b"(ILjava/lang/String;Ljava/lang/Object;[Ljava/lang/Object;[[[Ljava/lang/Object;IJ)V",
    );
    assert_eq!(Descriptor::OpenParenthesis, d.next());
    assert_eq!(rc("I", 4), d.next());
    assert_eq!(sym("java/lang/String"), d.next());
    assert_eq!(sym("java/lang/Object"), d.next());
    assert_eq!(sym("[Ljava/lang/Object;"), d.next());
    assert_eq!(sym("[[[Ljava/lang/Object;"), d.next());
    assert_eq!(rc("I", 4), d.next());
    assert_eq!(rc("J", 8), d.next());
    assert_eq!(Descriptor::CloseParenthesis, d.next());
    assert_eq!(rc("V", 0), d.next());
    assert_eq!(Descriptor::End, d.next());
}

#[test]
fn invalid_descriptors() {
    assert_eq!(DescriptorParser::from_bytes(b"Ljava/lang").next(), Descriptor::InvalidDescriptor);
    assert_eq!(DescriptorParser::from_bytes(b"[V").next(), Descriptor::InvalidDescriptor);
    assert_eq!(DescriptorParser::from_bytes(b"Q").next(), Descriptor::InvalidDescriptor);
    assert!(rsvm::descriptor::parse_method_descriptor(b"(I").is_none());
    assert!(rsvm::descriptor::parse_method_descriptor(b"I)V").is_none());
    assert!(rsvm::descriptor::parse_method_descriptor(b"(V)V").is_none());
    assert!(rsvm::descriptor::parse_method_descriptor(b"()VV").is_none());
}

#[test]
fn field_descriptor_round_trip() {
    for s in ["I", "J", "Ljava/lang/String;", "[I", "[[Ljava/lang/Object;", "Z"] {
        let mut d = DescriptorParser::from_bytes(s.as_bytes());
        let t = d.next();
        assert_eq!(t.to_bytes(), s.as_bytes().to_vec());
        assert_eq!(d.next(), Descriptor::End);
    }
}

#[test]
fn method_descriptor_round_trip() {
    let s = b"(I[JLjava/lang/String;)Ljava/lang/Object;";
    let m = rsvm::descriptor::parse_method_descriptor(s).unwrap();
    assert_eq!(m.params.len(), 3);
    let mut out = vec![b'('];
    for p in &m.params {
        out.extend(p.to_bytes());
    }
    out.push(b')');
    out.extend(m.ret.to_bytes());
    assert_eq!(out, s.to_vec());
    assert_eq!(m.to_bytes(), s.to_vec());
    let v = rsvm::descriptor::parse_method_descriptor(b"()V").unwrap();
    assert_eq!(v.ret, rc("V", 0));
    assert!(v.params.is_empty());
}

#[test]
fn whole_primitive_array_descriptor_is_resolved() {
    assert_eq!(DescriptorParser::from_bytes(b"[I").next(), rc("[I", 8));
    assert_eq!(DescriptorParser::from_bytes(b"[[I").next(), sym("[[I"));
    let mut d = DescriptorParser::from_bytes(b"I[I");
    assert_eq!(d.next(), rc("I", 4));
    assert_eq!(d.next(), sym("[I"));
}
