//! The class-file parser: from the bytes of a class file to the parsed
//! class (constant pool, fields with their layout, methods with their code
//! and exception tables). Every `Utf8` constant is interned as a symbol.
use vstd::prelude::*;
use crate::reader::{OwnedBytesClassReader, be16, be32};
use crate::registry::ClassLoadErr;
use crate::symbol::SymbolTable;
use crate::constant_pool::{ConstantPool, TAG_UTF8, TAG_INTEGER, TAG_FLOAT, TAG_LONG, TAG_DOUBLE, TAG_CLASS, TAG_STRING, TAG_FIELDREF, TAG_METHODREF, TAG_INTERFACE_METHODREF, TAG_NAME_AND_TYPE, TAG_METHOD_HANDLE, TAG_METHOD_TYPE, TAG_INVOKE_DYNAMIC};
use crate::field::Field;
use crate::method::{Method, ExceptionTable};
use crate::class::FieldLayout;
use crate::descriptor::{Descriptor, DescriptorParser};
use crate::hash_table::MAX_CAPACITY;

verus! {

pub const CLASS_FILE_MAGIC: u32 = 0xCAFEBABE;

/// Deepest nesting of annotation values the parser follows.
pub const MAX_ANNOTATION_DEPTH: u32 = 64;

/// Whether class files of this major version are accepted.
pub fn major_version_is_support(major_version: u16) -> (r: bool)
    ensures
        r == (45 <= major_version <= 57),
{
    45 <= major_version && major_version <= 57
}

/// Symbols of the attribute names the parser acts on.
pub struct AttrNames {
    pub code: usize,
    pub constant_value: usize,
    pub signature: usize,
    pub visible_annotations: usize,
    pub invisible_annotations: usize,
    pub inner_classes: usize,
    pub enclosing_method: usize,
    pub source_file: usize,
    pub bootstrap_methods: usize,
    pub synthetic: usize,
    pub deprecated: usize,
    pub source_debug_extension: usize,
    pub clinit: usize,
}

/// Interns `s`, failing when the table is full.
pub fn intern(symbols: &mut SymbolTable, s: &[u8]) -> (r: Result<usize, ClassLoadErr>)
    requires
        old(symbols).wf(),
    ensures
        final(symbols).wf(),
        final(symbols)@.len() >= old(symbols)@.len(),
        final(symbols)@.len() <= old(symbols)@.len() + 1,
        forall|j: int| 0 <= j < old(symbols)@.len() ==> #[trigger] final(symbols)@[j] == old(symbols)@[j],
        old(symbols)@.len() < MAX_CAPACITY / 16 ==> r is Ok,
        r matches Ok(i) ==> i < final(symbols)@.len() && final(symbols)@[i as int] == s@,
{
    proof {
        symbols.lemma_distinct();
        crate::symbol::lemma_intern_spec(symbols@, s@);
    }
    if symbols.len() >= MAX_CAPACITY / 16 {
        return Err(ClassLoadErr::InvalidFormat);
    }
    let i = symbols.get_or_insert(s);
    Ok(i)
}

fn intern_str(symbols: &mut SymbolTable, s: Vec<u8>) -> (r: Result<usize, ClassLoadErr>)
    requires
        old(symbols).wf(),
    ensures
        final(symbols).wf(),
        final(symbols)@.len() >= old(symbols)@.len(),
        final(symbols)@.len() <= old(symbols)@.len() + 1,
        r matches Ok(i) ==> i < final(symbols)@.len(),
{
    intern(symbols, s.as_slice())
}

impl AttrNames {
    pub fn new(symbols: &mut SymbolTable) -> (r: Result<AttrNames, ClassLoadErr>)
        requires
            old(symbols).wf(),
        ensures
            final(symbols).wf(),
            final(symbols)@.len() <= old(symbols)@.len() + 13,
    {
        let code = intern_str(symbols, vec![67u8, 111, 100, 101])?;
        let constant_value = intern_str(symbols, vec![67u8, 111, 110, 115, 116, 97, 110, 116, 86, 97, 108, 117, 101])?;
        let signature = intern_str(symbols, vec![83u8, 105, 103, 110, 97, 116, 117, 114, 101])?;
        let visible_annotations = intern_str(symbols, vec![82u8, 117, 110, 116, 105, 109, 101, 86, 105, 115, 105, 98, 108, 101, 65, 110, 110, 111, 116, 97, 116, 105, 111, 110, 115])?;
        let invisible_annotations = intern_str(symbols, vec![82u8, 117, 110, 116, 105, 109, 101, 73, 110, 118, 105, 115, 105, 98, 108, 101, 65, 110, 110, 111, 116, 97, 116, 105, 111, 110, 115])?;
        let inner_classes = intern_str(symbols, vec![73u8, 110, 110, 101, 114, 67, 108, 97, 115, 115, 101, 115])?;
        let enclosing_method = intern_str(symbols, vec![69u8, 110, 99, 108, 111, 115, 105, 110, 103, 77, 101, 116, 104, 111, 100])?;
        let source_file = intern_str(symbols, vec![83u8, 111, 117, 114, 99, 101, 70, 105, 108, 101])?;
        let bootstrap_methods = intern_str(symbols, vec![66u8, 111, 111, 116, 115, 116, 114, 97, 112, 77, 101, 116, 104, 111, 100, 115])?;
        let synthetic = intern_str(symbols, vec![83u8, 121, 110, 116, 104, 101, 116, 105, 99])?;
        let deprecated = intern_str(symbols, vec![68u8, 101, 112, 114, 101, 99, 97, 116, 101, 100])?;
        let source_debug_extension = intern_str(symbols, vec![83u8, 111, 117, 114, 99, 101, 68, 101, 98, 117, 103, 69, 120, 116, 101, 110, 115, 105, 111, 110])?;
        let clinit = intern_str(symbols, vec![60u8, 99, 108, 105, 110, 105, 116, 62])?;
        Ok(AttrNames {
            code,
            constant_value,
            signature,
            visible_annotations,
            invisible_annotations,
            inner_classes,
            enclosing_method,
            source_file,
            bootstrap_methods,
            synthetic,
            deprecated,
            source_debug_extension,
            clinit,
        })
    }
}

/// What parsing a class file yields. Class names are symbols: the
/// superclass and interfaces still have to be found in the registry.
pub struct ParsedClass {
    pub minor_version: u16,
    pub major_version: u16,
    pub cp: ConstantPool,
    pub access_flags: u16,
    pub this_name: usize,
    pub super_name: Option<usize>,
    pub interfaces: Vec<usize>,
    pub fields: Vec<Field>,
    pub static_size: u16,
    pub inst_size: u16,
    pub methods: Vec<Method>,
    pub init_method: Option<usize>,
}

/// Bytes an entry with tag `t` at `o` takes, or -1 for an unknown tag or
/// one whose length cannot be read.
pub open spec fn entry_size(s: Seq<u8>, o: int, t: u8) -> int {
    if t == TAG_UTF8 {
        if o + 3 <= s.len() {
            3 + be16(s, o + 1)
        } else {
            -1
        }
    } else if t == TAG_INTEGER || t == TAG_FLOAT {
        5
    } else if t == TAG_LONG || t == TAG_DOUBLE {
        9
    } else if t == TAG_CLASS || t == TAG_STRING || t == TAG_METHOD_TYPE {
        3
    } else if t == TAG_FIELDREF || t == TAG_METHODREF || t == TAG_INTERFACE_METHODREF || t == TAG_NAME_AND_TYPE
        || t == TAG_INVOKE_DYNAMIC {
        5
    } else if t == TAG_METHOD_HANDLE {
        4
    } else {
        -1
    }
}

/// Where the constant-pool entries from `index` (below `count`) that
/// start at `o` end, or `None` when they are malformed or run past the
/// bytes. `Long` and `Double` take two indices.
pub open spec fn pool_end(s: Seq<u8>, o: int, index: int, count: int) -> Option<int>
    decreases count - index,
{
    if index >= count {
        Some(o)
    } else if o < 0 || o + 1 > s.len() {
        None
    } else {
        let t = s[o];
        let size = entry_size(s, o, t);
        if size < 0 || o + size > s.len() {
            None
        } else {
            let ni = if (t == TAG_LONG || t == TAG_DOUBLE) && index + 1 < count {
                index + 2
            } else {
                index + 1
            };
            pool_end(s, o + size, ni, count)
        }
    }
}

/// Where entry `i` starts, walking the entries from `index` at offset `o`
/// (`None` when `i` is the second index of a `Long`/`Double`, or the walk
/// fails before reaching it).
pub open spec fn entry_offset(s: Seq<u8>, o: int, index: int, count: int, i: int) -> Option<int>
    decreases count - index,
{
    if index >= count || index > i || o < 0 || o + 1 > s.len() {
        None
    } else if index == i {
        Some(o)
    } else {
        let t = s[o];
        let size = entry_size(s, o, t);
        if size < 0 || o + size > s.len() {
            None
        } else {
            let ni = if (t == TAG_LONG || t == TAG_DOUBLE) && index + 1 < count {
                index + 2
            } else {
                index + 1
            };
            entry_offset(s, o + size, ni, count, i)
        }
    }
}

/// Constant-pool entry `i` holds what the bytes at `off` say: its tag, and
/// a `Utf8`'s symbol (whose content, in `syms`, is the entry's bytes), a
/// number's big-endian bits, or its indices packed `(hi << 16) | lo`.
pub open spec fn entry_ok(tags: Seq<u8>, values: Seq<u64>, syms: Seq<Seq<u8>>, s: Seq<u8>, off: int, i: int) -> bool {
    let t = s[off];
    &&& 0 <= i < tags.len() && i < values.len()
    &&& tags[i] == t
    &&& (t == TAG_UTF8 ==> values[i] < syms.len() && syms[values[i] as int] == s.subrange(off + 3, off + 3 + be16(s, off + 1)))
    &&& (t == TAG_INTEGER || t == TAG_FLOAT ==> values[i] == be32(s, off + 1))
    &&& (t == TAG_LONG || t == TAG_DOUBLE ==> values[i] == be32(s, off + 1) * 0x1_0000_0000 + be32(s, off + 5))
    &&& (t == TAG_CLASS || t == TAG_STRING || t == TAG_METHOD_TYPE ==> values[i] == be16(s, off + 1))
    &&& (t == TAG_FIELDREF || t == TAG_METHODREF || t == TAG_INTERFACE_METHODREF || t == TAG_NAME_AND_TYPE || t
        == TAG_INVOKE_DYNAMIC ==> values[i] == be16(s, off + 1) * 65536 + be16(s, off + 3))
    &&& (t == TAG_METHOD_HANDLE ==> values[i] == s[off + 1] * 65536 + be16(s, off + 2))
}

/// Where an attribute table of `n` attributes that starts at `o` ends.
pub open spec fn attrs_end(s: Seq<u8>, o: int, n: int) -> Option<int>
    decreases n,
{
    if n <= 0 {
        Some(o)
    } else if o < 0 || o + 6 > s.len() || o + 6 + be32(s, o + 2) > s.len() {
        None
    } else {
        attrs_end(s, o + 6 + be32(s, o + 2), n - 1)
    }
}

/// A class attribute name the loader knows.
pub open spec fn known_class_attr(names: AttrNames, n: usize) -> bool {
    n == names.inner_classes || n == names.enclosing_method || n == names.signature || n == names.source_file
        || n == names.source_debug_extension || n == names.deprecated || n == names.visible_annotations
        || n == names.invisible_annotations || n == names.bootstrap_methods || n == names.synthetic
}

/// Every attribute of the table of `n` at `o` is named by a `Utf8`
/// constant that is a known class attribute name.
pub open spec fn attrs_known(s: Seq<u8>, o: int, n: int, cp: ConstantPool, names: AttrNames) -> bool
    decreases n,
{
    if n <= 0 {
        true
    } else if o < 0 || o + 6 > s.len() || o + 6 + be32(s, o + 2) > s.len() {
        false
    } else {
        cp.spec_utf8(be16(s, o)) is Some && known_class_attr(names, cp.spec_utf8(be16(s, o)).unwrap()) && attrs_known(
            s,
            o + 6 + be32(s, o + 2),
            n - 1,
            cp,
            names,
        )
    }
}

/// Fields laid out in their regions: every field's bytes lie inside its
/// region and no two fields of one region overlap.
pub open spec fn fields_laid_out(fs: Seq<Field>, static_size: int, inst_size: int) -> bool {
    &&& forall|i: int| 0 <= i < fs.len() ==> (#[trigger] fs[i]).size >= 1
    &&& forall|i: int|
        0 <= i < fs.len() ==> (#[trigger] fs[i]).layout_offset + fs[i].size <= (if fs[i].spec_is_static() {
            static_size
        } else {
            inst_size
        })
    &&& forall|i: int, j: int|
        0 <= i < j < fs.len() && (#[trigger] fs[i]).spec_is_static() == (#[trigger] fs[j]).spec_is_static() ==> fs[i].layout_offset
            + fs[i].size <= fs[j].layout_offset || fs[j].layout_offset + fs[j].size <= fs[i].layout_offset
}

/// Field layout is injective: in a laid-out class no two fields of the same
/// region (static or instance) share an offset, and every field lies inside
/// its region.
pub proof fn lemma_field_layout_injective(fs: Seq<Field>, static_size: int, inst_size: int)
    requires
        fields_laid_out(fs, static_size, inst_size),
    ensures
        forall|i: int, j: int|
            0 <= i < j < fs.len() && (#[trigger] fs[i]).spec_is_static() == (#[trigger] fs[j]).spec_is_static()
                ==> fs[i].layout_offset != fs[j].layout_offset,
        forall|i: int|
            0 <= i < fs.len() ==> (#[trigger] fs[i]).layout_offset + fs[i].size <= (if fs[i].spec_is_static() {
                static_size
            } else {
                inst_size
            }),
{
}

pub struct ClassParser {
    pub reader: OwnedBytesClassReader,
    pub this_class_name: Option<usize>,
}

impl ClassParser {
    pub fn new(bytes: Vec<u8>) -> (r: ClassParser)
        ensures
            r.reader.wf(),
            r.reader.class_bytes == bytes,
            r.reader.offset == 0,
    {
        ClassParser { reader: OwnedBytesClassReader::new(bytes), this_class_name: None }
    }

    /// Parses the whole class file.
    pub fn parse_class(&mut self, symbols: &mut SymbolTable) -> (r: Result<ParsedClass, ClassLoadErr>)
        requires
            old(self).reader.wf(),
            old(self).reader.offset == 0,
            old(symbols).wf(),
            old(symbols)@.len() + 65600 < MAX_CAPACITY / 16,
        ensures
            final(symbols).wf(),
            !(old(self).reader.class_bytes@.len() >= 8 && be32(old(self).reader.class_bytes@, 0) == CLASS_FILE_MAGIC
                && 45 <= be16(old(self).reader.class_bytes@, 6) <= 57) ==> r is Err,
            old(self).reader.class_bytes@.len() < 4 ==> r == Err::<ParsedClass, ClassLoadErr>(ClassLoadErr::Truncated),
            old(self).reader.class_bytes@.len() >= 4 && be32(old(self).reader.class_bytes@, 0) != CLASS_FILE_MAGIC ==> r
                == Err::<ParsedClass, ClassLoadErr>(ClassLoadErr::InvalidMagic),
            old(self).reader.class_bytes@.len() >= 8 && be32(old(self).reader.class_bytes@, 0) == CLASS_FILE_MAGIC && !(45
                <= be16(old(self).reader.class_bytes@, 6) <= 57) ==> r == Err::<ParsedClass, ClassLoadErr>(
                ClassLoadErr::UnsupportedVersion,
            ),
            r matches Ok(pc) ==> {
                let s = old(self).reader.class_bytes@;
                let e = pool_end(s, 10, 1, be16(s, 8)).unwrap();
                &&& s.len() >= 10 && pool_end(s, 10, 1, be16(s, 8)) is Some && e + 8 <= s.len()
                &&& pc.access_flags == be16(s, e)
                &&& pc.cp.spec_class_name(be16(s, e + 2)) == Some(pc.this_name)
                &&& (be16(s, e + 4) == 0 ==> pc.super_name.is_none())
                &&& (be16(s, e + 4) != 0 ==> pc.cp.spec_class_name(be16(s, e + 4)) == Some(pc.super_name.unwrap()) && pc.super_name.is_some())
                &&& pc.interfaces@.len() == be16(s, e + 6)
                &&& forall|k: int| 0 <= k < pc.interfaces@.len() ==> pc.cp.spec_class_name(be16(s, e + 8 + 2 * k)) == Some(#[trigger] pc.interfaces@[k])
                &&& pc.minor_version == be16(s, 4)
                &&& (pc.init_method matches Some(i) ==> i < pc.methods@.len())
                &&& pc.cp.wf()
                &&& 45 <= pc.major_version <= 57
                &&& be32(old(self).reader.class_bytes@, 0) == CLASS_FILE_MAGIC
                &&& pc.major_version == be16(old(self).reader.class_bytes@, 6)
                &&& fields_laid_out(pc.fields@, pc.static_size as int, pc.inst_size as int)
                &&& forall|k: int| 0 <= k < pc.methods@.len() ==> (#[trigger] pc.methods@[k]).code@.len() < 65536
            },
    {
        let magic = self.reader.read_ubyte4()?;
        if magic != CLASS_FILE_MAGIC {
            return Err(ClassLoadErr::InvalidMagic);
        }
        let minor_version = self.reader.read_ubyte2()?;
        let major_version = self.reader.read_ubyte2()?;
        if !major_version_is_support(major_version) {
            return Err(ClassLoadErr::UnsupportedVersion);
        }
        let names = AttrNames::new(symbols)?;
        let cp = self.parse_constant_pool(symbols)?;
        let access_flags = self.reader.read_ubyte2()?;
        let this_class = self.reader.read_ubyte2()?;
        let this_name = match cp.get_class_name(this_class) {
            Some(n) => n,
            None => {
                return Err(ClassLoadErr::BadConstantIndex);
            },
        };
        self.this_class_name = Some(this_name);
        let super_index = self.reader.read_ubyte2()?;
        let super_name = if super_index != 0 {
            match cp.get_class_name(super_index) {
                Some(n) => Some(n),
                None => {
                    return Err(ClassLoadErr::BadConstantIndex);
                },
            }
        } else {
            None
        };
        let interfaces = self.parse_interfaces(&cp)?;
        let (fields, static_size, inst_size) = self.parse_fields(&cp, symbols, &names)?;
        let (methods, init_method) = self.parse_methods(&cp, symbols, &names)?;
        self.parse_class_attrs(&cp, &names)?;
        Ok(ParsedClass {
            minor_version,
            major_version,
            cp,
            access_flags,
            this_name,
            super_name,
            interfaces,
            fields,
            static_size,
            inst_size,
            methods,
            init_method,
        })
    }

    /// One constant-pool entry, stored at `index`; the index of the next
    /// entry (`Long` and `Double` take two).
    #[verifier::rlimit(100)]
    #[verifier::spinoff_prover]
    fn parse_entry(&mut self, symbols: &mut SymbolTable, cp: &mut ConstantPool, index: u16, count: u16) -> (r: Result<u16, ClassLoadErr>)
        requires
            old(self).reader.wf(),
            old(symbols).wf(),
            old(symbols)@.len() < MAX_CAPACITY / 16,
            old(cp).wf(),
            old(cp).tags@.len() == count,
            1 <= index < count,
        ensures
            final(self).reader.wf(),
            final(self).reader.class_bytes == old(self).reader.class_bytes,
            final(symbols).wf(),
            final(symbols)@.len() <= old(symbols)@.len() + 1,
            final(symbols)@.len() >= old(symbols)@.len(),
            forall|j: int| 0 <= j < old(symbols)@.len() ==> #[trigger] final(symbols)@[j] == old(symbols)@[j],
            final(cp).wf(),
            final(cp).tags@.len() == count,
            forall|j: int| 0 <= j < count && j != index ==> #[trigger] final(cp).tags@[j] == old(cp).tags@[j] && final(cp).values@[j] == old(cp).values@[j],
            ({
                let s = old(self).reader.class_bytes@;
                let off = old(self).reader.offset as int;
                let t = s[off];
                let size = entry_size(s, off, t);
                let ni = if (t == TAG_LONG || t == TAG_DOUBLE) && index + 1 < count {
                    index + 2
                } else {
                    index + 1
                };
                &&& r is Ok <==> (off + 1 <= s.len() && size >= 0 && off + size <= s.len())
                &&& r matches Ok(n) ==> n == ni && final(self).reader.offset == off + size && entry_ok(
                    final(cp).tags@,
                    final(cp).values@,
                    final(symbols)@,
                    s,
                    off,
                    index as int,
                )
            }),
    {
        let ghost s = self.reader.class_bytes@;
        let ghost off = self.reader.offset as int;
        proof {
            symbols.lemma_distinct();
        }
        let tag = match self.reader.read_ubyte1() {
            Ok(t) => t,
            Err(e) => {
                return Err(e);
            },
        };
        if tag == TAG_UTF8 {
            let length = match self.reader.read_ubyte2() {
                Ok(l) => l as usize,
                Err(e) => {
                    return Err(e);
                },
            };
            let bytes = match self.reader.peek_nbytes(length) {
                Ok(b) => b,
                Err(e) => {
                    return Err(e);
                },
            };
            proof {
                crate::symbol::lemma_intern_spec(symbols@, bytes@);
            }
            let sym = match intern(symbols, bytes.as_slice()) {
                Ok(y) => y,
                Err(e) => {
                    return Err(e);
                },
            };
            cp.set_utf8(index, sym);
            let sk = self.reader.skip(length);
            assert(sk is Ok);
            Ok(index + 1)
        } else if tag == TAG_INTEGER || tag == TAG_FLOAT {
            let v = match self.reader.read_ubyte4() {
                Ok(v) => v,
                Err(e) => {
                    return Err(e);
                },
            };
            cp.set_value(index, tag, v as u64);
            Ok(index + 1)
        } else if tag == TAG_LONG || tag == TAG_DOUBLE {
            let hi = match self.reader.read_ubyte4() {
                Ok(v) => v,
                Err(e) => {
                    return Err(e);
                },
            };
            let lo = match self.reader.read_ubyte4() {
                Ok(v) => v,
                Err(e) => {
                    return Err(e);
                },
            };
            cp.set_value(index, tag, (hi as u64) * 0x1_0000_0000 + lo as u64);
            if index < count - 1 {
                Ok(index + 2)
            } else {
                Ok(index + 1)
            }
        } else if tag == TAG_CLASS || tag == TAG_STRING || tag == TAG_METHOD_TYPE {
            let v = match self.reader.read_ubyte2() {
                Ok(v) => v,
                Err(e) => {
                    return Err(e);
                },
            };
            cp.set_value(index, tag, v as u64);
            Ok(index + 1)
        } else if tag == TAG_FIELDREF || tag == TAG_METHODREF || tag == TAG_INTERFACE_METHODREF || tag
            == TAG_NAME_AND_TYPE || tag == TAG_INVOKE_DYNAMIC {
            let hi = match self.reader.read_ubyte2() {
                Ok(v) => v,
                Err(e) => {
                    return Err(e);
                },
            };
            let lo = match self.reader.read_ubyte2() {
                Ok(v) => v,
                Err(e) => {
                    return Err(e);
                },
            };
            cp.set_pair(index, tag, hi, lo);
            Ok(index + 1)
        } else if tag == TAG_METHOD_HANDLE {
            let kind = match self.reader.read_ubyte1() {
                Ok(v) => v,
                Err(e) => {
                    return Err(e);
                },
            };
            let r = match self.reader.read_ubyte2() {
                Ok(v) => v,
                Err(e) => {
                    return Err(e);
                },
            };
            cp.set_pair(index, tag, kind as u16, r);
            Ok(index + 1)
        } else {
            Err(ClassLoadErr::BadConstantTag)
        }
    }

    /// The constant pool: indices 1 to `count - 1`; `Long` and `Double`
    /// take two indices. Succeeds exactly on a well-formed pool; then every
    /// entry holds what its bytes say (`entry_ok`).
    #[verifier::rlimit(100)]
    #[verifier::spinoff_prover]
    pub fn parse_constant_pool(&mut self, symbols: &mut SymbolTable) -> (r: Result<ConstantPool, ClassLoadErr>)
        requires
            old(self).reader.wf(),
            old(symbols).wf(),
            old(symbols)@.len() + 65536 < MAX_CAPACITY / 16,
        ensures
            final(self).reader.wf(),
            final(self).reader.class_bytes == old(self).reader.class_bytes,
            final(symbols).wf(),
            final(symbols)@.len() <= old(symbols)@.len() + 65536,
            forall|j: int| 0 <= j < old(symbols)@.len() ==> #[trigger] final(symbols)@[j] == old(symbols)@[j],
            ({
                let s = old(self).reader.class_bytes@;
                let o = old(self).reader.offset as int;
                &&& (o + 2 <= s.len() && pool_end(s, o + 2, 1, be16(s, o)) is Some) <==> r is Ok
                &&& r matches Ok(cp) ==> {
                    &&& cp.wf()
                    &&& cp.tags@.len() == be16(s, o)
                    &&& final(self).reader.offset == pool_end(s, o + 2, 1, be16(s, o)).unwrap()
                    &&& forall|i: int| 1 <= i < be16(s, o) && (#[trigger] entry_offset(s, o + 2, 1, be16(s, o), i)) is Some ==> entry_ok(
                        cp.tags@,
                        cp.values@,
                        final(symbols)@,
                        s,
                        entry_offset(s, o + 2, 1, be16(s, o), i).unwrap(),
                        i,
                    )
                }
            }),
    {
        let ghost s = self.reader.class_bytes@;
        let ghost o = self.reader.offset as int;
        let ghost n0 = symbols@.len();
        let ghost syms0 = symbols@;
        let count = self.reader.read_ubyte2()?;
        let mut cp = ConstantPool::new(count);
        let mut index: u16 = 1;
        while index < count
            invariant
                self.reader.wf(),
                self.reader.class_bytes == old(self).reader.class_bytes,
                s == self.reader.class_bytes@,
                s == old(self).reader.class_bytes@,
                o == old(self).reader.offset,
                n0 == old(symbols)@.len(),
                syms0 == old(symbols)@,
                o + 2 <= s.len(),
                count == be16(s, o),
                symbols.wf(),
                symbols@.len() <= n0 + index,
                symbols@.len() >= n0,
                forall|j: int| 0 <= j < n0 ==> #[trigger] symbols@[j] == syms0[j],
                n0 + 65536 < MAX_CAPACITY / 16,
                cp.wf(),
                cp.tags@.len() == count,
                1 <= index,
                pool_end(s, o + 2, 1, count as int) == pool_end(s, self.reader.offset as int, index as int, count as int),
                forall|i: int| index <= i ==> #[trigger] entry_offset(s, o + 2, 1, count as int, i) == entry_offset(
                    s,
                    self.reader.offset as int,
                    index as int,
                    count as int,
                    i,
                ),
                forall|i: int| 1 <= i < index && (#[trigger] entry_offset(s, o + 2, 1, count as int, i)) is Some ==> entry_ok(
                    cp.tags@,
                    cp.values@,
                    symbols@,
                    s,
                    entry_offset(s, o + 2, 1, count as int, i).unwrap(),
                    i,
                ),
            decreases count - index,
        {
            let ghost cur = self.reader.offset as int;
            let ghost oldcp = cp;
            let ghost oldsyms = symbols@;
            let ni = match self.parse_entry(symbols, &mut cp, index, count) {
                Ok(n) => n,
                Err(e) => {
                    return Err(e);
                },
            };
            proof {
                assert forall|i: int| ni <= i implies #[trigger] entry_offset(s, o + 2, 1, count as int, i) == entry_offset(
                    s,
                    self.reader.offset as int,
                    ni as int,
                    count as int,
                    i,
                ) by {
                    assert(entry_offset(s, cur, index as int, count as int, i) == entry_offset(s, self.reader.offset as int, ni as int, count as int, i));
                }
                assert forall|i: int| 1 <= i < ni && (#[trigger] entry_offset(s, o + 2, 1, count as int, i)) is Some implies entry_ok(
                    cp.tags@,
                    cp.values@,
                    symbols@,
                    s,
                    entry_offset(s, o + 2, 1, count as int, i).unwrap(),
                    i,
                ) by {
                    if i < index {
                        let off = entry_offset(s, o + 2, 1, count as int, i).unwrap();
                        assert(entry_ok(oldcp.tags@, oldcp.values@, oldsyms, s, off, i));
                        assert(cp.tags@[i] == oldcp.tags@[i]);
                        assert(cp.values@[i] == oldcp.values@[i]);
                        if s[off] == TAG_UTF8 {
                            assert(symbols@[oldcp.values@[i] as int] == oldsyms[oldcp.values@[i] as int]);
                        }
                    } else if i == index {
                        assert(entry_offset(s, cur, index as int, count as int, i) == Some(cur));
                    } else {
                        assert(entry_offset(s, cur, index as int, count as int, i) == entry_offset(s, self.reader.offset as int, ni as int, count as int, i));
                    }
                }
            }
            index = ni;
        }
        Ok(cp)
    }

    /// The names of the declared interfaces.
    pub fn parse_interfaces(&mut self, cp: &ConstantPool) -> (r: Result<Vec<usize>, ClassLoadErr>)
        requires
            old(self).reader.wf(),
            cp.wf(),
        ensures
            final(self).reader.wf(),
            final(self).reader.class_bytes == old(self).reader.class_bytes,
            ({
                let s = old(self).reader.class_bytes@;
                let o = old(self).reader.offset as int;
                r matches Ok(v) ==> o + 2 <= s.len() && v@.len() == be16(s, o) && o + 2 + 2 * v@.len() <= s.len()
                    && final(self).reader.offset == o + 2 + 2 * v@.len() && forall|k: int|
                    0 <= k < v@.len() ==> cp.spec_class_name(be16(s, o + 2 + 2 * k)) == Some(#[trigger] v@[k])
            }),
    {
        let ghost s = self.reader.class_bytes@;
        let ghost o = self.reader.offset as int;
        let length = self.reader.read_ubyte2()?;
        let mut r: Vec<usize> = Vec::new();
        let mut k: u16 = 0;
        while k < length
            invariant
                self.reader.wf(),
                self.reader.class_bytes == old(self).reader.class_bytes,
                s == old(self).reader.class_bytes@,
                o == old(self).reader.offset,
                o + 2 <= s.len(),
                length == be16(s, o),
                k <= length,
                r@.len() == k,
                self.reader.offset == o + 2 + 2 * k,
                forall|q: int| 0 <= q < k ==> cp.spec_class_name(be16(s, o + 2 + 2 * q)) == Some(#[trigger] r@[q]),
                cp.wf(),
            decreases length - k,
        {
            let idx = self.reader.read_ubyte2()?;
            match cp.get_class_name(idx) {
                Some(n) => r.push(n),
                None => {
                    return Err(ClassLoadErr::BadConstantIndex);
                },
            }
            k = k + 1;
        }
        Ok(r)
    }

    /// Skips the attributes it does not use and records `ConstantValue`.
    fn parse_field_attrs(&mut self, cp: &ConstantPool, names: &AttrNames, field: &mut Field) -> (r: Result<(), ClassLoadErr>)
        requires
            old(self).reader.wf(),
            cp.wf(),
        ensures
            final(self).reader.wf(),
            final(self).reader.class_bytes == old(self).reader.class_bytes,
            final(field).layout_offset == old(field).layout_offset,
            final(field).access_flags == old(field).access_flags,
            final(field).size == old(field).size,
            final(field).name == old(field).name,
            final(field).descriptor == old(field).descriptor,
    {
        let attrs_count = self.reader.read_ubyte2()?;
        let mut a: u16 = 0;
        while a < attrs_count
            invariant
                self.reader.wf(),
                self.reader.class_bytes == old(self).reader.class_bytes,
                cp.wf(),
                field.layout_offset == old(field).layout_offset,
                field.access_flags == old(field).access_flags,
                field.size == old(field).size,
                field.name == old(field).name,
                field.descriptor == old(field).descriptor,
            decreases attrs_count - a,
        {
            let name_index = self.reader.read_ubyte2()?;
            let attr_length = self.reader.read_ubyte4()?;
            let attr_name = cp.get_utf8(name_index);
            if attr_name == Some(names.constant_value) {
                let cv = self.reader.read_ubyte2()?;
                field.set_constval_index(cv);
            } else if attr_name == Some(names.visible_annotations) || attr_name == Some(names.invisible_annotations) {
                let n = self.reader.read_ubyte2()?;
                let mut q: u16 = 0;
                while q < n
                    invariant
                        self.reader.wf(),
                        self.reader.class_bytes == old(self).reader.class_bytes,
                        field.layout_offset == old(field).layout_offset,
                        field.access_flags == old(field).access_flags,
                        field.size == old(field).size,
                        field.name == old(field).name,
                        field.descriptor == old(field).descriptor,
                    decreases n - q,
                {
                    self.parse_annotation(MAX_ANNOTATION_DEPTH)?;
                    q = q + 1;
                }
            } else {
                self.reader.skip(attr_length as usize)?;
            }
            a = a + 1;
        }
        Ok(())
    }

    /// Fields, each with its offset in the static or the instance region;
    /// returns them with the sizes of the two regions.
    pub fn parse_fields(&mut self, cp: &ConstantPool, symbols: &mut SymbolTable, names: &AttrNames) -> (r: Result<(Vec<Field>, u16, u16), ClassLoadErr>)
        requires
            old(self).reader.wf(),
            cp.wf(),
            old(symbols).wf(),
        ensures
            final(self).reader.wf(),
            final(self).reader.class_bytes == old(self).reader.class_bytes,
            final(symbols).wf(),
            r matches Ok((fs, ss, is)) ==> fields_laid_out(fs@, ss as int, is as int),
            r matches Ok((fs, ss, is)) ==> old(self).reader.offset + 2 <= old(self).reader.class_bytes@.len()
                && fs@.len() == be16(old(self).reader.class_bytes@, old(self).reader.offset as int)
                && forall|i: int| 0 <= i < fs@.len() ==> (exists|n: int| cp.spec_utf8(n) == Some((#[trigger] fs@[i]).name))
                    && exists|d: int| cp.spec_utf8(d) == Some(fs@[i].descriptor),
    {
        let ghost s = self.reader.class_bytes@;
        let ghost o = self.reader.offset as int;
        let count = self.reader.read_ubyte2()?;
        let mut st = FieldLayout::new();
        let mut inst = FieldLayout::new();
        let mut fields: Vec<Field> = Vec::new();
        let mut k: u16 = 0;
        while k < count
            invariant
                self.reader.wf(),
                self.reader.class_bytes == old(self).reader.class_bytes,
                cp.wf(),
                symbols.wf(),
                s == old(self).reader.class_bytes@,
                o == old(self).reader.offset,
                o + 2 <= s.len(),
                count == be16(s, o),
                k <= count,
                fields@.len() == k,
                forall|i: int| 0 <= i < fields@.len() ==> (exists|n: int| cp.spec_utf8(n) == Some((#[trigger] fields@[i]).name))
                    && exists|d: int| cp.spec_utf8(d) == Some(fields@[i].descriptor),
                st.wf(),
                inst.wf(),
                forall|i: int| 0 <= i < fields@.len() ==> (#[trigger] fields@[i]).size >= 1,
                forall|i: int|
                    0 <= i < fields@.len() ==> (#[trigger] fields@[i]).layout_offset + fields@[i].size <= (if fields@[i].spec_is_static() {
                        st.offset
                    } else {
                        inst.offset
                    }),
                forall|i: int, j: int|
                    0 <= i < j < fields@.len() && (#[trigger] fields@[i]).spec_is_static() == (#[trigger] fields@[j]).spec_is_static() ==> fields@[i].layout_offset
                        + fields@[i].size <= fields@[j].layout_offset || fields@[j].layout_offset + fields@[j].size <= fields@[i].layout_offset,
            decreases count - k,
        {
            let access_flags = self.reader.read_ubyte2()?;
            let name_index = self.reader.read_ubyte2()?;
            let desc_index = self.reader.read_ubyte2()?;
            let (name, desc) = match (cp.get_utf8(name_index), cp.get_utf8(desc_index)) {
                (Some(n), Some(d)) => (n, d),
                _ => {
                    return Err(ClassLoadErr::BadConstantIndex);
                },
            };
            if desc >= symbols.len() {
                return Err(ClassLoadErr::InvalidFormat);
            }
            let mut dp = DescriptorParser::from_bytes(symbols.as_bytes(desc));
            let size: u16 = match dp.next() {
                Descriptor::ResolvedClass(_, s) => {
                    if s == 1 || s == 2 || s == 4 || s == 8 {
                        s as u16
                    } else {
                        return Err(ClassLoadErr::MalformedDescriptor);
                    }
                },
                Descriptor::Symbol(_, _) => 8,
                _ => {
                    return Err(ClassLoadErr::MalformedDescriptor);
                },
            };
            let is_static = access_flags & 0x0008 != 0;
            let offset = if is_static {
                if st.aligned_offset > u16::MAX - 16 {
                    return Err(ClassLoadErr::InvalidFormat);
                }
                st.obtain_field_offset(size)
            } else {
                if inst.aligned_offset > u16::MAX - 16 {
                    return Err(ClassLoadErr::InvalidFormat);
                }
                inst.obtain_field_offset(size)
            };
            let mut field = Field {
                access_flags,
                layout_offset: offset,
                name,
                field_class: None,
                descriptor: desc,
                constval_index: 0,
                size,
            };
            self.parse_field_attrs(cp, names, &mut field)?;
            proof {
                assert(cp.spec_utf8(name_index as int) == Some(field.name));
                assert(cp.spec_utf8(desc_index as int) == Some(field.descriptor));
            }
            fields.push(field);
            k = k + 1;
        }
        let ss = st.get_aligned_size();
        let is = inst.get_aligned_size();
        Ok((fields, ss, is))
    }

    /// One annotation: its type and its element-value pairs.
    pub fn parse_annotation(&mut self, depth: u32) -> (r: Result<(), ClassLoadErr>)
        requires
            old(self).reader.wf(),
        ensures
            final(self).reader.wf(),
            final(self).reader.class_bytes == old(self).reader.class_bytes,
        decreases depth, 0u32,
    {
        if depth == 0 {
            return Err(ClassLoadErr::InvalidFormat);
        }
        let _type_index = self.reader.read_ubyte2()?;
        let pairs = self.reader.read_ubyte2()?;
        let mut k: u16 = 0;
        while k < pairs
            invariant
                self.reader.wf(),
                self.reader.class_bytes == old(self).reader.class_bytes,
                depth > 0,
            decreases pairs - k,
        {
            let _name_index = self.reader.read_ubyte2()?;
            self.parse_annotation_element(depth - 1)?;
            k = k + 1;
        }
        Ok(())
    }

    /// One element value of an annotation.
    pub fn parse_annotation_element(&mut self, depth: u32) -> (r: Result<(), ClassLoadErr>)
        requires
            old(self).reader.wf(),
        ensures
            final(self).reader.wf(),
            final(self).reader.class_bytes == old(self).reader.class_bytes,
        decreases depth, 1u32,
    {
        let tag = self.reader.read_ubyte1()?;
        if tag == 66u8 || tag == 67 || tag == 68 || tag == 70 || tag == 73 || tag == 74 || tag == 83 || tag == 90
            || tag == 115 || tag == 99 {
            let _v = self.reader.read_ubyte2()?;
        } else if tag == 101 {
            let _t = self.reader.read_ubyte2()?;
            let _c = self.reader.read_ubyte2()?;
        } else if tag == 64 {
            self.parse_annotation(depth)?;
        } else if tag == 91 {
            if depth == 0 {
                return Err(ClassLoadErr::InvalidFormat);
            }
            let n = self.reader.read_ubyte2()?;
            let mut k: u16 = 0;
            while k < n
                invariant
                    self.reader.wf(),
                    self.reader.class_bytes == old(self).reader.class_bytes,
                    depth > 0,
                decreases n - k,
            {
                self.parse_annotation_element(depth - 1)?;
                k = k + 1;
            }
        } else {
            return Err(ClassLoadErr::InvalidFormat);
        }
        Ok(())
    }

    /// The bytes of a `Code` attribute's code (fewer than 65536).
    pub fn parse_code(&mut self) -> (r: Result<Vec<u8>, ClassLoadErr>)
        requires
            old(self).reader.wf(),
        ensures
            final(self).reader.wf(),
            final(self).reader.class_bytes == old(self).reader.class_bytes,
            r matches Ok(c) ==> c@.len() < 65536,
    {
        let len = self.reader.read_ubyte4()?;
        if len >= 65536 {
            return Err(ClassLoadErr::InvalidFormat);
        }
        let code = self.reader.peek_nbytes(len as usize)?;
        self.reader.skip(len as usize)?;
        Ok(code)
    }

    /// The exception table of code of `code_length` bytes: every entry
    /// covers a non-empty range inside the code, and its handler starts in
    /// the code.
    pub fn parse_ex_tab(&mut self, code_length: usize) -> (r: Result<Vec<ExceptionTable>, ClassLoadErr>)
        requires
            old(self).reader.wf(),
        ensures
            final(self).reader.wf(),
            final(self).reader.class_bytes == old(self).reader.class_bytes,
            r matches Ok(t) ==> forall|i: int|
                0 <= i < t@.len() ==> (#[trigger] t@[i]).start_pc < t@[i].end_pc && t@[i].end_pc <= code_length && t@[i].handler_pc < code_length,
    {
        let n = self.reader.read_ubyte2()?;
        let mut t: Vec<ExceptionTable> = Vec::new();
        let mut k: u16 = 0;
        while k < n
            invariant
                self.reader.wf(),
                self.reader.class_bytes == old(self).reader.class_bytes,
                forall|i: int|
                    0 <= i < t@.len() ==> (#[trigger] t@[i]).start_pc < t@[i].end_pc && t@[i].end_pc <= code_length && t@[i].handler_pc < code_length,
            decreases n - k,
        {
            let start_pc = self.reader.read_ubyte2()?;
            let end_pc = self.reader.read_ubyte2()?;
            let handler_pc = self.reader.read_ubyte2()?;
            let catch_type = self.reader.read_ubyte2()?;
            if start_pc >= end_pc || end_pc as usize > code_length || handler_pc as usize >= code_length {
                return Err(ClassLoadErr::InvalidFormat);
            }
            t.push(ExceptionTable::new(start_pc, end_pc, handler_pc, catch_type));
            k = k + 1;
        }
        Ok(t)
    }

    /// Methods with their code; also the index of `<clinit>` if present.
    pub fn parse_methods(&mut self, cp: &ConstantPool, symbols: &mut SymbolTable, names: &AttrNames) -> (r: Result<(Vec<Method>, Option<usize>), ClassLoadErr>)
        requires
            old(self).reader.wf(),
            cp.wf(),
            old(symbols).wf(),
        ensures
            final(self).reader.wf(),
            final(self).reader.class_bytes == old(self).reader.class_bytes,
            final(symbols).wf(),
            r matches Ok((ms, init)) ==> {
                &&& forall|k: int| 0 <= k < ms@.len() ==> (#[trigger] ms@[k]).code@.len() < 65536
                &&& (init matches Some(i) ==> i < ms@.len() && ms@[i as int].name == names.clinit)
                &&& (init is None ==> forall|k: int| 0 <= k < ms@.len() ==> (#[trigger] ms@[k]).name != names.clinit)
                &&& old(self).reader.offset + 2 <= old(self).reader.class_bytes@.len()
                &&& ms@.len() == be16(old(self).reader.class_bytes@, old(self).reader.offset as int)
                &&& forall|k: int| 0 <= k < ms@.len() ==> (exists|n: int| cp.spec_utf8(n) == Some((#[trigger] ms@[k]).name))
                    && exists|d: int| cp.spec_utf8(d) == Some(ms@[k].descriptor)
            },
    {
        let ghost s = self.reader.class_bytes@;
        let ghost o = self.reader.offset as int;
        let count = self.reader.read_ubyte2()?;
        let mut methods: Vec<Method> = Vec::new();
        let mut init: Option<usize> = None;
        let mut k: u16 = 0;
        while k < count
            invariant
                self.reader.wf(),
                self.reader.class_bytes == old(self).reader.class_bytes,
                cp.wf(),
                symbols.wf(),
                methods@.len() == k,
                k <= count,
                s == old(self).reader.class_bytes@,
                o == old(self).reader.offset,
                o + 2 <= s.len(),
                count == be16(s, o),
                forall|q: int| 0 <= q < methods@.len() ==> (#[trigger] methods@[q]).code@.len() < 65536,
                init matches Some(i) ==> i < methods@.len() && methods@[i as int].name == names.clinit,
                init is None ==> forall|q: int| 0 <= q < methods@.len() ==> (#[trigger] methods@[q]).name != names.clinit,
                forall|q: int| 0 <= q < methods@.len() ==> (exists|n: int| cp.spec_utf8(n) == Some((#[trigger] methods@[q]).name))
                    && exists|d: int| cp.spec_utf8(d) == Some(methods@[q].descriptor),
            decreases count - k,
        {
            let access_flags = self.reader.read_ubyte2()?;
            let name_index = self.reader.read_ubyte2()?;
            let desc_index = self.reader.read_ubyte2()?;
            let (name, desc) = match (cp.get_utf8(name_index), cp.get_utf8(desc_index)) {
                (Some(n), Some(d)) => (n, d),
                _ => {
                    return Err(ClassLoadErr::BadConstantIndex);
                },
            };
            let mut max_stack: u16 = 0;
            let mut max_locals: u16 = 0;
            let mut code: Vec<u8> = Vec::new();
            let mut ex_tab: Vec<ExceptionTable> = Vec::new();
            let attrs = self.reader.read_ubyte2()?;
            let mut a: u16 = 0;
            while a < attrs
                invariant
                    self.reader.wf(),
                    self.reader.class_bytes == old(self).reader.class_bytes,
                    cp.wf(),
                    symbols.wf(),
                    code@.len() < 65536,
                decreases attrs - a,
            {
                let attr_name_index = self.reader.read_ubyte2()?;
                let attr_length = self.reader.read_ubyte4()?;
                if cp.get_utf8(attr_name_index) == Some(names.code) {
                    max_stack = self.reader.read_ubyte2()?;
                    max_locals = self.reader.read_ubyte2()?;
                    code = self.parse_code()?;
                    ex_tab = self.parse_ex_tab(code.len())?;
                    let code_attrs = self.reader.read_ubyte2()?;
                    let mut q: u16 = 0;
                    while q < code_attrs
                        invariant
                            self.reader.wf(),
                            self.reader.class_bytes == old(self).reader.class_bytes,
                            symbols.wf(),
                        decreases code_attrs - q,
                    {
                        let _n = self.reader.read_ubyte2()?;
                        let len = self.reader.read_ubyte4()?;
                        self.reader.skip(len as usize)?;
                        q = q + 1;
                    }
                } else {
                    self.reader.skip(attr_length as usize)?;
                }
                a = a + 1;
            }
            if desc >= symbols.len() || symbols.as_bytes(desc).len() >= usize::MAX / 2 {
                return Err(ClassLoadErr::InvalidFormat);
            }
            let m = match Method::new(0, access_flags, name, desc, symbols.as_bytes(desc), max_stack, max_locals, code, ex_tab) {
                Some(m) => m,
                None => {
                    return Err(ClassLoadErr::MalformedDescriptor);
                },
            };
            if name == names.clinit {
                init = Some(methods.len());
            }
            proof {
                assert(cp.spec_utf8(name_index as int) == Some(m.name));
                assert(cp.spec_utf8(desc_index as int) == Some(m.descriptor));
            }
            methods.push(m);
            k = k + 1;
        }
        Ok((methods, init))
    }

    /// Class attributes: known ones are consumed, an unknown one is refused.
    pub fn parse_class_attrs(&mut self, cp: &ConstantPool, names: &AttrNames) -> (r: Result<(), ClassLoadErr>)
        requires
            old(self).reader.wf(),
            cp.wf(),
        ensures
            final(self).reader.wf(),
            final(self).reader.class_bytes == old(self).reader.class_bytes,
            ({
                let s = old(self).reader.class_bytes@;
                let o = old(self).reader.offset as int;
                &&& !(o + 2 <= s.len() && attrs_end(s, o + 2, be16(s, o)) is Some) ==> r is Err
                &&& r is Ok ==> o + 2 <= s.len() && attrs_end(s, o + 2, be16(s, o)) == Some(final(self).reader.offset as int)
                &&& (o + 2 <= s.len() && attrs_end(s, o + 2, be16(s, o)) is Some && attrs_known(s, o + 2, be16(s, o), *cp, *names)) ==> r is Ok
            }),
    {
        let ghost s = self.reader.class_bytes@;
        let ghost o = self.reader.offset as int;
        let count = self.reader.read_ubyte2()?;
        let mut k: u16 = 0;
        while k < count
            invariant
                self.reader.wf(),
                self.reader.class_bytes == old(self).reader.class_bytes,
                s == old(self).reader.class_bytes@,
                o == old(self).reader.offset,
                o + 2 <= s.len(),
                count == be16(s, o),
                k <= count,
                cp.wf(),
                attrs_end(s, o + 2, count as int) == attrs_end(s, self.reader.offset as int, (count - k) as int),
                attrs_known(s, o + 2, count as int, *cp, *names) == attrs_known(s, self.reader.offset as int, (count - k) as int, *cp, *names),
            decreases count - k,
        {
            let name_index = self.reader.read_ubyte2()?;
            let len = self.reader.read_ubyte4()?;
            let n = match cp.get_utf8(name_index) {
                Some(n) => n,
                None => {
                    return Err(ClassLoadErr::BadConstantIndex);
                },
            };
            if n == names.inner_classes || n == names.enclosing_method || n == names.signature || n == names.source_file
                || n == names.source_debug_extension || n == names.deprecated || n == names.visible_annotations
                || n == names.invisible_annotations || n == names.bootstrap_methods || n == names.synthetic {
                self.reader.skip(len as usize)?;
            } else {
                return Err(ClassLoadErr::UnknownAttribute);
            }
            k = k + 1;
        }
        Ok(())
    }
}

} // verus!
