//! Methods: name and descriptor symbols, access flags, code and exception
//! table. A method belongs to the class whose index is `decl_cls`.
use vstd::prelude::*;
use crate::memory::Address;
use crate::descriptor::{Descriptor, parse_method_descriptor, valid_method_descriptor};

verus! {

/// Access flags of a method, as in the class file.
#[derive(Clone, Copy, Debug, PartialEq, Eq, Structural)]
pub enum MethodAccessFlags {
    AccPublic,
    AccPrivate,
    AccProtected,
    AccStatic,
    AccFinal,
    AccSynchronized,
    AccBridge,
    AccVarArgs,
    AccNative,
    AccAbstract,
    AccStrict,
    AccSynthetic,
}

impl MethodAccessFlags {
    pub open spec fn spec_mask(self) -> u16 {
        match self {
            MethodAccessFlags::AccPublic => 0x0001,
            MethodAccessFlags::AccPrivate => 0x0002,
            MethodAccessFlags::AccProtected => 0x0004,
            MethodAccessFlags::AccStatic => 0x0008,
            MethodAccessFlags::AccFinal => 0x0010,
            MethodAccessFlags::AccSynchronized => 0x0020,
            MethodAccessFlags::AccBridge => 0x0040,
            MethodAccessFlags::AccVarArgs => 0x0080,
            MethodAccessFlags::AccNative => 0x0100,
            MethodAccessFlags::AccAbstract => 0x0400,
            MethodAccessFlags::AccStrict => 0x0800,
            MethodAccessFlags::AccSynthetic => 0x1000,
        }
    }

    /// The bit of this flag.
    pub fn mask(self) -> (r: u16)
        ensures
            r == self.spec_mask(),
    {
        match self {
            MethodAccessFlags::AccPublic => 0x0001,
            MethodAccessFlags::AccPrivate => 0x0002,
            MethodAccessFlags::AccProtected => 0x0004,
            MethodAccessFlags::AccStatic => 0x0008,
            MethodAccessFlags::AccFinal => 0x0010,
            MethodAccessFlags::AccSynchronized => 0x0020,
            MethodAccessFlags::AccBridge => 0x0040,
            MethodAccessFlags::AccVarArgs => 0x0080,
            MethodAccessFlags::AccNative => 0x0100,
            MethodAccessFlags::AccAbstract => 0x0400,
            MethodAccessFlags::AccStrict => 0x0800,
            MethodAccessFlags::AccSynthetic => 0x1000,
        }
    }
}

/// One entry of a method's exception table: the handler at `handler_pc`
/// covers `[start_pc, end_pc)` for the class at constant-pool index
/// `catch_type` (0 catches everything).
#[derive(Clone, Copy, Debug, PartialEq, Eq, Structural)]
pub struct ExceptionTable {
    pub start_pc: u16,
    pub end_pc: u16,
    pub handler_pc: u16,
    pub catch_type: u16,
}

impl ExceptionTable {
    pub fn new(start_pc: u16, end_pc: u16, handler_pc: u16, catch_type: u16) -> (r: Self)
        ensures
            r == (ExceptionTable { start_pc, end_pc, handler_pc, catch_type }),
    {
        ExceptionTable { start_pc, end_pc, handler_pc, catch_type }
    }
}

/// A method of a class.
pub struct Method {
    pub decl_cls: usize,
    pub name: usize,
    pub descriptor: usize,
    /// Descriptor text of each parameter type.
    pub params: Vec<Vec<u8>>,
    /// Descriptor text of the result type (`V` for none).
    pub ret_descriptor: Vec<u8>,
    pub access_flags: u16,
    pub max_stack: u16,
    pub max_locals: u16,
    pub code: Vec<u8>,
    pub ex_tab: Vec<ExceptionTable>,
    pub native_fn: Address,
    /// Operand-stack slots the arguments take (`long` and `double` two).
    pub arg_slots: usize,
    /// The parameter tokens of the descriptor.
    pub arg_descs: Vec<Descriptor>,
}

/// The value of `flags & bit` is non-zero.
pub open spec fn has_flag(flags: u16, bit: u16) -> bool {
    flags & bit != 0
}

/// Slots taken by parameters of these types: two for a `long` or a
/// `double`, one for any other.
pub open spec fn slots_of(ps: Seq<Descriptor>) -> nat
    decreases ps.len(),
{
    if ps.len() == 0 {
        0
    } else {
        slots_of(ps.drop_last()) + match ps.last() {
            Descriptor::ResolvedClass(_, 8) => 2nat,
            _ => 1nat,
        }
    }
}

/// Slots taken by the parameters `ps`.
pub fn count_slots(ps: &Vec<Descriptor>) -> (r: usize)
    requires
        ps@.len() < usize::MAX / 2,
    ensures
        r == slots_of(ps@),
{
    let mut n: usize = 0;
    let mut k: usize = 0;
    while k < ps.len()
        invariant
            0 <= k <= ps@.len() < usize::MAX / 2,
            n == slots_of(ps@.subrange(0, k as int)),
            n <= 2 * k,
        decreases ps@.len() - k,
    {
        proof {
            assert(ps@.subrange(0, k + 1).drop_last() =~= ps@.subrange(0, k as int));
        }
        let w: usize = match &ps[k] {
            Descriptor::ResolvedClass(_, 8) => 2,
            _ => 1,
        };
        n = n + w;
        k = k + 1;
    }
    assert(ps@.subrange(0, ps@.len() as int) =~= ps@);
    n
}

impl Method {
    /// A method of class `decl_cls` whose descriptor text is `desc_bytes`
    /// (interned as `descriptor`); `None` when that text is not a method
    /// descriptor.
    pub fn new(
        decl_cls: usize,
        access_flags: u16,
        name: usize,
        descriptor: usize,
        desc_bytes: &[u8],
        max_stack: u16,
        max_locals: u16,
        code: Vec<u8>,
        ex_tab: Vec<ExceptionTable>,
    ) -> (r: Option<Method>)
        requires
            desc_bytes@.len() < usize::MAX / 2,
        ensures
            r.is_some() == valid_method_descriptor(desc_bytes@),
            r matches Some(m) ==> {
                &&& m.decl_cls == decl_cls
                &&& m.access_flags == access_flags
                &&& m.name == name
                &&& m.descriptor == descriptor
                &&& m.max_stack == max_stack
                &&& m.max_locals == max_locals
                &&& m.code == code
                &&& m.ex_tab == ex_tab
                &&& m.native_fn.addr == 0
                &&& m.params@.len() == m.arg_descs@.len()
            },
    {
        match parse_method_descriptor(desc_bytes) {
            Some(md) => {
                if md.params.len() >= usize::MAX / 2 {
                    return None;
                }
                let slots = count_slots(&md.params);
                let mut params: Vec<Vec<u8>> = Vec::new();
                let mut k: usize = 0;
                while k < md.params.len()
                    invariant
                        0 <= k <= md.params@.len(),
                        params@.len() == k,
                    decreases md.params@.len() - k,
                {
                    let b = md.params[k].to_bytes_checked();
                    params.push(b);
                    k = k + 1;
                }
                let ret = md.ret.to_bytes_checked();
                Some(Method {
                    decl_cls,
                    name,
                    descriptor,
                    params,
                    ret_descriptor: ret,
                    access_flags,
                    max_stack,
                    max_locals,
                    code,
                    ex_tab,
                    native_fn: Address { addr: 0 },
                    arg_slots: slots,
                    arg_descs: md.params,
                })
            },
            None => None,
        }
    }

    pub open spec fn spec_is_static(&self) -> bool {
        has_flag(self.access_flags, 0x0008)
    }

    pub open spec fn spec_is_private(&self) -> bool {
        has_flag(self.access_flags, 0x0002)
    }

    pub open spec fn spec_is_abstract(&self) -> bool {
        has_flag(self.access_flags, 0x0400)
    }

    pub open spec fn spec_is_native(&self) -> bool {
        has_flag(self.access_flags, 0x0100)
    }

    pub fn decl_cls(&self) -> (r: usize)
        ensures
            r == self.decl_cls,
    {
        self.decl_cls
    }

    pub fn set_decl_cls(&mut self, cls: usize)
        ensures
            final(self).decl_cls == cls,
            final(self).name == old(self).name,
            final(self).descriptor == old(self).descriptor,
            final(self).access_flags == old(self).access_flags,
            final(self).code == old(self).code,
            final(self).ex_tab == old(self).ex_tab,
            final(self).max_locals == old(self).max_locals,
            final(self).max_stack == old(self).max_stack,
            final(self).native_fn == old(self).native_fn,
    {
        self.decl_cls = cls;
    }

    pub fn name(&self) -> (r: usize)
        ensures
            r == self.name,
    {
        self.name
    }

    pub fn descriptor(&self) -> (r: usize)
        ensures
            r == self.descriptor,
    {
        self.descriptor
    }

    pub fn params(&self) -> (r: &Vec<Vec<u8>>)
        ensures
            r == &self.params,
    {
        &self.params
    }

    pub fn ret_type(&self) -> (r: &Vec<u8>)
        ensures
            r == &self.ret_descriptor,
    {
        &self.ret_descriptor
    }

    pub fn access_flags(&self) -> (r: u16)
        ensures
            r == self.access_flags,
    {
        self.access_flags
    }

    pub fn is_public(&self) -> (r: bool)
        ensures
            r == has_flag(self.access_flags, 0x0001),
    {
        self.access_flags & 0x0001 != 0
    }

    pub fn is_not_public(&self) -> (r: bool)
        ensures
            r == !has_flag(self.access_flags, 0x0001),
    {
        self.access_flags & 0x0001 == 0
    }

    pub fn is_private(&self) -> (r: bool)
        ensures
            r == self.spec_is_private(),
    {
        self.access_flags & 0x0002 != 0
    }

    pub fn is_protected(&self) -> (r: bool)
        ensures
            r == has_flag(self.access_flags, 0x0004),
    {
        self.access_flags & 0x0004 != 0
    }

    pub fn is_abstract(&self) -> (r: bool)
        ensures
            r == self.spec_is_abstract(),
    {
        self.access_flags & 0x0400 != 0
    }

    pub fn is_static(&self) -> (r: bool)
        ensures
            r == self.spec_is_static(),
    {
        self.access_flags & 0x0008 != 0
    }

    pub fn is_native(&self) -> (r: bool)
        ensures
            r == self.spec_is_native(),
    {
        self.access_flags & 0x0100 != 0
    }

    pub fn is_not_native(&self) -> (r: bool)
        ensures
            r == !self.spec_is_native(),
    {
        self.access_flags & 0x0100 == 0
    }

    pub fn max_stack(&self) -> (r: u16)
        ensures
            r == self.max_stack,
    {
        self.max_stack
    }

    pub fn set_max_stack(&mut self, v: u16)
        ensures
            final(self).max_stack == v,
            final(self).max_locals == old(self).max_locals,
            final(self).code == old(self).code,
    {
        self.max_stack = v;
    }

    pub fn max_locals(&self) -> (r: u16)
        ensures
            r == self.max_locals,
    {
        self.max_locals
    }

    pub fn set_max_locals(&mut self, v: u16)
        ensures
            final(self).max_locals == v,
            final(self).max_stack == old(self).max_stack,
            final(self).code == old(self).code,
    {
        self.max_locals = v;
    }

    pub fn code_length(&self) -> (r: usize)
        ensures
            r == self.code@.len(),
    {
        self.code.len()
    }

    pub fn code(&self) -> (r: &[u8])
        ensures
            r@ == self.code@,
    {
        self.code.as_slice()
    }

    pub fn ex_tab(&self) -> (r: &[ExceptionTable])
        ensures
            r@ == self.ex_tab@,
    {
        self.ex_tab.as_slice()
    }

    pub fn native_fn(&self) -> (r: Address)
        ensures
            r == self.native_fn,
    {
        self.native_fn
    }

    pub fn set_native_fn(&mut self, f: Address)
        ensures
            final(self).native_fn == f,
            final(self).name == old(self).name,
            final(self).descriptor == old(self).descriptor,
            final(self).access_flags == old(self).access_flags,
            final(self).code == old(self).code,
    {
        self.native_fn = f;
    }
}

/// A method chosen by resolution: its class, its index among that class's
/// methods, and its slot in the dispatch table it was found through.
#[derive(Clone, Copy, Debug, PartialEq, Eq, Structural)]
pub struct ResolvedMethod {
    pub decl_class: usize,
    pub method: usize,
    pub method_idx: u32,
}

} // verus!
