//! Fields: name and descriptor symbols, access flags and layout offset.
use vstd::prelude::*;

verus! {

/// Access flags of a field, as in the class file.
#[derive(Clone, Copy, Debug, PartialEq, Eq, Structural)]
pub enum FieldAccessFlags {
    AccPublic,
    AccPrivate,
    AccProtected,
    AccStatic,
    AccFinal,
    AccVolatile,
    AccTransient,
}

impl FieldAccessFlags {
    pub fn is_static(access_flags: u16) -> (r: bool)
        ensures
            r == (access_flags & 0x0008 != 0),
    {
        access_flags & 0x0008 != 0
    }
}

/// A field of a class. `field_class` is the index of its type's class once
/// that is resolved; `size` is the width of its value in bytes.
pub struct Field {
    pub access_flags: u16,
    pub layout_offset: u16,
    pub name: usize,
    pub field_class: Option<usize>,
    pub descriptor: usize,
    pub constval_index: u16,
    pub size: u16,
}

impl Field {
    pub open spec fn spec_is_static(&self) -> bool {
        self.access_flags & 0x0008 != 0
    }

    pub fn name(&self) -> (r: usize)
        ensures
            r == self.name,
    {
        self.name
    }

    pub fn descriptor(&self) -> (r: usize)
        ensures
            r == self.descriptor,
    {
        self.descriptor
    }

    pub fn access_flags(&self) -> (r: u16)
        ensures
            r == self.access_flags,
    {
        self.access_flags
    }

    pub fn is_static(&self) -> (r: bool)
        ensures
            r == self.spec_is_static(),
    {
        self.access_flags & 0x0008 != 0
    }

    pub fn set_constval_index(&mut self, index: u16)
        ensures
            final(self).constval_index == index,
            final(self).layout_offset == old(self).layout_offset,
            final(self).access_flags == old(self).access_flags,
            final(self).name == old(self).name,
            final(self).size == old(self).size,
            final(self).descriptor == old(self).descriptor,
            final(self).field_class == old(self).field_class,
    {
        self.constval_index = index;
    }

    /// Width in bytes of this field's value.
    pub fn instance_size(&self) -> (r: u16)
        ensures
            r == self.size,
    {
        self.size
    }

    pub fn layout_offset(&self) -> (r: u16)
        ensures
            r == self.layout_offset,
    {
        self.layout_offset
    }

    pub fn set_layout_offset(&mut self, offset: u16)
        ensures
            final(self).layout_offset == offset,
            final(self).access_flags == old(self).access_flags,
            final(self).name == old(self).name,
            final(self).size == old(self).size,
            final(self).descriptor == old(self).descriptor,
    {
        self.layout_offset = offset;
    }

    pub fn field_class_unchecked(&self) -> (r: Option<usize>)
        ensures
            r == self.field_class,
    {
        self.field_class
    }

    pub fn set_field_class(&mut self, cls: usize)
        ensures
            final(self).field_class == Some(cls),
            final(self).layout_offset == old(self).layout_offset,
            final(self).access_flags == old(self).access_flags,
            final(self).name == old(self).name,
            final(self).size == old(self).size,
    {
        self.field_class = Some(cls);
    }
}

} // verus!
