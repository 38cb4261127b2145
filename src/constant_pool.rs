//! The constant pool of a parsed class: a tag per index and a 64-bit value
//! per index. Member references encode `(class_index << 16) | nat_index`.
use vstd::prelude::*;

verus! {

pub const TAG_INVALID: u8 = 0;
pub const TAG_UTF8: u8 = 1;
pub const TAG_INTEGER: u8 = 3;
pub const TAG_FLOAT: u8 = 4;
pub const TAG_LONG: u8 = 5;
pub const TAG_DOUBLE: u8 = 6;
pub const TAG_CLASS: u8 = 7;
pub const TAG_STRING: u8 = 8;
pub const TAG_FIELDREF: u8 = 9;
pub const TAG_METHODREF: u8 = 10;
pub const TAG_INTERFACE_METHODREF: u8 = 11;
pub const TAG_NAME_AND_TYPE: u8 = 12;
pub const TAG_METHOD_HANDLE: u8 = 15;
pub const TAG_METHOD_TYPE: u8 = 16;
pub const TAG_INVOKE_DYNAMIC: u8 = 18;

/// The kinds of constant-pool entries.
#[derive(Clone, Copy, Debug, PartialEq, Eq, Structural)]
pub enum ConstantTag {
    Invalid,
    Utf8,
    Integer,
    Float,
    Long,
    Double,
    Class,
    String,
    Fieldref,
    Methodref,
    InterfaceMethodref,
    NameAndType,
    MethodHandle,
    MethodType,
    InvokeDynamic,
}

impl ConstantTag {
    pub open spec fn spec_from_u8(t: u8) -> ConstantTag {
        if t == 1 {
            ConstantTag::Utf8
        } else if t == 3 {
            ConstantTag::Integer
        } else if t == 4 {
            ConstantTag::Float
        } else if t == 5 {
            ConstantTag::Long
        } else if t == 6 {
            ConstantTag::Double
        } else if t == 7 {
            ConstantTag::Class
        } else if t == 8 {
            ConstantTag::String
        } else if t == 9 {
            ConstantTag::Fieldref
        } else if t == 10 {
            ConstantTag::Methodref
        } else if t == 11 {
            ConstantTag::InterfaceMethodref
        } else if t == 12 {
            ConstantTag::NameAndType
        } else if t == 15 {
            ConstantTag::MethodHandle
        } else if t == 16 {
            ConstantTag::MethodType
        } else if t == 18 {
            ConstantTag::InvokeDynamic
        } else {
            ConstantTag::Invalid
        }
    }

    /// The tag with class-file number `t` (`Invalid` for unknown numbers).
    pub fn from_u8(t: u8) -> (r: ConstantTag)
        ensures
            r == Self::spec_from_u8(t),
    {
        if t == 1 {
            ConstantTag::Utf8
        } else if t == 3 {
            ConstantTag::Integer
        } else if t == 4 {
            ConstantTag::Float
        } else if t == 5 {
            ConstantTag::Long
        } else if t == 6 {
            ConstantTag::Double
        } else if t == 7 {
            ConstantTag::Class
        } else if t == 8 {
            ConstantTag::String
        } else if t == 9 {
            ConstantTag::Fieldref
        } else if t == 10 {
            ConstantTag::Methodref
        } else if t == 11 {
            ConstantTag::InterfaceMethodref
        } else if t == 12 {
            ConstantTag::NameAndType
        } else if t == 15 {
            ConstantTag::MethodHandle
        } else if t == 16 {
            ConstantTag::MethodType
        } else if t == 18 {
            ConstantTag::InvokeDynamic
        } else {
            ConstantTag::Invalid
        }
    }
}

/// A resolved reference to a field or method: symbols of the owner class
/// name, the member name and the member descriptor.
#[derive(Clone, Copy, Debug, PartialEq, Eq, Structural)]
pub struct ConstMemberRef {
    pub class_name: usize,
    pub member_name: usize,
    pub member_desc: usize,
}

impl ConstMemberRef {
    pub fn new(class_name: usize, member_name: usize, member_desc: usize) -> (r: Self)
        ensures
            r == (ConstMemberRef { class_name, member_name, member_desc }),
    {
        ConstMemberRef { class_name, member_name, member_desc }
    }
}

/// `(hi << 16) | lo` for two 16-bit halves.
pub open spec fn pack(hi: u16, lo: u16) -> u64 {
    ((hi as u64) * 65536 + (lo as u64)) as u64
}

pub struct ConstantPool {
    pub tags: Vec<u8>,
    pub values: Vec<u64>,
}

impl ConstantPool {
    pub open spec fn wf(&self) -> bool {
        self.tags@.len() == self.values@.len()
    }

    pub open spec fn spec_utf8(&self, i: int) -> Option<usize> {
        if 0 <= i < self.tags@.len() && self.tags@[i] == TAG_UTF8 && self.values@[i]
            <= usize::MAX {
            Some(self.values@[i] as usize)
        } else {
            None
        }
    }

    pub open spec fn spec_class_name(&self, i: int) -> Option<usize> {
        if 0 <= i < self.tags@.len() && self.tags@[i] == TAG_CLASS {
            self.spec_utf8(self.values@[i] as int)
        } else {
            None
        }
    }

    /// The member reference at `i` when its tag is `tag`.
    pub open spec fn spec_member_ref(&self, i: int, tag: u8) -> Option<ConstMemberRef> {
        if 0 <= i < self.tags@.len() && self.tags@[i] == tag {
            let v = self.values@[i];
            let ci = (v / 65536) as int;
            let ni = (v % 65536) as int;
            if 0 <= ni < self.tags@.len() && self.tags@[ni] == TAG_NAME_AND_TYPE {
                let nv = self.values@[ni];
                match (
                    self.spec_class_name(ci),
                    self.spec_utf8((nv / 65536) as int),
                    self.spec_utf8((nv % 65536) as int),
                ) {
                    (Some(c), Some(n), Some(d)) => Some(
                        ConstMemberRef { class_name: c, member_name: n, member_desc: d },
                    ),
                    _ => None,
                }
            } else {
                None
            }
        } else {
            None
        }
    }

    /// A pool of `length` indices, all invalid.
    pub fn new(length: u16) -> (r: ConstantPool)
        ensures
            r.wf(),
            r.tags@.len() == length,
            forall|i: int| 0 <= i < length ==> r.tags@[i] == TAG_INVALID,
    {
        let mut tags: Vec<u8> = Vec::new();
        let mut values: Vec<u64> = Vec::new();
        let mut k: u16 = 0;
        while k < length
            invariant
                k <= length,
                tags@.len() == k,
                values@.len() == k,
                forall|i: int| 0 <= i < k ==> tags@[i] == TAG_INVALID,
            decreases length - k,
        {
            tags.push(TAG_INVALID);
            values.push(0);
            k = k + 1;
        }
        ConstantPool { tags, values }
    }

    pub fn length(&self) -> (r: usize)
        ensures
            r == self.tags@.len(),
    {
        self.tags.len()
    }

    /// The tag at `index` (`Invalid` outside the pool).
    pub fn get_tag(&self, index: u16) -> (r: ConstantTag)
        ensures
            (index as int) < self.tags@.len() ==> r == ConstantTag::spec_from_u8(
                self.tags@[index as int],
            ),
            (index as int) >= self.tags@.len() ==> r == ConstantTag::Invalid,
    {
        if (index as usize) < self.tags.len() {
            ConstantTag::from_u8(self.tags[index as usize])
        } else {
            ConstantTag::Invalid
        }
    }

    /// The raw value at `index`.
    pub fn info(&self, index: u16) -> (r: Option<u64>)
        requires
            self.wf(),
        ensures
            (index as int) < self.values@.len() ==> r == Some(self.values@[index as int]),
            (index as int) >= self.values@.len() ==> r.is_none(),
    {
        if (index as usize) < self.values.len() {
            Some(self.values[index as usize])
        } else {
            None
        }
    }

    fn set(&mut self, index: u16, tag: u8, value: u64)
        requires
            old(self).wf(),
            (index as int) < old(self).tags@.len(),
        ensures
            final(self).wf(),
            final(self).tags@ == old(self).tags@.update(index as int, tag),
            final(self).values@ == old(self).values@.update(index as int, value),
    {
        self.tags.set(index as usize, tag);
        self.values.set(index as usize, value);
    }

    pub fn set_invalid(&mut self, index: u16)
        requires
            old(self).wf(),
            (index as int) < old(self).tags@.len(),
        ensures
            final(self).wf(),
            final(self).tags@ == old(self).tags@.update(index as int, TAG_INVALID),
            final(self).values@ == old(self).values@.update(index as int, 0),
    {
        self.set(index, TAG_INVALID, 0);
    }

    /// Records a `Utf8` entry by its interned symbol.
    pub fn set_utf8(&mut self, index: u16, symbol: usize)
        requires
            old(self).wf(),
            (index as int) < old(self).tags@.len(),
        ensures
            final(self).wf(),
            final(self).tags@ == old(self).tags@.update(index as int, TAG_UTF8),
            final(self).values@ == old(self).values@.update(index as int, symbol as u64),
    {
        self.set(index, TAG_UTF8, symbol as u64);
    }

    /// Records a two-index entry such as a member reference.
    pub fn set_pair(&mut self, index: u16, tag: u8, hi: u16, lo: u16)
        requires
            old(self).wf(),
            (index as int) < old(self).tags@.len(),
        ensures
            final(self).wf(),
            final(self).tags@ == old(self).tags@.update(index as int, tag),
            final(self).values@ == old(self).values@.update(index as int, pack(hi, lo)),
    {
        self.set(index, tag, (hi as u64) * 65536 + (lo as u64));
    }

    /// Records a one-value entry (an integer, a class, a string...).
    pub fn set_value(&mut self, index: u16, tag: u8, value: u64)
        requires
            old(self).wf(),
            (index as int) < old(self).tags@.len(),
        ensures
            final(self).wf(),
            final(self).tags@ == old(self).tags@.update(index as int, tag),
            final(self).values@ == old(self).values@.update(index as int, value),
    {
        self.set(index, tag, value);
    }

    fn utf8_at(&self, i: u64) -> (r: Option<usize>)
        requires
            self.wf(),
        ensures
            r == self.spec_utf8(i as int),
    {
        if i < self.tags.len() as u64 && self.tags[i as usize] == TAG_UTF8 && self.values[i as usize]
            <= usize::MAX as u64 {
            Some(self.values[i as usize] as usize)
        } else {
            None
        }
    }

    fn class_name_at(&self, i: usize) -> (r: Option<usize>)
        requires
            self.wf(),
        ensures
            r == self.spec_class_name(i as int),
    {
        if i < self.tags.len() && self.tags[i] == TAG_CLASS {
            self.utf8_at(self.values[i])
        } else {
            None
        }
    }

    /// The symbol of the `Utf8` entry at `index`.
    pub fn get_utf8(&self, index: u16) -> (r: Option<usize>)
        requires
            self.wf(),
        ensures
            r == self.spec_utf8(index as int),
    {
        let i = index as usize;
        if i < self.tags.len() && self.tags[i] == TAG_UTF8 && self.values[i] <= usize::MAX as u64 {
            Some(self.values[i] as usize)
        } else {
            None
        }
    }

    /// The name symbol of the `Class` entry at `index`.
    pub fn get_class_name(&self, index: u16) -> (r: Option<usize>)
        requires
            self.wf(),
        ensures
            r == self.spec_class_name(index as int),
    {
        self.class_name_at(index as usize)
    }

    /// The value of the `Integer` entry at `index`.
    pub fn get_int32(&self, index: u16) -> (r: Option<i32>)
        requires
            self.wf(),
        ensures
            r == (if (index as int) < self.tags@.len() && self.tags@[index as int] == TAG_INTEGER {
                Some(self.values@[index as int] as i32)
            } else {
                None::<i32>
            }),
    {
        let i = index as usize;
        if i < self.tags.len() && self.tags[i] == TAG_INTEGER {
            Some(self.values[i] as i32)
        } else {
            None
        }
    }

    /// The value of the `Long` entry at `index`.
    pub fn get_long(&self, index: u16) -> (r: Option<i64>)
        requires
            self.wf(),
        ensures
            r == (if (index as int) < self.tags@.len() && self.tags@[index as int] == TAG_LONG {
                Some(self.values@[index as int] as i64)
            } else {
                None::<i64>
            }),
    {
        let i = index as usize;
        if i < self.tags.len() && self.tags[i] == TAG_LONG {
            Some(self.values[i] as i64)
        } else {
            None
        }
    }

    fn get_member_ref(&self, index: u16, tag: u8) -> (r: Option<ConstMemberRef>)
        requires
            self.wf(),
        ensures
            r == self.spec_member_ref(index as int, tag),
    {
        let i = index as usize;
        if i >= self.tags.len() || self.tags[i] != tag {
            return None;
        }
        let v = self.values[i];
        let ni = (v % 65536) as usize;
        if ni >= self.tags.len() || self.tags[ni] != TAG_NAME_AND_TYPE {
            return None;
        }
        let nv = self.values[ni];
        let c = if v / 65536 < self.tags.len() as u64 {
            self.class_name_at((v / 65536) as usize)
        } else {
            None
        };
        let n = self.utf8_at(nv / 65536);
        let d = self.utf8_at(nv % 65536);
        match (c, n, d) {
            (Some(c), Some(n), Some(d)) => Some(
                ConstMemberRef { class_name: c, member_name: n, member_desc: d },
            ),
            _ => None,
        }
    }

    pub fn get_field_ref(&self, index: u16) -> (r: Option<ConstMemberRef>)
        requires
            self.wf(),
        ensures
            r == self.spec_member_ref(index as int, TAG_FIELDREF),
    {
        self.get_member_ref(index, TAG_FIELDREF)
    }

    pub fn get_method_ref(&self, index: u16) -> (r: Option<ConstMemberRef>)
        requires
            self.wf(),
        ensures
            r == self.spec_member_ref(index as int, TAG_METHODREF),
    {
        self.get_member_ref(index, TAG_METHODREF)
    }

    pub fn get_interface_method_ref(&self, index: u16) -> (r: Option<ConstMemberRef>)
        requires
            self.wf(),
        ensures
            r == self.spec_member_ref(index as int, TAG_INTERFACE_METHODREF),
    {
        self.get_member_ref(index, TAG_INTERFACE_METHODREF)
    }
}

} // verus!
