//! Runtime values: stack slots, heap objects and arrays, and call frames.
use vstd::prelude::*;

verus! {

/// One value as it travels through the interpreter: the raw bits of an
/// `int`, a `long` or a reference (0 is null, `n + 1` is heap object `n`).
#[derive(Clone, Copy, Debug, PartialEq, Eq, Structural)]
pub struct JValue {
    pub bits: i64,
}

impl JValue {
    pub fn with_int_val(v: i32) -> (r: JValue)
        ensures
            r.bits == v as i64,
    {
        JValue { bits: v as i64 }
    }

    pub fn with_long_val(v: i64) -> (r: JValue)
        ensures
            r.bits == v,
    {
        JValue { bits: v }
    }

    pub fn with_obj_val(r: usize) -> (v: JValue)
        requires
            r < i64::MAX,
        ensures
            v.bits == r + 1,
    {
        JValue { bits: (r as i64) + 1 }
    }

    pub fn with_obj_null() -> (r: JValue)
        ensures
            r.bits == 0,
    {
        JValue { bits: 0 }
    }

    pub fn int_val(&self) -> (r: i32)
        ensures
            r == self.bits as i32,
    {
        self.bits as i32
    }

    pub fn long_val(&self) -> (r: i64)
        ensures
            r == self.bits,
    {
        self.bits
    }

    /// The heap index of a non-null reference.
    pub fn obj_val(&self) -> (r: Option<usize>)
        ensures
            self.bits <= 0 ==> r.is_none(),
            self.bits > 0 ==> r == Some((self.bits - 1) as usize),
    {
        if self.bits <= 0 {
            None
        } else {
            Some((self.bits - 1) as usize)
        }
    }
}

/// The element type of an array: a primitive (by descriptor letter) or a
/// class (by registry index).
#[derive(Clone, Copy, Debug, PartialEq, Eq, Structural)]
pub enum Component {
    Prim(u8),
    Class(usize),
}

/// An array: its element type and one slot per element.
pub struct JArray {
    pub component: Component,
    pub data: Vec<i64>,
}

impl JArray {
    /// An array of `length` zero elements.
    pub fn new(component: Component, length: usize) -> (r: JArray)
        ensures
            r.component == component,
            r.data@.len() == length,
            forall|i: int| 0 <= i < length ==> r.data@[i] == 0,
    {
        let mut data: Vec<i64> = Vec::new();
        let mut k: usize = 0;
        while k < length
            invariant
                k <= length,
                data@.len() == k,
                forall|i: int| 0 <= i < k ==> data@[i] == 0,
            decreases length - k,
        {
            data.push(0);
            k = k + 1;
        }
        JArray { component, data }
    }

    pub fn get_component_type(&self) -> (r: Component)
        ensures
            r == self.component,
    {
        self.component
    }

    pub fn length(&self) -> (r: usize)
        ensures
            r == self.data@.len(),
    {
        self.data.len()
    }

    /// Element `index`, or `None` out of bounds.
    pub fn get(&self, index: i32) -> (r: Option<i64>)
        ensures
            0 <= index < self.data@.len() ==> r == Some(self.data@[index as int]),
            !(0 <= index < self.data@.len()) ==> r.is_none(),
    {
        if index >= 0 && (index as usize) < self.data.len() {
            Some(self.data[index as usize])
        } else {
            None
        }
    }

    pub fn get_with_isize(&self, index: isize) -> (r: Option<i64>)
        ensures
            0 <= index < self.data@.len() ==> r == Some(self.data@[index as int]),
            !(0 <= index < self.data@.len()) ==> r.is_none(),
    {
        if index >= 0 && (index as usize) < self.data.len() {
            Some(self.data[index as usize])
        } else {
            None
        }
    }

    /// Stores element `index`; `false` (and no change) out of bounds.
    pub fn set(&mut self, index: i32, value: i64) -> (r: bool)
        ensures
            r == (0 <= index < old(self).data@.len()),
            r ==> final(self).data@ == old(self).data@.update(index as int, value),
            !r ==> final(self).data@ == old(self).data@,
            final(self).component == old(self).component,
    {
        if index >= 0 && (index as usize) < self.data.len() {
            self.data.set(index as usize, value);
            true
        } else {
            false
        }
    }

    pub fn data(&self) -> (r: &[i64])
        ensures
            r@ == self.data@,
    {
        self.data.as_slice()
    }
}

/// A heap object: an instance (one slot per byte offset of its instance
/// fields), an array, or a string (by its index in the string table).
pub enum HeapObj {
    Instance { cls: usize, fields: Vec<i64> },
    Array { cls: usize, arr: JArray },
    Str { cls: usize, id: usize },
}

impl HeapObj {
    pub open spec fn spec_cls(&self) -> usize {
        match self {
            HeapObj::Instance { cls, .. } => *cls,
            HeapObj::Array { cls, .. } => *cls,
            HeapObj::Str { cls, .. } => *cls,
        }
    }

    /// The class of the object.
    pub fn jclass(&self) -> (r: usize)
        ensures
            r == self.spec_cls(),
    {
        match self {
            HeapObj::Instance { cls, .. } => *cls,
            HeapObj::Array { cls, .. } => *cls,
            HeapObj::Str { cls, .. } => *cls,
        }
    }
}

/// One call frame: the method being run (class and method index), its
/// program counter, locals and operand stack. A frame made for a class
/// initializer records the class in `init_of`.
pub struct Frame {
    pub class: usize,
    pub method: usize,
    pub pc: usize,
    pub locals: Vec<i64>,
    pub stack: Vec<i64>,
    pub prev: Option<usize>,
    pub is_java_top: bool,
    pub init_of: Option<usize>,
}

impl Frame {
    /// A frame with `max_locals` zero locals and an empty operand stack.
    pub fn new(class: usize, method: usize, max_locals: usize, prev: Option<usize>, is_java_top: bool) -> (r: Frame)
        ensures
            r.class == class,
            r.method == method,
            r.pc == 0,
            r.locals@.len() == max_locals,
            r.stack@.len() == 0,
            r.prev == prev,
            r.is_java_top == is_java_top,
            r.init_of.is_none(),
    {
        let mut locals: Vec<i64> = Vec::new();
        let mut k: usize = 0;
        while k < max_locals
            invariant
                k <= max_locals,
                locals@.len() == k,
            decreases max_locals - k,
        {
            locals.push(0);
            k = k + 1;
        }
        Frame { class, method, pc: 0, locals, stack: Vec::new(), prev, is_java_top, init_of: None }
    }

    pub fn class(&self) -> (r: usize)
        ensures
            r == self.class,
    {
        self.class
    }

    pub fn method(&self) -> (r: usize)
        ensures
            r == self.method,
    {
        self.method
    }

    pub fn prev(&self) -> (r: Option<usize>)
        ensures
            r == self.prev,
    {
        self.prev
    }

    pub fn has_prev(&self) -> (r: bool)
        ensures
            r == self.prev.is_some(),
    {
        self.prev.is_some()
    }

    /// Slots the frame takes: its locals and its operand stack.
    pub fn frame_slots(&self) -> (r: usize)
        requires
            self.locals@.len() + self.stack@.len() <= usize::MAX,
        ensures
            r == self.locals@.len() + self.stack@.len(),
    {
        self.locals.len() + self.stack.len()
    }

    pub fn is_java_top(&self) -> (r: bool)
        ensures
            r == self.is_java_top,
    {
        self.is_java_top
    }

    pub fn push(&mut self, v: i64)
        ensures
            final(self).stack@ == old(self).stack@.push(v),
            final(self).locals == old(self).locals,
            final(self).pc == old(self).pc,
            final(self).class == old(self).class,
            final(self).method == old(self).method,
            final(self).init_of == old(self).init_of,
            final(self).prev == old(self).prev,
            final(self).is_java_top == old(self).is_java_top,
    {
        self.stack.push(v);
    }

    /// The top of the operand stack, removed; `None` on an empty stack.
    pub fn pop(&mut self) -> (r: Option<i64>)
        ensures
            old(self).stack@.len() == 0 ==> r.is_none() && final(self).stack@ == old(self).stack@,
            old(self).stack@.len() > 0 ==> r == Some(old(self).stack@.last()) && final(self).stack@
                == old(self).stack@.drop_last(),
            final(self).locals == old(self).locals,
            final(self).pc == old(self).pc,
            final(self).class == old(self).class,
            final(self).method == old(self).method,
            final(self).init_of == old(self).init_of,
            final(self).prev == old(self).prev,
            final(self).is_java_top == old(self).is_java_top,
    {
        self.stack.pop()
    }

    /// Local `i`, or `None` past the locals.
    pub fn local(&self, i: usize) -> (r: Option<i64>)
        ensures
            i < self.locals@.len() ==> r == Some(self.locals@[i as int]),
            i >= self.locals@.len() ==> r.is_none(),
    {
        if i < self.locals.len() {
            Some(self.locals[i])
        } else {
            None
        }
    }

    /// Sets local `i`; `false` (and no change) past the locals.
    pub fn set_local(&mut self, i: usize, v: i64) -> (r: bool)
        ensures
            r == (i < old(self).locals@.len()),
            r ==> final(self).locals@ == old(self).locals@.update(i as int, v),
            !r ==> final(self).locals@ == old(self).locals@,
            final(self).stack == old(self).stack,
            final(self).pc == old(self).pc,
            final(self).class == old(self).class,
            final(self).method == old(self).method,
            final(self).init_of == old(self).init_of,
            final(self).prev == old(self).prev,
            final(self).is_java_top == old(self).is_java_top,
    {
        if i < self.locals.len() {
            self.locals.set(i, v);
            true
        } else {
            false
        }
    }
}

} // verus!
