//! Classes: the data of a parsed class, field layout, dispatch tables and
//! the registry that holds every loaded class by name.
use vstd::prelude::*;
use crate::constant_pool::ConstantPool;
use crate::field::Field;
use crate::method::Method;

verus! {

/// Access flags of a class, as in the class file.
#[derive(Clone, Copy, Debug, PartialEq, Eq, Structural)]
pub enum ClassAccessFlags {
    AccPublic,
    AccFinal,
    AccSuper,
    AccInterface,
    AccAbstract,
    AccSynthetic,
    AccAnnotation,
    AccEnum,
}

impl ClassAccessFlags {
    pub fn is_interface(access_flags: u16) -> (r: bool)
        ensures
            r == (access_flags & 0x0200 != 0),
    {
        access_flags & 0x0200 != 0
    }
}

/// Where a class stands in its life: loaded, linked (dispatch tables and
/// field bases computed), running its initializer, or initialized.
#[derive(Clone, Copy, Debug, PartialEq, Eq, Structural)]
pub enum ClassState {
    Created,
    Linked,
    Initializing,
    Initialized,
}

/// The alignment quantum of field layout.
pub const FIELD_ALIGNMENT: u16 = 8;

/// A running layout of one region (static or instance fields). Fields are
/// placed in 8-byte slots; a field that fits in the unused tail of the last
/// slot goes there, otherwise a new slot is started.
#[derive(Clone, Copy, Debug, PartialEq, Eq, Structural)]
pub struct FieldLayout {
    pub padding: u16,
    pub offset: u16,
    pub aligned_offset: u16,
}

impl FieldLayout {
    /// `offset` is where the next field may start; every byte below it may
    /// be taken; the last slot ends at `aligned_offset`.
    pub open spec fn wf(&self) -> bool {
        &&& self.offset + self.padding == self.aligned_offset
        &&& self.aligned_offset % 8 == 0
        &&& self.padding < 8
    }

    pub fn new() -> (r: FieldLayout)
        ensures
            r.wf(),
            r.offset == 0,
            r.aligned_offset == 0,
    {
        FieldLayout { padding: 0, offset: 0, aligned_offset: 0 }
    }

    /// The offset for a field of `size` bytes (1, 2, 4 or 8).
    pub fn obtain_field_offset(&mut self, size: u16) -> (r: u16)
        requires
            old(self).wf(),
            size == 1 || size == 2 || size == 4 || size == 8,
            old(self).aligned_offset + 16 <= u16::MAX,
        ensures
            final(self).wf(),
            r >= old(self).offset,
            final(self).offset == r + size,
            final(self).aligned_offset >= old(self).aligned_offset,
            final(self).aligned_offset <= old(self).aligned_offset + 8,
            r + size <= final(self).aligned_offset,
            old(self).padding >= size ==> r == old(self).offset,
            old(self).padding < size ==> r == old(self).aligned_offset,
    {
        if self.padding >= size {
            let r = self.offset;
            self.padding = self.padding - size;
            self.offset = self.offset + size;
            r
        } else if size < FIELD_ALIGNMENT {
            let r = self.aligned_offset;
            self.padding = FIELD_ALIGNMENT - size;
            self.offset = r + size;
            self.aligned_offset = r + FIELD_ALIGNMENT;
            r
        } else {
            let r = self.aligned_offset;
            self.padding = 0;
            self.aligned_offset = r + size;
            self.offset = self.aligned_offset;
            r
        }
    }

    /// The size of the region so far, a multiple of eight.
    pub fn get_aligned_size(&self) -> (r: u16)
        ensures
            r == self.aligned_offset,
    {
        self.aligned_offset
    }
}

/// Offsets of fields given as `(is_static, size)`: statics and instance
/// fields are laid out in separate regions. Returns the offsets, the static
/// region size and the instance region size; `None` when a region would
/// outgrow 16 bits.
pub fn layout_fields(fields: &Vec<(bool, u16)>) -> (r: Option<(Vec<u16>, u16, u16)>)
    requires
        forall|i: int|
            0 <= i < fields@.len() ==> {
                let s = (#[trigger] fields@[i]).1;
                s == 1 || s == 2 || s == 4 || s == 8
            },
    ensures
        fields@.len() <= 4000 ==> r.is_some(),
        r matches Some((offs, ssize, isize)) ==> {
            &&& offs@.len() == fields@.len()
            &&& forall|i: int|
                0 <= i < fields@.len() ==> offs@[i] + fields@[i].1 <= (if fields@[i].0 {
                    ssize
                } else {
                    isize
                })
            &&& forall|i: int, j: int|
                0 <= i < j < fields@.len() && fields@[i].0 == fields@[j].0 ==> offs@[i]
                    + fields@[i].1 <= offs@[j] || offs@[j] + fields@[j].1 <= offs@[i]
        },
{
    let mut st = FieldLayout::new();
    let mut inst = FieldLayout::new();
    let mut offs: Vec<u16> = Vec::new();
    let mut k: usize = 0;
    while k < fields.len()
        invariant
            0 <= k <= fields@.len(),
            st.wf(),
            inst.wf(),
            offs@.len() == k,
            forall|i: int|
                0 <= i < fields@.len() ==> {
                    let s = (#[trigger] fields@[i]).1;
                    s == 1 || s == 2 || s == 4 || s == 8
                },
            st.aligned_offset + inst.aligned_offset <= 8 * k,
            forall|i: int|
                0 <= i < k ==> offs@[i] + fields@[i].1 <= (if fields@[i].0 {
                    st.offset
                } else {
                    inst.offset
                }),
            forall|i: int, j: int|
                0 <= i < j < k && fields@[i].0 == fields@[j].0 ==> offs@[i] + fields@[i].1
                    <= offs@[j] || offs@[j] + fields@[j].1 <= offs@[i],
        decreases fields@.len() - k,
    {
        let (is_static, size) = fields[k];
        if is_static {
            if st.aligned_offset > u16::MAX - 16 {
                return None;
            }
            let o = st.obtain_field_offset(size);
            offs.push(o);
        } else {
            if inst.aligned_offset > u16::MAX - 16 {
                return None;
            }
            let o = inst.obtain_field_offset(size);
            offs.push(o);
        }
        k = k + 1;
    }
    let ssize = st.get_aligned_size();
    let isize = inst.get_aligned_size();
    Some((offs, ssize, isize))
}

/// One dispatch-table entry: method `idx` of class `cls`, with that method's
/// name and descriptor symbols.
#[derive(Clone, Copy, Debug, PartialEq, Eq, Structural)]
pub struct VEntry {
    pub cls: usize,
    pub idx: usize,
    pub name: usize,
    pub desc: usize,
}

/// What parsing a class yields; the registry adds the derived tables.
pub struct ClassData {
    pub name: usize,
    pub access_flags: u16,
    pub super_class: Option<usize>,
    pub interfaces: Vec<usize>,
    pub fields: Vec<Field>,
    pub methods: Vec<Method>,
    pub component_type: Option<usize>,
    pub inst_size: u16,
    pub static_size: u16,
    pub cp: ConstantPool,
    pub init_method: Option<usize>,
}

impl ClassData {
    pub open spec fn spec_is_interface(&self) -> bool {
        self.access_flags & 0x0200 != 0
    }

    pub fn name(&self) -> (r: usize)
        ensures
            r == self.name,
    {
        self.name
    }

    pub fn is_interface(&self) -> (r: bool)
        ensures
            r == self.spec_is_interface(),
    {
        self.access_flags & 0x0200 != 0
    }

    pub fn is_abstract(&self) -> (r: bool)
        ensures
            r == (self.access_flags & 0x0400 != 0),
    {
        self.access_flags & 0x0400 != 0
    }

    pub fn is_acc_super(&self) -> (r: bool)
        ensures
            r == (self.access_flags & 0x0020 != 0),
    {
        self.access_flags & 0x0020 != 0
    }

    pub fn access_flags(&self) -> (r: u16)
        ensures
            r == self.access_flags,
    {
        self.access_flags
    }

    pub fn super_class(&self) -> (r: Option<usize>)
        ensures
            r == self.super_class,
    {
        self.super_class
    }

    pub fn interfaces(&self) -> (r: &Vec<usize>)
        ensures
            r == &self.interfaces,
    {
        &self.interfaces
    }

    pub fn fields(&self) -> (r: &Vec<Field>)
        ensures
            r == &self.fields,
    {
        &self.fields
    }

    pub fn methods(&self) -> (r: &Vec<Method>)
        ensures
            r == &self.methods,
    {
        &self.methods
    }

    pub fn component_type(&self) -> (r: Option<usize>)
        ensures
            r == self.component_type,
    {
        self.component_type
    }

    pub fn is_array(&self) -> (r: bool)
        ensures
            r == self.component_type.is_some(),
    {
        self.component_type.is_some()
    }

    pub fn inst_or_ele_size(&self) -> (r: u16)
        ensures
            r == self.inst_size,
    {
        self.inst_size
    }

    /// The class name a descriptor denotes: `Lname;` gives `name`; an
    /// array or primitive descriptor is its own name.
    pub fn descriptor_to_class_name(name: &[u8]) -> (r: Vec<u8>)
        ensures
            name@.len() >= 2 && name@[0] == 76u8 ==> r@ == name@.subrange(1, name@.len() - 1),
            !(name@.len() >= 2 && name@[0] == 76u8) ==> r@ == name@,
    {
        if name.len() >= 2 && name[0] == 76u8 {
            crate::util::bytes_range(name, 1, name.len() - 1)
        } else {
            let r = crate::util::bytes_range(name, 0, name.len());
            assert(r@ =~= name@);
            r
        }
    }

    /// The symbol under which a native method is looked up:
    /// `Java_<class>_<method>`, with each `/` of the class name as `_`.
    pub fn get_native_fn_name(class_name: &[u8], method_name: &[u8]) -> (r: Vec<u8>)
        requires
            class_name@.len() + method_name@.len() + 6 <= usize::MAX,
        ensures
            r@ == seq![74u8, 97u8, 118u8, 97u8, 95u8] + slashes_to_underscores(class_name@) + seq![95u8]
                + method_name@,
    {
        let mut r: Vec<u8> = vec![74u8, 97u8, 118u8, 97u8, 95u8];
        let ghost prefix = r@;
        let mut k: usize = 0;
        while k < class_name.len()
            invariant
                0 <= k <= class_name@.len(),
                prefix == seq![74u8, 97u8, 118u8, 97u8, 95u8],
                r@ == prefix + slashes_to_underscores(class_name@.subrange(0, k as int)),
            decreases class_name@.len() - k,
        {
            let c = class_name[k];
            r.push(if c == 47u8 {
                95u8
            } else {
                c
            });
            k = k + 1;
            assert(slashes_to_underscores(class_name@.subrange(0, k as int)) =~= slashes_to_underscores(
                class_name@.subrange(0, k - 1),
            ).push(if c == 47u8 {
                95u8
            } else {
                c
            }));
        }
        assert(class_name@.subrange(0, class_name@.len() as int) =~= class_name@);
        r.push(95u8);
        let ghost mid = r@;
        let mut j: usize = 0;
        while j < method_name.len()
            invariant
                0 <= j <= method_name@.len(),
                r@ == mid + method_name@.subrange(0, j as int),
            decreases method_name@.len() - j,
        {
            r.push(method_name[j]);
            j = j + 1;
            assert(r@ =~= mid + method_name@.subrange(0, j as int));
        }
        assert(method_name@.subrange(0, method_name@.len() as int) =~= method_name@);
        r
    }

    /// Whether this class declares interface `iface` directly.
    pub fn is_implement(&self, iface: usize) -> (r: bool)
        ensures
            r == self.interfaces@.contains(iface),
    {
        let mut j: usize = 0;
        while j < self.interfaces.len()
            invariant
                0 <= j <= self.interfaces@.len(),
                forall|t: int| 0 <= t < j ==> self.interfaces@[t] != iface,
            decreases self.interfaces@.len() - j,
        {
            if self.interfaces[j] == iface {
                return true;
            }
            j = j + 1;
        }
        false
    }

    pub fn metadata_offset(&self) -> (r: u16)
        ensures
            r == self.inst_size,
    {
        self.inst_size
    }
}


/// `s` with every `/` replaced by `_`.
pub open spec fn slashes_to_underscores(s: Seq<u8>) -> Seq<u8> {
    s.map_values(|c: u8| if c == 47u8 {
        95u8
    } else {
        c
    })
}

/// Whether a method takes a dispatch-table slot: not private, not static,
/// and not a constructor (`ctor` is the symbol `<init>`).
pub open spec fn is_member(m: Method, ctor: usize) -> bool {
    !m.spec_is_private() && !m.spec_is_static() && m.name != ctor
}

/// Index of the first slot-taking method of `ms` with this name and
/// descriptor, or -1.
pub open spec fn own_idx(ms: Seq<Method>, name: usize, desc: usize, ctor: usize) -> int
    decreases ms.len(),
{
    if ms.len() == 0 {
        -1
    } else {
        let r = own_idx(ms.drop_last(), name, desc, ctor);
        if r >= 0 {
            r
        } else if is_member(ms.last(), ctor) && ms.last().name == name && ms.last().descriptor
            == desc {
            ms.len() - 1
        } else {
            -1
        }
    }
}

/// The most-derived slot-taking method with this name and descriptor along
/// the superclass chain starting at class `c`.
pub open spec fn most_derived(
    classes: Seq<ClassData>,
    ctor: usize,
    c: int,
    name: usize,
    desc: usize,
) -> Option<VEntry>
    decreases c,
{
    if c < 0 || c >= classes.len() {
        None
    } else {
        let k = own_idx(classes[c].methods@, name, desc, ctor);
        if k >= 0 {
            Some(VEntry { cls: c as usize, idx: k as usize, name, desc })
        } else {
            match classes[c].super_class {
                Some(p) => if p < c {
                    most_derived(classes, ctor, p as int, name, desc)
                } else {
                    None
                },
                None => None,
            }
        }
    }
}

/// Sizes fit in `usize`, as they do for values held in memory.
pub open spec fn classes_bounded(classes: Seq<ClassData>) -> bool {
    &&& classes.len() <= usize::MAX
    &&& forall|c: int| 0 <= c < classes.len() ==> (#[trigger] classes[c]).methods@.len() <= usize::MAX
}

/// The entry names an existing method and carries its symbols.
pub open spec fn entry_ok(classes: Seq<ClassData>, e: VEntry) -> bool {
    &&& e.cls < classes.len()
    &&& e.idx < classes[e.cls as int].methods@.len()
    &&& classes[e.cls as int].methods@[e.idx as int].name == e.name
    &&& classes[e.cls as int].methods@[e.idx as int].descriptor == e.desc
}

/// Some slot of `v` has this name and descriptor.
pub open spec fn has_slot(v: Seq<VEntry>, name: usize, desc: usize) -> bool {
    exists|j: int| 0 <= j < v.len() && (#[trigger] v[j]).name == name && v[j].desc == desc
}

/// No two slots share a name and descriptor.
pub open spec fn distinct_sigs(v: Seq<VEntry>) -> bool {
    forall|i: int, j: int|
        0 <= i < v.len() && 0 <= j < v.len() && i != j ==> (#[trigger] v[i]).name != (#[trigger] v[j]).name
            || v[i].desc != v[j].desc
}

/// The dispatch table `v` of class `c` is correct: every slot whose
/// signature is declared along the superclass chain holds the most-derived
/// such method, every such signature has a slot, and slots are unique.
pub open spec fn vtab_ok(classes: Seq<ClassData>, ctor: usize, c: int, v: Seq<VEntry>) -> bool {
    &&& forall|i: int| 0 <= i < v.len() ==> entry_ok(classes, #[trigger] v[i])
    &&& distinct_sigs(v)
    &&& forall|i: int|
        0 <= i < v.len() ==> agrees(#[trigger] most_derived(classes, ctor, c, v[i].name, v[i].desc), v[i])
    &&& forall|name: usize, desc: usize|
        (#[trigger] most_derived(classes, ctor, c, name, desc)) is Some ==> has_slot(v, name, desc)
}

/// Where `md` names a method, it is `e`.
pub open spec fn agrees(md: Option<VEntry>, e: VEntry) -> bool {
    md is Some ==> md.unwrap() == e
}

/// The slots of `a` keep their signatures at the same indices in `b`.
pub open spec fn sig_prefix(a: Seq<VEntry>, b: Seq<VEntry>) -> bool {
    &&& a.len() <= b.len()
    &&& forall|i: int| 0 <= i < a.len() ==> (#[trigger] b[i]).name == a[i].name && b[i].desc == a[i].desc
}

/// Own slot-taking methods of `ms` have distinct signatures.
pub open spec fn own_sigs_distinct(ms: Seq<Method>, ctor: usize) -> bool {
    forall|i: int, j: int|
        0 <= i < ms.len() && 0 <= j < ms.len() && i != j && is_member(#[trigger] ms[i], ctor)
            && is_member(#[trigger] ms[j], ctor) ==> ms[i].name != ms[j].name || ms[i].descriptor
            != ms[j].descriptor
}

pub proof fn lemma_own_idx(ms: Seq<Method>, name: usize, desc: usize, ctor: usize)
    ensures
        own_idx(ms, name, desc, ctor) >= 0 ==> {
            let k = own_idx(ms, name, desc, ctor);
            &&& k < ms.len()
            &&& is_member(ms[k], ctor)
            &&& ms[k].name == name
            &&& ms[k].descriptor == desc
        },
        own_idx(ms, name, desc, ctor) < 0 ==> forall|k: int|
            0 <= k < ms.len() && is_member(#[trigger] ms[k], ctor) ==> ms[k].name != name
                || ms[k].descriptor != desc,
        own_idx(ms, name, desc, ctor) >= -1,
    decreases ms.len(),
{
    if ms.len() > 0 {
        lemma_own_idx(ms.drop_last(), name, desc, ctor);
        assert forall|k: int| 0 <= k < ms.len() - 1 implies ms.drop_last()[k] == ms[k] by {}
    }
}

/// With distinct own signatures, a slot-taking method is the one `own_idx`
/// finds for its own signature.
pub proof fn lemma_own_idx_unique(ms: Seq<Method>, k: int, ctor: usize)
    requires
        own_sigs_distinct(ms, ctor),
        0 <= k < ms.len(),
        is_member(ms[k], ctor),
    ensures
        own_idx(ms, ms[k].name, ms[k].descriptor, ctor) == k,
{
    lemma_own_idx(ms, ms[k].name, ms[k].descriptor, ctor);
    let j = own_idx(ms, ms[k].name, ms[k].descriptor, ctor);
    if j < 0 {
        assert(is_member(ms[k], ctor));
    } else if j != k {
        assert(is_member(ms[j], ctor));
    }
}

/// Index of the first slot with this name and descriptor.
pub fn find_slot(v: &Vec<VEntry>, name: usize, desc: usize) -> (r: Option<usize>)
    ensures
        r matches Some(i) ==> i < v@.len() && v@[i as int].name == name && v@[i as int].desc == desc
            && forall|j: int| 0 <= j < i ==> (#[trigger] v@[j]).name != name || v@[j].desc != desc,
        r is None ==> !has_slot(v@, name, desc),
{
    let mut i: usize = 0;
    while i < v.len()
        invariant
            0 <= i <= v@.len(),
            forall|j: int| 0 <= j < i ==> (#[trigger] v@[j]).name != name || v@[j].desc != desc,
        decreases v@.len() - i,
    {
        if v[i].name == name && v[i].desc == desc {
            return Some(i);
        }
        i = i + 1;
    }
    None
}

/// Index of the first slot-taking method of `ms` with this signature.
pub fn find_own(ms: &Vec<Method>, name: usize, desc: usize, ctor: usize) -> (r: Option<usize>)
    ensures
        r matches Some(k) ==> k == own_idx(ms@, name, desc, ctor),
        r is None ==> own_idx(ms@, name, desc, ctor) < 0,
{
    let mut k: usize = 0;
    while k < ms.len()
        invariant
            0 <= k <= ms@.len(),
            own_idx(ms@.subrange(0, k as int), name, desc, ctor) < 0,
        decreases ms@.len() - k,
    {
        let m = &ms[k];
        proof {
            assert(ms@.subrange(0, k + 1).drop_last() =~= ms@.subrange(0, k as int));
        }
        if !m.is_private() && !m.is_static() && m.name != ctor && m.name == name && m.descriptor
            == desc {
            proof {
                lemma_own_idx_prefix(ms@, k as int + 1, name, desc, ctor);
            }
            return Some(k);
        }
        k = k + 1;
    }
    assert(ms@.subrange(0, ms@.len() as int) =~= ms@);
    None
}

/// `own_idx` of a prefix that already finds a method agrees with the whole.
pub proof fn lemma_own_idx_prefix(ms: Seq<Method>, n: int, name: usize, desc: usize, ctor: usize)
    requires
        0 <= n <= ms.len(),
        own_idx(ms.subrange(0, n), name, desc, ctor) >= 0,
    ensures
        own_idx(ms, name, desc, ctor) == own_idx(ms.subrange(0, n), name, desc, ctor),
    decreases ms.len() - n,
{
    if n == ms.len() {
        assert(ms.subrange(0, n) =~= ms);
    } else {
        assert(ms.subrange(0, n + 1).drop_last() =~= ms.subrange(0, n));
        lemma_own_idx_prefix(ms, n + 1, name, desc, ctor);
    }
}

/// The dispatch table of class `c` of `classes`, built from its superclass's
/// table `sup` (empty for a root class): inherited slots are overridden by
/// own methods of the same signature, new signatures are appended in
/// declaration order.
pub fn build_class_vtab(
    classes: &Vec<ClassData>,
    c: usize,
    sup: &Vec<VEntry>,
    ctor: usize,
) -> (r: Vec<VEntry>)
    requires
        c < classes@.len(),
        own_sigs_distinct(classes@[c as int].methods@, ctor),
        match classes@[c as int].super_class {
            Some(p) => p < c && vtab_ok(classes@, ctor, p as int, sup@),
            None => sup@.len() == 0,
        },
    ensures
        vtab_ok(classes@, ctor, c as int, r@),
        sig_prefix(sup@, r@),
        forall|j: int| sup@.len() <= j < r@.len() ==> (#[trigger] r@[j]).cls == c && is_member(
            classes@[c as int].methods@[r@[j].idx as int],
            ctor,
        ) && !has_slot(sup@, r@[j].name, r@[j].desc),
        forall|j: int, l: int| sup@.len() <= j < l < r@.len() ==> (#[trigger] r@[j]).idx < (#[trigger] r@[l]).idx,
{
    let ghost cs = classes@;
    let ghost ms = classes@[c as int].methods@;
    let ms_ref = &classes[c].methods;
    let mut v: Vec<VEntry> = Vec::new();
    let mut i: usize = 0;
    while i < sup.len()
        invariant
            c < cs.len(),
            cs == classes@,
            ms == cs[c as int].methods@,
            ms_ref@ == ms,
            0 <= i <= sup@.len(),
            v@.len() == i,
            forall|j: int|
                0 <= j < i ==> (#[trigger] v@[j]) == (if own_idx(ms, sup@[j].name, sup@[j].desc, ctor)
                    >= 0 {
                    VEntry {
                        cls: c,
                        idx: own_idx(ms, sup@[j].name, sup@[j].desc, ctor) as usize,
                        name: sup@[j].name,
                        desc: sup@[j].desc,
                    }
                } else {
                    sup@[j]
                }),
        decreases sup@.len() - i,
    {
        let e = sup[i];
        match find_own(ms_ref, e.name, e.desc, ctor) {
            Some(k) => v.push(VEntry { cls: c, idx: k, name: e.name, desc: e.desc }),
            None => v.push(e),
        }
        i = i + 1;
    }
    let mut k: usize = 0;
    while k < ms_ref.len()
        invariant
            c < cs.len(),
            cs == classes@,
            ms == cs[c as int].methods@,
            ms_ref@ == ms,
            own_sigs_distinct(ms, ctor),
            0 <= k <= ms.len(),
            v@.len() >= sup@.len(),
            forall|j: int|
                0 <= j < sup@.len() ==> (#[trigger] v@[j]) == (if own_idx(
                    ms,
                    sup@[j].name,
                    sup@[j].desc,
                    ctor,
                ) >= 0 {
                    VEntry {
                        cls: c,
                        idx: own_idx(ms, sup@[j].name, sup@[j].desc, ctor) as usize,
                        name: sup@[j].name,
                        desc: sup@[j].desc,
                    }
                } else {
                    sup@[j]
                }),
            forall|j: int|
                sup@.len() <= j < v@.len() ==> {
                    let e = #[trigger] v@[j];
                    &&& e.cls == c
                    &&& e.idx < k
                    &&& is_member(ms[e.idx as int], ctor)
                    &&& e.name == ms[e.idx as int].name
                    &&& e.desc == ms[e.idx as int].descriptor
                    &&& !has_slot(sup@, e.name, e.desc)
                },
            forall|j: int, l: int|
                sup@.len() <= j < l < v@.len() ==> (#[trigger] v@[j]).idx < (#[trigger] v@[l]).idx,
            forall|q: int|
                0 <= q < k && is_member(#[trigger] ms[q], ctor) && !has_slot(
                    sup@,
                    ms[q].name,
                    ms[q].descriptor,
                ) ==> has_slot(v@, ms[q].name, ms[q].descriptor),
        decreases ms.len() - k,
    {
        let m = &ms_ref[k];
        if !m.is_private() && !m.is_static() && m.name != ctor {
            if find_slot(sup, m.name, m.descriptor).is_none() {
                let ghost before = v@;
                v.push(VEntry { cls: c, idx: k, name: m.name, desc: m.descriptor });
                proof {
                    assert(v@[v@.len() - 1].name == ms[k as int].name);
                    assert forall|q: int|
                        0 <= q < k + 1 && is_member(#[trigger] ms[q], ctor) && !has_slot(
                            sup@,
                            ms[q].name,
                            ms[q].descriptor,
                        ) implies has_slot(v@, ms[q].name, ms[q].descriptor) by {
                        if q < k {
                            let j = choose|j: int| 0 <= j < before.len() && (#[trigger] before[j]).name == ms[q].name && before[j].desc == ms[q].descriptor;
                            assert(v@[j] == before[j]);
                        } else {
                            assert(v@[before.len() as int].name == ms[q].name);
                        }
                    }
                }
            }
        }
        k = k + 1;
    }
    proof {
        let vv = v@;
        let p = classes@[c as int].super_class;
        // every slot is a valid entry
        assert forall|i: int| 0 <= i < vv.len() implies entry_ok(cs, #[trigger] vv[i]) by {
            if i < sup@.len() {
                lemma_own_idx(ms, sup@[i].name, sup@[i].desc, ctor);
                if own_idx(ms, sup@[i].name, sup@[i].desc, ctor) < 0 {
                    assert(entry_ok(cs, sup@[i]));
                }
            }
        }
        // each slot holds the most-derived method of its signature
        assert forall|i: int|
            0 <= i < vv.len() implies agrees(#[trigger] most_derived(cs, ctor, c as int, vv[i].name, vv[i].desc), vv[i]) by {
            if i < sup@.len() {
                let s = sup@[i];
                lemma_own_idx(ms, s.name, s.desc, ctor);
                assert(vv[i].name == s.name && vv[i].desc == s.desc);
                if own_idx(ms, s.name, s.desc, ctor) < 0 {
                    let pp = p.unwrap();
                    assert(most_derived(cs, ctor, c as int, s.name, s.desc) == most_derived(cs, ctor, pp as int, s.name, s.desc));
                    assert(vtab_ok(cs, ctor, pp as int, sup@));
                    assert(agrees(most_derived(cs, ctor, pp as int, sup@[i].name, sup@[i].desc), sup@[i]));
                }
            } else {
                lemma_own_idx_unique(ms, vv[i].idx as int, ctor);
            }
        }
        // every declared signature has a slot
        assert forall|name: usize, desc: usize|
            (#[trigger] most_derived(cs, ctor, c as int, name, desc)) is Some implies has_slot(vv, name, desc) by {
            lemma_own_idx(ms, name, desc, ctor);
            let k0 = own_idx(ms, name, desc, ctor);
            if k0 >= 0 {
                if has_slot(sup@, name, desc) {
                    let j = choose|j: int| 0 <= j < sup@.len() && (#[trigger] sup@[j]).name == name && sup@[j].desc == desc;
                    assert(vv[j].name == name && vv[j].desc == desc);
                } else {
                    assert(is_member(ms[k0], ctor));
                }
            } else {
                let pp = p.unwrap();
                assert(most_derived(cs, ctor, pp as int, name, desc) is Some);
                assert(has_slot(sup@, name, desc));
                let j = choose|j: int| 0 <= j < sup@.len() && (#[trigger] sup@[j]).name == name && sup@[j].desc == desc;
                assert(vv[j].name == name && vv[j].desc == desc);
            }
        }
        // signatures are distinct
        assert forall|i: int, j: int|
            0 <= i < vv.len() && 0 <= j < vv.len() && i != j implies (#[trigger] vv[i]).name != (#[trigger] vv[j]).name || vv[i].desc != vv[j].desc by {
            if i < sup@.len() && j < sup@.len() {
                assert(sup@[i].name != sup@[j].name || sup@[i].desc != sup@[j].desc);
            } else if i < sup@.len() && j >= sup@.len() {
                if vv[i].name == vv[j].name && vv[i].desc == vv[j].desc {
                    assert(sup@[i].name == vv[j].name && sup@[i].desc == vv[j].desc);
                }
            } else if i >= sup@.len() && j < sup@.len() {
                if vv[i].name == vv[j].name && vv[i].desc == vv[j].desc {
                    assert(sup@[j].name == vv[i].name && sup@[j].desc == vv[i].desc);
                }
            } else {
                assert(vv[i].idx != vv[j].idx);
                assert(is_member(ms[vv[i].idx as int], ctor));
                assert(is_member(ms[vv[j].idx as int], ctor));
            }
        }
    }
    v
}

/// The interface table is correct for dispatch table `v`: for interface
/// `ifs[j]`, `idxs[j][k]` is the slot of `v` that has the name and
/// descriptor of the interface's method `k`.
pub open spec fn itable_ok(
    classes: Seq<ClassData>,
    v: Seq<VEntry>,
    ifs: Seq<usize>,
    idxs: Seq<Vec<usize>>,
) -> bool {
    &&& ifs.len() == idxs.len()
    &&& forall|j: int|
        0 <= j < ifs.len() ==> {
            &&& (#[trigger] ifs[j]) < classes.len()
            &&& idxs[j]@.len() == classes[ifs[j] as int].methods@.len()
            &&& forall|k: int|
                0 <= k < idxs[j]@.len() ==> {
                    let x = (#[trigger] idxs[j]@[k]) as int;
                    &&& x < v.len()
                    &&& v[x].name == classes[ifs[j] as int].methods@[k].name
                    &&& v[x].desc == classes[ifs[j] as int].methods@[k].descriptor
                }
        }
}

/// Every class's interfaces are registered before it.
pub open spec fn interfaces_earlier(classes: Seq<ClassData>) -> bool {
    forall|d: int, j: int|
        0 <= d < classes.len() && 0 <= j < classes[d].interfaces@.len() ==> (#[trigger] classes[d].interfaces@[j]) < d
}

/// `x` is interface `i` or one of its superinterfaces.
pub open spec fn in_closure(classes: Seq<ClassData>, i: int, x: usize) -> bool
    decreases i,
{
    0 <= i < classes.len() && (x == i || exists|k: int|
        0 <= k < classes[i].interfaces@.len() && (#[trigger] classes[i].interfaces@[k]) < i && in_closure(
            classes,
            classes[i].interfaces@[k] as int,
            x,
        ))
}

/// `x` is an interface that class `c` declares, or a superinterface of one.
pub open spec fn declared_closure(classes: Seq<ClassData>, c: int, x: usize) -> bool {
    exists|k: int|
        0 <= k < classes[c].interfaces@.len() && in_closure(classes, (#[trigger] classes[c].interfaces@[k]) as int, x)
}

/// Adds interface `i` and its superinterfaces to `out`.
pub fn collect_interfaces(classes: &Vec<ClassData>, i: usize, out: &mut Vec<usize>)
    requires
        i < classes@.len(),
        interfaces_earlier(classes@),
        forall|t: int| 0 <= t < old(out)@.len() ==> (#[trigger] old(out)@[t]) < classes@.len(),
    ensures
        forall|t: int| 0 <= t < final(out)@.len() ==> (#[trigger] final(out)@[t]) < classes@.len(),
        forall|x: usize| #[trigger] final(out)@.contains(x) <==> (old(out)@.contains(x) || in_closure(classes@, i as int, x)),
    decreases i,
{
    let ghost o = out@;
    out.push(i);
    proof {
        assert forall|x: usize| #[trigger] out@.contains(x) <==> (o.contains(x) || x == i) by {
            if out@.contains(x) && x != i {
                let t = choose|t: int| 0 <= t < out@.len() && out@[t] == x;
                assert(t < o.len());
                assert(o[t] == x);
            }
            if o.contains(x) {
                let t = choose|t: int| 0 <= t < o.len() && o[t] == x;
                assert(out@[t] == x);
            }
            if x == i {
                assert(out@[o.len() as int] == x);
            }
        }
    }
    let sups = &classes[i].interfaces;
    let mut k: usize = 0;
    while k < sups.len()
        invariant
            i < classes@.len(),
            interfaces_earlier(classes@),
            sups@ == classes@[i as int].interfaces@,
            0 <= k <= sups@.len(),
            forall|t: int| 0 <= t < out@.len() ==> (#[trigger] out@[t]) < classes@.len(),
            forall|x: usize| #[trigger] out@.contains(x) <==> (o.contains(x) || x == i || exists|q: int|
                0 <= q < k && in_closure(classes@, (#[trigger] sups@[q]) as int, x)),
        decreases sups@.len() - k,
    {
        let j = sups[k];
        assert(classes@[i as int].interfaces@[k as int] < i);
        let ghost before = out@;
        collect_interfaces(classes, j, out);
        proof {
            assert forall|x: usize| #[trigger] out@.contains(x) <==> (o.contains(x) || x == i || exists|q: int|
                0 <= q < k + 1 && in_closure(classes@, (#[trigger] sups@[q]) as int, x)) by {
                if exists|q: int| 0 <= q < k + 1 && in_closure(classes@, (#[trigger] sups@[q]) as int, x) {
                    let q = choose|q: int| 0 <= q < k + 1 && in_closure(classes@, (#[trigger] sups@[q]) as int, x);
                    if q < k {
                        assert(before.contains(x));
                    }
                }
                if before.contains(x) && !o.contains(x) && x != i {
                    let q = choose|q: int| 0 <= q < k && in_closure(classes@, (#[trigger] sups@[q]) as int, x);
                    assert(0 <= q < k + 1);
                }
            }
        }
        k = k + 1;
    }
    proof {
        assert forall|x: usize| #[trigger] out@.contains(x) <==> (o.contains(x) || in_closure(classes@, i as int, x)) by {
            if in_closure(classes@, i as int, x) && x != i {
                let q = choose|q: int|
                    0 <= q < classes@[i as int].interfaces@.len() && (#[trigger] classes@[i as int].interfaces@[q]) < i
                        && in_closure(classes@, classes@[i as int].interfaces@[q] as int, x);
                assert(in_closure(classes@, (sups@[q]) as int, x));
            }
            if exists|q: int| 0 <= q < k && in_closure(classes@, (#[trigger] sups@[q]) as int, x) {
                let q = choose|q: int| 0 <= q < k && in_closure(classes@, (#[trigger] sups@[q]) as int, x);
                assert(classes@[i as int].interfaces@[q] < i);
            }
        }
    }
}

/// The interfaces of class `c` with all their superinterfaces.
pub fn interface_closure(classes: &Vec<ClassData>, c: usize) -> (r: Vec<usize>)
    requires
        c < classes@.len(),
        interfaces_earlier(classes@),
    ensures
        forall|t: int| 0 <= t < r@.len() ==> (#[trigger] r@[t]) < classes@.len(),
        forall|x: usize| #[trigger] r@.contains(x) <==> declared_closure(classes@, c as int, x),
{
    let decl = &classes[c].interfaces;
    let mut out: Vec<usize> = Vec::new();
    let mut k: usize = 0;
    while k < decl.len()
        invariant
            c < classes@.len(),
            interfaces_earlier(classes@),
            decl@ == classes@[c as int].interfaces@,
            0 <= k <= decl@.len(),
            forall|t: int| 0 <= t < out@.len() ==> (#[trigger] out@[t]) < classes@.len(),
            forall|x: usize| #[trigger] out@.contains(x) <==> exists|q: int|
                0 <= q < k && in_closure(classes@, (#[trigger] decl@[q]) as int, x),
        decreases decl@.len() - k,
    {
        assert(decl@[k as int] < c);
        let ghost before = out@;
        collect_interfaces(classes, decl[k], &mut out);
        proof {
            assert forall|x: usize| #[trigger] out@.contains(x) <==> exists|q: int|
                0 <= q < k + 1 && in_closure(classes@, (#[trigger] decl@[q]) as int, x) by {
                if exists|q: int| 0 <= q < k + 1 && in_closure(classes@, (#[trigger] decl@[q]) as int, x) {
                    let q = choose|q: int| 0 <= q < k + 1 && in_closure(classes@, (#[trigger] decl@[q]) as int, x);
                    if q < k {
                        assert(before.contains(x));
                    }
                }
                if before.contains(x) {
                    let q = choose|q: int| 0 <= q < k && in_closure(classes@, (#[trigger] decl@[q]) as int, x);
                    assert(0 <= q < k + 1);
                }
            }
        }
        k = k + 1;
    }
    out
}

/// Extends the dispatch table `v0` of class `c` with the methods of each
/// interface of `c` (declared or inherited by a declared interface) that no
/// slot has yet, and records for every interface method the slot that
/// serves it.
pub fn build_itable(
    classes: &Vec<ClassData>,
    c: usize,
    v0: Vec<VEntry>,
    ctor: usize,
) -> (r: (Vec<VEntry>, Vec<usize>, Vec<Vec<usize>>))
    requires
        c < classes@.len(),
        classes_bounded(classes@),
        vtab_ok(classes@, ctor, c as int, v0@),
        interfaces_earlier(classes@),
    ensures
        vtab_ok(classes@, ctor, c as int, r.0@),
        sig_prefix(v0@, r.0@),
        forall|x: usize| #[trigger] r.1@.contains(x) <==> declared_closure(classes@, c as int, x),
        itable_ok(classes@, r.0@, r.1@, r.2@),
{
    let ghost cs = classes@;
    let all = interface_closure(classes, c);
    let ifaces = &all;
    let mut v = v0;
    let mut ifs: Vec<usize> = Vec::new();
    let mut idxs: Vec<Vec<usize>> = Vec::new();
    let mut j: usize = 0;
    while j < ifaces.len()
        invariant
            cs == classes@,
            c < cs.len(),
            classes_bounded(cs),
            forall|x: usize| #[trigger] ifaces@.contains(x) <==> declared_closure(cs, c as int, x),
            forall|t: int| 0 <= t < ifaces@.len() ==> (#[trigger] ifaces@[t]) < cs.len(),
            0 <= j <= ifaces@.len(),
            vtab_ok(cs, ctor, c as int, v@),
            sig_prefix(v0@, v@),
            ifs@ == ifaces@.subrange(0, j as int),
            itable_ok(cs, v@, ifs@, idxs@),
        decreases ifaces@.len() - j,
    {
        let iface = ifaces[j];
        let ims = &classes[iface].methods;
        let mut row: Vec<usize> = Vec::new();
        let mut k: usize = 0;
        let ghost vj = v@;
        while k < ims.len()
            invariant
                cs == classes@,
                c < cs.len(),
                classes_bounded(cs),
                iface < cs.len(),
                ims@ == cs[iface as int].methods@,
                0 <= k <= ims@.len(),
                vtab_ok(cs, ctor, c as int, v@),
                sig_prefix(v0@, v@),
                sig_prefix(vj, v@),
                row@.len() == k,
                forall|q: int|
                    0 <= q < k ==> {
                        let x = (#[trigger] row@[q]) as int;
                        &&& x < v@.len()
                        &&& v@[x].name == ims@[q].name
                        &&& v@[x].desc == ims@[q].descriptor
                    },
            decreases ims@.len() - k,
        {
            let m = &ims[k];
            match find_slot(&v, m.name, m.descriptor) {
                Some(x) => {
                    row.push(x);
                },
                None => {
                    let ghost before = v@;
                    let n = v.len();
                    row.push(n);
                    v.push(VEntry { cls: iface, idx: k, name: m.name, desc: m.descriptor });
                    proof {
                        let vv = v@;
                        assert forall|i: int| 0 <= i < vv.len() implies entry_ok(cs, #[trigger] vv[i]) by {
                            if i < before.len() {
                                assert(vv[i] == before[i]);
                            }
                        }
                        assert forall|i: int|
                            0 <= i < vv.len() implies agrees(#[trigger] most_derived(cs, ctor, c as int, vv[i].name, vv[i].desc), vv[i]) by {
                            if i < before.len() {
                                assert(vv[i] == before[i]);
                            } else {
                                if most_derived(cs, ctor, c as int, vv[i].name, vv[i].desc) is Some {
                                    assert(has_slot(before, m.name, m.descriptor));
                                }
                            }
                        }
                        assert forall|name: usize, desc: usize|
                            (#[trigger] most_derived(cs, ctor, c as int, name, desc)) is Some implies has_slot(vv, name, desc) by {
                            assert(has_slot(before, name, desc));
                            let w = choose|w: int| 0 <= w < before.len() && (#[trigger] before[w]).name == name && before[w].desc == desc;
                            assert(vv[w] == before[w]);
                        }
                        assert forall|a: int, b: int|
                            0 <= a < vv.len() && 0 <= b < vv.len() && a != b implies (#[trigger] vv[a]).name != (#[trigger] vv[b]).name || vv[a].desc != vv[b].desc by {
                            if a < before.len() && b < before.len() {
                                assert(vv[a] == before[a] && vv[b] == before[b]);
                            } else if a < before.len() {
                                assert(vv[a] == before[a]);
                            } else if b < before.len() {
                                assert(vv[b] == before[b]);
                            }
                        }
                    }
                },
            }
            k = k + 1;
        }
        let ghost before_ifs = ifs@;
        let ghost before_idxs = idxs@;
        ifs.push(iface);
        idxs.push(row);
        proof {
            assert(ifs@ =~= ifaces@.subrange(0, j + 1));
            assert forall|t: int| 0 <= t < ifs@.len() implies {
                &&& (#[trigger] ifs@[t]) < cs.len()
                &&& idxs@[t]@.len() == cs[ifs@[t] as int].methods@.len()
                &&& forall|q: int|
                    0 <= q < idxs@[t]@.len() ==> {
                        let x = (#[trigger] idxs@[t]@[q]) as int;
                        &&& x < v@.len()
                        &&& v@[x].name == cs[ifs@[t] as int].methods@[q].name
                        &&& v@[x].desc == cs[ifs@[t] as int].methods@[q].descriptor
                    }
            } by {
                if t < before_ifs.len() {
                    assert(ifs@[t] == before_ifs[t]);
                    assert(idxs@[t] == before_idxs[t]);
                    assert forall|q: int| 0 <= q < idxs@[t]@.len() implies {
                        let x = (#[trigger] idxs@[t]@[q]) as int;
                        &&& x < v@.len()
                        &&& v@[x].name == cs[ifs@[t] as int].methods@[q].name
                        &&& v@[x].desc == cs[ifs@[t] as int].methods@[q].descriptor
                    } by {
                        let x = idxs@[t]@[q] as int;
                        assert(x < vj.len());
                        assert(v@[x].name == vj[x].name);
                    }
                }
            }
        }
        j = j + 1;
    }
    proof {
        assert(ifs@ =~= ifaces@.subrange(0, ifaces@.len() as int));
        assert(ifs@ =~= ifaces@);
    }
    (v, ifs, idxs)
}
} // verus!
