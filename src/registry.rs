//! The class registry: every loaded class by name, with its dispatch tables
//! and its place in the link and initialization life cycle.
use vstd::prelude::*;
use crate::class::{in_closure, declared_closure, interface_closure, ClassData, ClassState, VEntry, agrees, classes_bounded, entry_ok, has_slot, is_member, itable_ok, most_derived, own_sigs_distinct, sig_prefix, vtab_ok, build_class_vtab, build_itable, find_slot};
use crate::method::Method;
use crate::field::Field;
use crate::symbol::{SymbolTable, intern_spec, lemma_intern_spec, distinct};
use crate::hash_table::MAX_CAPACITY;

verus! {

/// Why a class could not be loaded or linked.
#[derive(Clone, Copy, Debug, PartialEq, Eq, Structural)]
pub enum ClassLoadErr {
    /// The bytes do not start with the class-file magic number.
    InvalidMagic,
    /// The major version is outside 45..57.
    UnsupportedVersion,
    /// The bytes end inside a structure.
    Truncated,
    /// A field or method descriptor is malformed.
    MalformedDescriptor,
    /// A constant-pool index names no entry of the needed kind.
    BadConstantIndex,
    /// A constant-pool entry has an unknown tag.
    BadConstantTag,
    /// A class attribute the loader does not know.
    UnknownAttribute,
    /// Any other structural error (limits, code length, exception table).
    InvalidFormat,
    VerifyFailed,
    ClassLoaderInvalidLockState,
}

/// Why a method reference could not be resolved.
#[derive(Clone, Copy, Debug, PartialEq, Eq, Structural)]
pub enum MethodResolutionError {
    IncompatibleClassChange,
    NoSuchMethod,
    AbstractMethod,
    IllegalAccess,
}

/// Why a class could not be initialized.
#[derive(Clone, Copy, Debug, PartialEq, Eq, Structural)]
pub enum InitializationError {
    ResolveError(MethodResolutionError),
    LinkingFailed,
}

/// What initializing a class asks of the interpreter.
#[derive(Clone, Copy, Debug, PartialEq, Eq, Structural)]
pub enum InitAction {
    /// Nothing to run: the class is initialized or being initialized.
    Done,
    /// Run the initializer method `idx` of the class, then report back.
    RunClinit(usize),
}

pub proof fn lemma_own_idx_push(cs: Seq<ClassData>, x: ClassData, ctor: usize, c: int, name: usize, desc: usize)
    requires
        0 <= c < cs.len(),
    ensures
        most_derived(cs.push(x), ctor, c, name, desc) == most_derived(cs, ctor, c, name, desc),
    decreases c,
{
    assert(cs.push(x)[c] == cs[c]);
    match cs[c].super_class {
        Some(p) => if p < c {
            lemma_own_idx_push(cs, x, ctor, p as int, name, desc);
        },
        None => {},
    }
}

/// Class `c` or one of its ancestors declares interface `iface` or an
/// interface that extends it.
pub open spec fn implements(classes: Seq<ClassData>, c: int, iface: usize) -> bool
    decreases c,
{
    if c < 0 || c >= classes.len() {
        false
    } else if declared_closure(classes, c, iface) {
        true
    } else {
        match classes[c].super_class {
            Some(p) => if p < c {
                implements(classes, p as int, iface)
            } else {
                false
            },
            None => false,
        }
    }
}

/// Class `t` is `c` or has `c` among its ancestors.
pub open spec fn subclass_of(classes: Seq<ClassData>, t: int, c: int) -> bool
    decreases t,
{
    if t == c {
        true
    } else if t < 0 || t >= classes.len() {
        false
    } else {
        match classes[t].super_class {
            Some(p) => if p < t {
                subclass_of(classes, p as int, c)
            } else {
                false
            },
            None => false,
        }
    }
}

/// Class data that may join a registry as class `id`: a well-formed
/// constant pool, distinct signatures of slot-taking methods, superclass and
/// interfaces registered before it, and methods that point back to it.
pub open spec fn class_ok(data: ClassData, id: usize, ctor: usize) -> bool {
    &&& data.cp.wf()
    &&& own_sigs_distinct(data.methods@, ctor)
    &&& (data.super_class matches Some(p) ==> p < id)
    &&& forall|j: int| 0 <= j < data.interfaces@.len() ==> (#[trigger] data.interfaces@[j]) < id
    &&& forall|k: int| 0 <= k < data.methods@.len() ==> (#[trigger] data.methods@[k]).decl_cls == id
}

/// Interface `i` declares a method with this name and descriptor.
pub open spec fn declares(classes: Seq<ClassData>, i: int, name: usize, desc: usize) -> bool {
    0 <= i < classes.len() && exists|k: int|
        0 <= k < classes[i].methods@.len() && (#[trigger] classes[i].methods@[k]).name == name
            && classes[i].methods@[k].descriptor == desc
}

pub proof fn lemma_closure_push(cs: Seq<ClassData>, d: ClassData, i: int, x: usize)
    requires
        0 <= i < cs.len(),
    ensures
        in_closure(cs.push(d), i, x) == in_closure(cs, i, x),
    decreases i,
{
    let ns = cs.push(d);
    assert(ns[i] == cs[i]);
    assert forall|k: int|
        0 <= k < cs[i].interfaces@.len() && (#[trigger] cs[i].interfaces@[k]) < i implies in_closure(ns, cs[i].interfaces@[k] as int, x)
            == in_closure(cs, cs[i].interfaces@[k] as int, x) by {
        if cs[i].interfaces@[k] >= 0 {
            lemma_closure_push(cs, d, cs[i].interfaces@[k] as int, x);
        }
    }
    if in_closure(ns, i, x) && x != i {
        let k = choose|k: int|
            0 <= k < ns[i].interfaces@.len() && (#[trigger] ns[i].interfaces@[k]) < i && in_closure(ns, ns[i].interfaces@[k] as int, x);
        assert(in_closure(cs, cs[i].interfaces@[k] as int, x));
    }
    if in_closure(cs, i, x) && x != i {
        let k = choose|k: int|
            0 <= k < cs[i].interfaces@.len() && (#[trigger] cs[i].interfaces@[k]) < i && in_closure(cs, cs[i].interfaces@[k] as int, x);
        assert(in_closure(ns, ns[i].interfaces@[k] as int, x));
    }
}

pub proof fn lemma_declared_closure_push(cs: Seq<ClassData>, d: ClassData, c: int, x: usize)
    requires
        0 <= c < cs.len(),
        forall|j: int| 0 <= j < cs[c].interfaces@.len() ==> (#[trigger] cs[c].interfaces@[j]) < c,
    ensures
        declared_closure(cs.push(d), c, x) == declared_closure(cs, c, x),
{
    let ns = cs.push(d);
    assert(ns[c] == cs[c]);
    assert forall|k: int| 0 <= k < cs[c].interfaces@.len() implies in_closure(ns, (#[trigger] cs[c].interfaces@[k]) as int, x)
        == in_closure(cs, cs[c].interfaces@[k] as int, x) by {
        lemma_closure_push(cs, d, cs[c].interfaces@[k] as int, x);
    }
    if declared_closure(ns, c, x) {
        let k = choose|k: int| 0 <= k < ns[c].interfaces@.len() && in_closure(ns, (#[trigger] ns[c].interfaces@[k]) as int, x);
        assert(in_closure(cs, (cs[c].interfaces@[k]) as int, x));
    }
    if declared_closure(cs, c, x) {
        let k = choose|k: int| 0 <= k < cs[c].interfaces@.len() && in_closure(cs, (#[trigger] cs[c].interfaces@[k]) as int, x);
        assert(in_closure(ns, (ns[c].interfaces@[k]) as int, x));
    }
}

/// A value of class `target` may be stored where `c` is expected: the same
/// class, the root class `object`, a subclass, or an implementation of the
/// interface `c`.
pub open spec fn assignable(classes: Seq<ClassData>, c: usize, target: usize, object: usize) -> bool {
    c == target || c == object || if classes[c as int].spec_is_interface() {
        implements(classes, target as int, c)
    } else {
        subclass_of(classes, target as int, c as int)
    }
}

/// Index of the first field of `fs` named `name`, or -1.
pub open spec fn first_field(fs: Seq<Field>, name: usize) -> int
    decreases fs.len(),
{
    if fs.len() == 0 {
        -1
    } else {
        let r = first_field(fs.drop_last(), name);
        if r >= 0 {
            r
        } else if fs.last().name == name {
            fs.len() - 1
        } else {
            -1
        }
    }
}

/// The field named `name` of class `c` or of its nearest ancestor that
/// declares one: that class and the first such field in it.
pub open spec fn field_lookup(classes: Seq<ClassData>, c: int, name: usize) -> Option<(usize, usize)>
    decreases c,
{
    if c < 0 || c >= classes.len() {
        None
    } else if first_field(classes[c].fields@, name) >= 0 {
        Some((c as usize, first_field(classes[c].fields@, name) as usize))
    } else {
        match classes[c].super_class {
            Some(p) => if p < c {
                field_lookup(classes, p as int, name)
            } else {
                None
            },
            None => None,
        }
    }
}

/// A field at `k` with no earlier one of the same name is the first.
pub proof fn lemma_first_field_prefix(fs: Seq<Field>, k: int, name: usize)
    requires
        0 <= k < fs.len(),
        fs[k].name == name,
        forall|q: int| 0 <= q < k ==> (#[trigger] fs[q]).name != name,
    ensures
        first_field(fs, name) == k,
    decreases fs.len(),
{
    if k < fs.len() - 1 {
        lemma_first_field_prefix(fs.drop_last(), k, name);
    } else {
        lemma_first_field_none(fs.drop_last(), name);
    }
}

/// Without a field of that name there is no first one.
pub proof fn lemma_first_field_none(fs: Seq<Field>, name: usize)
    requires
        forall|q: int| 0 <= q < fs.len() ==> (#[trigger] fs[q]).name != name,
    ensures
        first_field(fs, name) == -1,
    decreases fs.len(),
{
    if fs.len() > 0 {
        lemma_first_field_none(fs.drop_last(), name);
    }
}

pub struct ClassRegistry {
    names: SymbolTable,
    classes: Vec<ClassData>,
    vtabs: Vec<Vec<VEntry>>,
    itab_ifaces: Vec<Vec<usize>>,
    itab_indexes: Vec<Vec<Vec<usize>>>,
    states: Vec<ClassState>,
    bases: Vec<u64>,
    /// The symbol `<init>`: constructors take no dispatch slot.
    ctor_sym: usize,
}

impl ClassRegistry {
    /// Class names, by class index.
    pub closed spec fn view(&self) -> Seq<Seq<u8>> {
        self.names@
    }

    pub closed spec fn spec_classes(&self) -> Seq<ClassData> {
        self.classes@
    }

    pub closed spec fn spec_vtab(&self, c: int) -> Seq<VEntry> {
        self.vtabs@[c]@
    }

    /// Where the instance fields of class `c` start in an object.
    pub closed spec fn spec_base(&self, c: int) -> int {
        self.bases@[c] as int
    }

    pub closed spec fn spec_state(&self, c: int) -> ClassState {
        self.states@[c]
    }

    pub closed spec fn spec_ctor(&self) -> usize {
        self.ctor_sym
    }

    pub fn ctor(&self) -> (r: usize)
        ensures
            r == self.spec_ctor(),
    {
        self.ctor_sym
    }

    pub open spec fn is_linked(&self, c: int) -> bool {
        0 <= c < self@.len() && self.spec_state(c) != ClassState::Created
    }

    pub closed spec fn linked_ok(&self, c: int) -> bool {
        let cs = self.classes@;
        &&& vtab_ok(cs, self.spec_ctor(), c, self.vtabs@[c]@)
        &&& itable_ok(cs, self.vtabs@[c]@, self.itab_ifaces@[c]@, self.itab_indexes@[c]@)
        &&& match cs[c].super_class {
            Some(p) => self.states@[p as int] != ClassState::Created && sig_prefix(
                self.vtabs@[p as int]@,
                self.vtabs@[c]@,
            ) && self.bases@[c] == self.bases@[p as int] + cs[p as int].inst_size,
            None => self.bases@[c] == 0,
        }
        &&& self.bases@[c] <= c * 65536
        &&& forall|x: usize| #[trigger] self.itab_ifaces@[c]@.contains(x) <==> declared_closure(cs, c, x)
    }

    pub closed spec fn wf(&self) -> bool {
        let cs = self.classes@;
        let n = cs.len();
        &&& self.names.wf()
        &&& self.names@.len() == n
        &&& self.vtabs@.len() == n
        &&& self.itab_ifaces@.len() == n
        &&& self.itab_indexes@.len() == n
        &&& self.states@.len() == n
        &&& self.bases@.len() == n
        &&& n <= MAX_CAPACITY / 16
        &&& classes_bounded(cs)
        &&& forall|c: int|
            0 <= c < n ==> {
                &&& (#[trigger] cs[c]).cp.wf()
                &&& own_sigs_distinct(cs[c].methods@, self.spec_ctor())
                &&& (cs[c].super_class matches Some(p) ==> p < c)
                &&& forall|j: int|
                    0 <= j < cs[c].interfaces@.len() ==> (#[trigger] cs[c].interfaces@[j]) < c
                &&& forall|k: int| 0 <= k < cs[c].methods@.len() ==> (#[trigger] cs[c].methods@[k]).decl_cls == c
            }
        &&& forall|c: int| 0 <= c < n && self.states@[c] != ClassState::Created ==> #[trigger] self.linked_ok(c)
    }

    /// Registered names are distinct.
    pub proof fn lemma_names_distinct(&self)
        requires
            self.wf(),
        ensures
            distinct(self@),
    {
        self.names.lemma_distinct();
    }

    /// One class per registered name.
    pub proof fn lemma_len(&self)
        requires
            self.wf(),
        ensures
            self.spec_classes().len() == self@.len(),
            self@.len() <= MAX_CAPACITY / 16,
    {
    }

    pub fn new(ctor: usize) -> (r: ClassRegistry)
        ensures
            r.wf(),
            r@ == Seq::<Seq<u8>>::empty(),
            r.spec_ctor() == ctor,
    {
        ClassRegistry {
            names: SymbolTable::new(),
            classes: Vec::new(),
            vtabs: Vec::new(),
            itab_ifaces: Vec::new(),
            itab_indexes: Vec::new(),
            states: Vec::new(),
            bases: Vec::new(),
            ctor_sym: ctor,
        }
    }

    pub fn len(&self) -> (r: usize)
        requires
            self.wf(),
        ensures
            r == self@.len(),
    {
        self.classes.len()
    }

    /// The class registered under `name`.
    pub fn find_class(&self, name: &[u8]) -> (r: Option<usize>)
        requires
            self.wf(),
        ensures
            self@.contains(name@) ==> r == Some(self@.index_of(name@) as usize),
            !self@.contains(name@) ==> r.is_none(),
            r matches Some(i) ==> i < self@.len() && self@[i as int] == name@,
    {
        self.names.get(name)
    }

    pub fn class_data(&self, c: usize) -> (r: &ClassData)
        requires
            self.wf(),
            c < self@.len(),
        ensures
            *r == self.spec_classes()[c as int],
            r.cp.wf(),
    {
        &self.classes[c]
    }

    pub fn state(&self, c: usize) -> (r: ClassState)
        requires
            self.wf(),
            c < self@.len(),
        ensures
            r == self.spec_state(c as int),
    {
        self.states[c]
    }

    pub fn vtab(&self, c: usize) -> (r: &Vec<VEntry>)
        requires
            self.wf(),
            c < self@.len(),
        ensures
            r@ == self.spec_vtab(c as int),
    {
        &self.vtabs[c]
    }

    /// Where the instance fields of class `c` start inside an object of
    /// `c` or of a subclass: after those of all its ancestors.
    pub fn base(&self, c: usize) -> (r: u64)
        requires
            self.wf(),
            c < self@.len(),
        ensures
            r == self.spec_base(c as int),
            self.is_linked(c as int) ==> r == match self.spec_classes()[c as int].super_class {
                Some(p) => self.spec_base(p as int) + self.spec_classes()[p as int].inst_size,
                None => 0,
            },
    {
        proof {
            if self.is_linked(c as int) {
                assert(self.linked_ok(c as int));
            }
        }
        self.bases[c]
    }

    /// Whether class data can join the registry as class number `id`: its
    /// superclass and interfaces are registered already, its methods point
    /// back to it, and no two of its slot-taking methods share a signature.
    pub fn check_class(&self, id: usize, data: &ClassData) -> (r: bool)
        requires
            self.wf(),
            id == self@.len(),
        ensures
            r == class_ok(*data, id, self.spec_ctor()),
    {
        if data.cp.tags.len() != data.cp.values.len() {
            return false;
        }
        match data.super_class {
            Some(p) => {
                if p >= id {
                    return false;
                }
            },
            None => {},
        }
        let mut j: usize = 0;
        while j < data.interfaces.len()
            invariant
                0 <= j <= data.interfaces@.len(),
                forall|t: int| 0 <= t < j ==> (#[trigger] data.interfaces@[t]) < id,
            decreases data.interfaces@.len() - j,
        {
            if data.interfaces[j] >= id {
                assert(data.interfaces@[j as int] >= id);
                return false;
            }
            j = j + 1;
        }
        let ms = &data.methods;
        let mut k: usize = 0;
        while k < ms.len()
            invariant
                0 <= k <= ms@.len(),
                ms@ == data.methods@,
                forall|t: int| 0 <= t < k ==> (#[trigger] ms@[t]).decl_cls == id,
                forall|a: int, b: int|
                    0 <= a < k && 0 <= b < ms@.len() && a != b && is_member(#[trigger] ms@[a], self.spec_ctor())
                        && is_member(#[trigger] ms@[b], self.spec_ctor()) ==> ms@[a].name != ms@[b].name
                        || ms@[a].descriptor != ms@[b].descriptor,
            decreases ms@.len() - k,
        {
            let m = &ms[k];
            if m.decl_cls != id {
                assert(ms@[k as int].decl_cls != id);
                return false;
            }
            if !m.is_private() && !m.is_static() && m.name != self.ctor_sym {
                let mut q: usize = 0;
                while q < ms.len()
                    invariant
                        0 <= q <= ms@.len(),
                        ms@ == data.methods@,
                        k < ms@.len(),
                        *m == ms@[k as int],
                        is_member(*m, self.spec_ctor()),
                        forall|b: int|
                            0 <= b < q && b != k && is_member(#[trigger] ms@[b], self.spec_ctor()) ==> ms@[k as int].name
                                != ms@[b].name || ms@[k as int].descriptor != ms@[b].descriptor,
                    decreases ms@.len() - q,
                {
                    let o = &ms[q];
                    if q != k && !o.is_private() && !o.is_static() && o.name != self.ctor_sym && o.name
                        == m.name && o.descriptor == m.descriptor {
                        assert(is_member(ms@[q as int], self.spec_ctor()));
                        assert(is_member(ms@[k as int], self.spec_ctor()));
                        assert(!own_sigs_distinct(data.methods@, self.spec_ctor()));
                        return false;
                    }
                    q = q + 1;
                }
            }
            k = k + 1;
        }
        true
    }

    /// Registers class data under `name`. A name that is registered already
    /// keeps its class, which is returned; new data that fails
    /// `check_class` is refused.
    pub fn define_class(&mut self, name: &[u8], data: ClassData) -> (r: Result<usize, ClassLoadErr>)
        requires
            old(self).wf(),
            old(self)@.len() < MAX_CAPACITY / 16,
            data.methods@.len() <= usize::MAX,
        ensures
            final(self).wf(),
            final(self).spec_ctor() == old(self).spec_ctor(),
            old(self)@.contains(name@) ==> final(self)@ == old(self)@ && r == Ok::<usize, ClassLoadErr>(
                old(self)@.index_of(name@) as usize,
            ),
            r matches Ok(c) ==> (final(self)@, c as int) == intern_spec(old(self)@, name@),
            r is Err ==> final(self)@ == old(self)@,
            !old(self)@.contains(name@) && class_ok(data, old(self)@.len() as usize, old(self).spec_ctor()) ==> r == Ok::<usize, ClassLoadErr>(old(self)@.len() as usize),
            !old(self)@.contains(name@) && !class_ok(data, old(self)@.len() as usize, old(self).spec_ctor()) ==> r == Err::<usize, ClassLoadErr>(ClassLoadErr::VerifyFailed),
            forall|c: int| 0 <= c < old(self)@.len() ==> final(self).spec_classes()[c] == old(self).spec_classes()[c],
            forall|c: int| 0 <= c < old(self)@.len() ==> final(self).spec_state(c) == old(self).spec_state(c),
            forall|c: int| 0 <= c < old(self)@.len() ==> final(self).spec_vtab(c) == old(self).spec_vtab(c),
    {
        if let Some(c) = self.names.get(name) {
            return Ok(c);
        }
        let id = self.classes.len();
        if !self.check_class(id, &data) {
            return Err(ClassLoadErr::VerifyFailed);
        }
        let ghost o = *self;
        let got = self.names.get_or_insert(name);
        proof {
            o.names.lemma_distinct();
            lemma_intern_spec(o.names@, name@);
        }
        self.classes.push(data);
        self.vtabs.push(Vec::new());
        self.itab_ifaces.push(Vec::new());
        self.itab_indexes.push(Vec::new());
        self.states.push(ClassState::Created);
        self.bases.push(0);
        proof {
            let cs = self.classes@;
            let ocs = o.classes@;
            assert(cs == ocs.push(data));
            assert(classes_bounded(cs)) by {
                assert forall|c: int| 0 <= c < cs.len() implies (#[trigger] cs[c]).methods@.len() <= usize::MAX by {
                    if c < ocs.len() {
                        assert(cs[c] == ocs[c]);
                    }
                }
            }
            assert forall|c: int| 0 <= c < cs.len() && self.states@[c] != ClassState::Created implies #[trigger] self.linked_ok(c) by {
                assert(c < ocs.len());
                assert(o.linked_ok(c));
                assert(cs[c] == ocs[c]);
                assert forall|x: usize| declared_closure(cs, c, x) == declared_closure(ocs, c, x) by {
                    lemma_declared_closure_push(ocs, data, c, x);
                }
                let v = self.vtabs@[c]@;
                assert forall|i: int| 0 <= i < v.len() implies entry_ok(cs, #[trigger] v[i]) by {
                    assert(entry_ok(ocs, v[i]));
                    assert(cs[v[i].cls as int] == ocs[v[i].cls as int]);
                }
                assert forall|i: int| 0 <= i < v.len() implies agrees(#[trigger] most_derived(cs, self.spec_ctor(), c, v[i].name, v[i].desc), v[i]) by {
                    lemma_own_idx_push(ocs, data, self.spec_ctor(), c, v[i].name, v[i].desc);
                    assert(agrees(most_derived(ocs, self.spec_ctor(), c, v[i].name, v[i].desc), v[i]));
                }
                assert forall|nm: usize, ds: usize| (#[trigger] most_derived(cs, self.spec_ctor(), c, nm, ds)) is Some implies has_slot(v, nm, ds) by {
                    lemma_own_idx_push(ocs, data, self.spec_ctor(), c, nm, ds);
                    assert(most_derived(ocs, self.spec_ctor(), c, nm, ds) is Some);
                }
                let ifs = self.itab_ifaces@[c]@;
                let idx = self.itab_indexes@[c]@;
                assert forall|j: int| 0 <= j < ifs.len() implies {
                    &&& (#[trigger] ifs[j]) < cs.len()
                    &&& idx[j]@.len() == cs[ifs[j] as int].methods@.len()
                    &&& forall|k: int|
                        0 <= k < idx[j]@.len() ==> {
                            let x = (#[trigger] idx[j]@[k]) as int;
                            &&& x < v.len()
                            &&& v[x].name == cs[ifs[j] as int].methods@[k].name
                            &&& v[x].desc == cs[ifs[j] as int].methods@[k].descriptor
                        }
                } by {
                    assert(cs[ifs[j] as int] == ocs[ifs[j] as int]);
                }
            }
            assert forall|c: int| 0 <= c < cs.len() implies {
                &&& (#[trigger] cs[c]).cp.wf()
                &&& own_sigs_distinct(cs[c].methods@, self.spec_ctor())
                &&& (cs[c].super_class matches Some(p) ==> p < c)
                &&& forall|j: int|
                    0 <= j < cs[c].interfaces@.len() ==> (#[trigger] cs[c].interfaces@[j]) < c
                &&& forall|k: int| 0 <= k < cs[c].methods@.len() ==> (#[trigger] cs[c].methods@[k]).decl_cls == c
            } by {
                if c < ocs.len() {
                    assert(cs[c] == ocs[c]);
                }
            }
        }
        Ok(got)
    }

    /// Links class `c` (its superclass chain first): computes its dispatch
    /// table, its interface table and the base of its instance fields.
    pub fn link(&mut self, c: usize) -> (r: Result<(), ClassLoadErr>)
        requires
            old(self).wf(),
            c < old(self)@.len(),
        ensures
            final(self).wf(),
            final(self)@ == old(self)@,
            final(self).spec_ctor() == old(self).spec_ctor(),
            final(self).spec_classes() == old(self).spec_classes(),
            r is Ok,
            final(self).is_linked(c as int),
            forall|d: int| c < d < old(self)@.len() ==> #[trigger] final(self).spec_state(d) == old(self).spec_state(d),
            forall|d: int| #[trigger] old(self).is_linked(d) ==> final(self).is_linked(d) && final(self).spec_vtab(d) == old(self).spec_vtab(d) && final(self).spec_state(d) == old(self).spec_state(d),
        decreases c,
    {
        if self.states[c] != ClassState::Created {
            return Ok(());
        }
        let ghost o0 = *self;
        let ctor = self.ctor_sym;
        let sup = self.classes[c].super_class;
        let empty: Vec<VEntry> = Vec::new();
        let v = match sup {
            Some(p) => {
                let linked = self.link(p);
                proof {
                    assert(linked is Ok);
                    assert(self.linked_ok(p as int));
                    assert(self.spec_state(c as int) == o0.spec_state(c as int));
                    assert forall|d: int| c < d < o0@.len() implies #[trigger] self.spec_state(d) == o0.spec_state(d) by {
                        assert(p < d);
                    }
                }
                build_class_vtab(&self.classes, c, &self.vtabs[p], ctor)
            },
            None => build_class_vtab(&self.classes, c, &empty, ctor),
        };
        let ghost v1 = v@;
        let (v2, ifs, idxs) = build_itable(&self.classes, c, v, ctor);
        let base: u64 = match sup {
            Some(p) => {
                proof {
                    assert(self.linked_ok(p as int));
                }
                let b = self.bases[p];
                let sz = self.classes[p].inst_size;
                b + sz as u64
            },
            None => 0,
        };
        let ghost o = *self;
        assert(o.states@[c as int] == ClassState::Created);
        assert(forall|d: int| c < d < o0@.len() ==> #[trigger] o.spec_state(d) == o0.spec_state(d));
        self.vtabs.set(c, v2);
        self.itab_ifaces.set(c, ifs);
        self.itab_indexes.set(c, idxs);
        self.bases.set(c, base);
        self.states.set(c, ClassState::Linked);
        proof {
            let cs = self.classes@;
            assert forall|d: int| 0 <= d < cs.len() && self.states@[d] != ClassState::Created implies #[trigger] self.linked_ok(d) by {
                if d == c {
                    match cs[d].super_class {
                        Some(p) => {
                            assert(sig_prefix(o.vtabs@[p as int]@, v1));
                            assert(sig_prefix(v1, self.vtabs@[d]@));
                        },
                        None => {},
                    }
                } else {
                    assert(self.states@[d] == o.states@[d]);
                    assert(o.linked_ok(d));
                    assert(o.states@[c as int] == ClassState::Created);
                    match cs[d].super_class {
                        Some(p) => {
                            assert(p != c);
                        },
                        None => {},
                    }
                }
            }
            assert forall|d: int| c < d < o0@.len() implies #[trigger] self.spec_state(d) == o0.spec_state(d) by {
                assert(self.states@[d] == o.states@[d]);
                assert(o.spec_state(d) == o0.spec_state(d));
            }
        }
        Ok(())
    }

    /// `invokevirtual` at the call site: slot `idx` of the receiver class's
    /// table, which must still carry the resolved name and descriptor and
    /// hold a method with a body.
    pub fn resolve_virtual_with_index(&self, c: usize, name: usize, desc: usize, idx: usize) -> (r: Result<VEntry, MethodResolutionError>)
        requires
            self.wf(),
            self.is_linked(c as int),
        ensures
            ({
                let v = self.spec_vtab(c as int);
                r == if idx < v.len() && v[idx as int].name == name && v[idx as int].desc == desc
                    && !self.spec_classes()[v[idx as int].cls as int].methods@[v[idx as int].idx as int].spec_is_abstract() {
                    Ok::<VEntry, MethodResolutionError>(v[idx as int])
                } else {
                    Err(MethodResolutionError::AbstractMethod)
                }
            }),
    {
        proof {
            assert(self.linked_ok(c as int));
        }
        let v = &self.vtabs[c];
        if idx >= v.len() {
            return Err(MethodResolutionError::AbstractMethod);
        }
        let e = v[idx];
        if e.name != name || e.desc != desc {
            return Err(MethodResolutionError::AbstractMethod);
        }
        proof {
            assert(entry_ok(self.classes@, v@[idx as int]));
        }
        if self.classes[e.cls].methods[e.idx].is_abstract() {
            return Err(MethodResolutionError::AbstractMethod);
        }
        Ok(e)
    }

    /// Resolution of a virtual method at class `c`: its slot by signature.
    pub fn resolve_class_method(&self, c: usize, name: usize, desc: usize) -> (r: Result<(VEntry, usize), MethodResolutionError>)
        requires
            self.wf(),
            self.is_linked(c as int),
        ensures
            r is Err ==> r == Err::<(VEntry, usize), MethodResolutionError>(MethodResolutionError::NoSuchMethod) && !has_slot(self.spec_vtab(c as int), name, desc),
            r matches Ok((e, i)) ==> i < self.spec_vtab(c as int).len() && self.spec_vtab(c as int)[i as int] == e && e.name == name && e.desc == desc,
    {
        match find_slot(&self.vtabs[c], name, desc) {
            Some(i) => Ok((self.vtabs[c][i], i)),
            None => Err(MethodResolutionError::NoSuchMethod),
        }
    }

    /// `invokeinterface`: finds `iface` in the interface table of `c` or of
    /// the nearest ancestor that lists it, maps the interface method to its
    /// slot, and dispatches through the table of `c` itself.
    pub fn resolve_interface_method(&self, c: usize, iface: usize, name: usize, desc: usize) -> (r: Result<VEntry, MethodResolutionError>)
        requires
            self.wf(),
            self.is_linked(c as int),
        ensures
            r matches Ok(e) ==> e.name == name && e.desc == desc && exists|x: int| 0 <= x < self.spec_vtab(c as int).len() && #[trigger] self.spec_vtab(c as int)[x] == e,
            r is Err ==> r == Err::<VEntry, MethodResolutionError>(MethodResolutionError::NoSuchMethod) || r == Err::<VEntry, MethodResolutionError>(MethodResolutionError::IncompatibleClassChange),
            implements(self.spec_classes(), c as int, iface) && declares(self.spec_classes(), iface as int, name, desc) ==> r is Ok,
            !implements(self.spec_classes(), c as int, iface) ==> r == Err::<VEntry, MethodResolutionError>(MethodResolutionError::IncompatibleClassChange),
    {
        let mut a: usize = c;
        loop
            invariant
                self.wf(),
                self.is_linked(c as int),
                self.is_linked(a as int),
                sig_prefix(self.vtabs@[a as int]@, self.vtabs@[c as int]@),
                implements(self.classes@, c as int, iface) == implements(self.classes@, a as int, iface),
            decreases a,
        {
            proof {
                assert(self.linked_ok(a as int));
            }
            let ifs = &self.itab_ifaces[a];
            let mut j: usize = 0;
            while j < ifs.len()
                invariant
                    self.wf(),
                    self.is_linked(a as int),
                    self.is_linked(c as int),
                    self.linked_ok(a as int),
                    sig_prefix(self.vtabs@[a as int]@, self.vtabs@[c as int]@),
                    implements(self.classes@, c as int, iface) == implements(self.classes@, a as int, iface),
                    ifs@ == self.itab_ifaces@[a as int]@,
                    0 <= j <= ifs@.len(),
                    forall|t: int| 0 <= t < j ==> ifs@[t] != iface,
                decreases ifs@.len() - j,
            {
                if ifs[j] == iface {
                    proof {
                        assert(itable_ok(self.classes@, self.vtabs@[a as int]@, self.itab_ifaces@[a as int]@, self.itab_indexes@[a as int]@));
                        assert(ifs@[j as int] == iface);
                        assert(ifs@.contains(iface));
                        assert(declared_closure(self.classes@, a as int, iface));
                        assert(implements(self.classes@, a as int, iface));
                    }
                    let ims = &self.classes[iface].methods;
                    let mut k: usize = 0;
                    while k < ims.len()
                        invariant
                            self.wf(),
                            self.is_linked(c as int),
                            self.is_linked(a as int),
                            self.linked_ok(a as int),
                            sig_prefix(self.vtabs@[a as int]@, self.vtabs@[c as int]@),
                            j < self.itab_ifaces@[a as int]@.len(),
                            self.itab_ifaces@[a as int]@[j as int] == iface,
                            iface < self.classes@.len(),
                            ims@ == self.classes@[iface as int].methods@,
                            0 <= k <= ims@.len(),
                            implements(self.classes@, c as int, iface),
                            forall|q: int| 0 <= q < k ==> (#[trigger] ims@[q]).name != name || ims@[q].descriptor != desc,
                        decreases ims@.len() - k,
                    {
                        if ims[k].name == name && ims[k].descriptor == desc {
                            let x = self.itab_indexes[a][j][k];
                            proof {
                                assert(itable_ok(self.classes@, self.vtabs@[a as int]@, self.itab_ifaces@[a as int]@, self.itab_indexes@[a as int]@));
                                assert(self.itab_ifaces@[a as int]@[j as int] == iface);
                                assert(x < self.vtabs@[a as int]@.len());
                                assert(self.vtabs@[c as int]@[x as int].name == self.vtabs@[a as int]@[x as int].name);
                            }
                            let e = self.vtabs[c][x];
                            assert(self.spec_vtab(c as int)[x as int] == e);
                            return Ok(e);
                        }
                        k = k + 1;
                    }
                    return Err(MethodResolutionError::NoSuchMethod);
                }
                j = j + 1;
            }
            proof {
                assert(!ifs@.contains(iface));
                assert(!declared_closure(self.classes@, a as int, iface));
            }
            match self.classes[a].super_class {
                Some(p) => {
                    proof {
                        assert(sig_prefix(self.vtabs@[p as int]@, self.vtabs@[a as int]@));
                    }
                    a = p;
                },
                None => {
                    return Err(MethodResolutionError::IncompatibleClassChange);
                },
            }
        }
    }

    /// Index of the method of `c` itself with this name and descriptor.
    pub fn resolve_local_method(&self, c: usize, name: usize, desc: usize) -> (r: Option<usize>)
        requires
            self.wf(),
            c < self@.len(),
        ensures
            r matches Some(k) ==> k < self.spec_classes()[c as int].methods@.len() && self.spec_classes()[c as int].methods@[k as int].name == name && self.spec_classes()[c as int].methods@[k as int].descriptor == desc
                && forall|q: int| 0 <= q < k ==> (#[trigger] self.spec_classes()[c as int].methods@[q]).name != name || self.spec_classes()[c as int].methods@[q].descriptor != desc,
            r is None ==> forall|k: int| 0 <= k < self.spec_classes()[c as int].methods@.len() ==> (#[trigger] self.spec_classes()[c as int].methods@[k]).name != name || self.spec_classes()[c as int].methods@[k].descriptor != desc,
    {
        let ms = &self.classes[c].methods;
        let mut k: usize = 0;
        while k < ms.len()
            invariant
                0 <= k <= ms@.len(),
                ms@ == self.classes@[c as int].methods@,
                forall|q: int| 0 <= q < k ==> (#[trigger] ms@[q]).name != name || ms@[q].descriptor != desc,
            decreases ms@.len() - k,
        {
            if ms[k].name == name && ms[k].descriptor == desc {
                return Some(k);
            }
            k = k + 1;
        }
        None
    }

    /// Method `idx` of class `c`, if it has one.
    pub fn get_method_with_index(&self, c: usize, idx: usize) -> (r: Option<&Method>)
        requires
            self.wf(),
            c < self@.len(),
        ensures
            idx < self.spec_classes()[c as int].methods@.len() ==> r == Some(&self.spec_classes()[c as int].methods@[idx as int]),
            idx >= self.spec_classes()[c as int].methods@.len() ==> r.is_none(),
    {
        let ms = &self.classes[c].methods;
        if idx < ms.len() {
            Some(&ms[idx])
        } else {
            None
        }
    }

    /// `invokespecial` / `invokestatic`: the method of `c` itself.
    pub fn resolve_self_method(&self, c: usize, name: usize, desc: usize) -> (r: Result<usize, MethodResolutionError>)
        requires
            self.wf(),
            c < self@.len(),
        ensures
            r matches Ok(k) ==> k < self.spec_classes()[c as int].methods@.len() && self.spec_classes()[c as int].methods@[k as int].name == name && self.spec_classes()[c as int].methods@[k as int].descriptor == desc
                && forall|q: int| 0 <= q < k ==> (#[trigger] self.spec_classes()[c as int].methods@[q]).name != name || self.spec_classes()[c as int].methods@[q].descriptor != desc,
            r is Err ==> r == Err::<usize, MethodResolutionError>(MethodResolutionError::NoSuchMethod) && forall|k: int| 0 <= k < self.spec_classes()[c as int].methods@.len() ==> (#[trigger] self.spec_classes()[c as int].methods@[k]).name != name || self.spec_classes()[c as int].methods@[k].descriptor != desc,
    {
        match self.resolve_local_method(c, name, desc) {
            Some(k) => Ok(k),
            None => Err(MethodResolutionError::NoSuchMethod),
        }
    }

    /// The field named `name` of `c` or of its nearest ancestor declaring
    /// one: the declaring class and the field's index there.
    pub fn get_field_with_name(&self, c: usize, name: usize) -> (r: Option<(usize, usize)>)
        requires
            self.wf(),
            c < self@.len(),
        ensures
            r matches Some((a, k)) ==> a < self@.len() && k < self.spec_classes()[a as int].fields@.len() && self.spec_classes()[a as int].fields@[k as int].name == name
                && subclass_of(self.spec_classes(), c as int, a as int)
                && (a == c ==> forall|q: int| 0 <= q < k ==> (#[trigger] self.spec_classes()[c as int].fields@[q]).name != name)
                && (a != c ==> forall|q: int| 0 <= q < self.spec_classes()[c as int].fields@.len() ==> (#[trigger] self.spec_classes()[c as int].fields@[q]).name != name),
            r is None ==> forall|a: int, k: int|
                subclass_of(self.spec_classes(), c as int, a) && 0 <= a < self@.len() && 0 <= k < self.spec_classes()[a].fields@.len()
                    ==> (#[trigger] self.spec_classes()[a].fields@[k]).name != name,
            r == field_lookup(self.spec_classes(), c as int, name),
        decreases c,
    {
        let fs = &self.classes[c].fields;
        let mut k: usize = 0;
        while k < fs.len()
            invariant
                self.wf(),
                c < self@.len(),
                0 <= k <= fs@.len(),
                fs@ == self.classes@[c as int].fields@,
                forall|q: int| 0 <= q < k ==> (#[trigger] fs@[q]).name != name,
            decreases fs@.len() - k,
        {
            if fs[k].name == name {
                proof {
                    lemma_first_field_prefix(fs@, k as int, name);
                }
                return Some((c, k));
            }
            k = k + 1;
        }
        proof {
            lemma_first_field_none(fs@, name);
        }
        match self.classes[c].super_class {
            Some(p) => {
                let r = self.get_field_with_name(p, name);
                proof {
                    if r is None {
                        assert forall|a: int, q: int|
                            subclass_of(self.spec_classes(), c as int, a) && 0 <= a < self@.len() && 0 <= q < self.spec_classes()[a].fields@.len()
                                implies (#[trigger] self.spec_classes()[a].fields@[q]).name != name by {
                            if a != c {
                                assert(subclass_of(self.spec_classes(), p as int, a));
                            }
                        }
                    }
                }
                r
            },
            None => None,
        }
    }

    /// Whether `c` or one of its ancestors declares interface `iface`.
    pub fn is_implement(&self, c: usize, iface: usize) -> (r: bool)
        requires
            self.wf(),
            c < self@.len(),
        ensures
            r == implements(self.spec_classes(), c as int, iface),
        decreases c,
    {
        let ifs = interface_closure(&self.classes, c);
        let mut j: usize = 0;
        while j < ifs.len()
            invariant
                self.wf(),
                c < self@.len(),
                forall|x: usize| #[trigger] ifs@.contains(x) <==> declared_closure(self.classes@, c as int, x),
                0 <= j <= ifs@.len(),
                forall|t: int| 0 <= t < j ==> ifs@[t] != iface,
            decreases ifs@.len() - j,
        {
            if ifs[j] == iface {
                assert(ifs@.contains(iface));
                assert(declared_closure(self.classes@, c as int, iface));
                return true;
            }
            j = j + 1;
        }
        assert(!ifs@.contains(iface));
        assert(!declared_closure(self.classes@, c as int, iface));
        match self.classes[c].super_class {
            Some(p) => self.is_implement(p, iface),
            None => false,
        }
    }

    /// Whether `target` is `c` or a subclass of `c`.
    pub fn is_subclass_of(&self, target: usize, c: usize) -> (r: bool)
        requires
            self.wf(),
            target < self@.len(),
        ensures
            r == subclass_of(self.spec_classes(), target as int, c as int),
        decreases target,
    {
        if target == c {
            return true;
        }
        match self.classes[target].super_class {
            Some(p) => self.is_subclass_of(p, c),
            None => false,
        }
    }

    /// Whether a value of class `target` may be stored where `c` is
    /// expected: the same class, a subclass, or an implementation of the
    /// interface `c`. Every class is assignable to `object`, the root class.
    pub fn is_assignable_from(&self, c: usize, target: usize, object: usize) -> (r: bool)
        requires
            self.wf(),
            c < self@.len(),
            target < self@.len(),
        ensures
            r == assignable(self.spec_classes(), c, target, object),
    {
        if c == target || c == object {
            return true;
        }
        if self.classes[c].is_interface() {
            return self.is_implement(target, c);
        }
        self.is_subclass_of(target, c)
    }

    /// Starts initializing `c`: links it if needed; when its initializer has
    /// not run yet and exists, asks for it to be run (exactly once: the
    /// class is then `Initializing` until `finish_initialize`).
    pub fn begin_initialize(&mut self, c: usize) -> (r: Result<InitAction, InitializationError>)
        requires
            old(self).wf(),
            c < old(self)@.len(),
        ensures
            final(self).wf(),
            final(self)@ == old(self)@,
            final(self).spec_classes() == old(self).spec_classes(),
            (old(self).spec_state(c as int) == ClassState::Initializing || old(self).spec_state(c as int) == ClassState::Initialized) ==> r == Ok::<InitAction, InitializationError>(InitAction::Done) && final(self).spec_state(c as int) == old(self).spec_state(c as int),
            r matches Ok(InitAction::RunClinit(k)) ==> (old(self).spec_state(c as int) == ClassState::Created || old(self).spec_state(c as int) == ClassState::Linked) && final(self).spec_state(c as int) == ClassState::Initializing && old(self).spec_classes()[c as int].init_method == Some(k),
            r is Ok,
            final(self).is_linked(c as int),
            (old(self).spec_state(c as int) == ClassState::Created || old(self).spec_state(c as int) == ClassState::Linked) ==> match old(self).spec_classes()[c as int].init_method {
                Some(k) => r == Ok::<InitAction, InitializationError>(InitAction::RunClinit(k)) && final(self).spec_state(c as int) == ClassState::Initializing,
                None => r == Ok::<InitAction, InitializationError>(InitAction::Done) && final(self).spec_state(c as int) == ClassState::Initialized,
            },
    {
        let st = self.states[c];
        if st == ClassState::Initializing || st == ClassState::Initialized {
            return Ok(InitAction::Done);
        }
        let linked = self.link(c);
        proof {
            assert(linked is Ok);
        }
        proof {
            assert(self.linked_ok(c as int));
        }
        let ghost o = *self;
        match self.classes[c].init_method {
            Some(k) => {
                self.states.set(c, ClassState::Initializing);
                proof {
                    assert forall|d: int| 0 <= d < self.classes@.len() && self.states@[d] != ClassState::Created implies #[trigger] self.linked_ok(d) by {
                        assert(o.states@[d] != ClassState::Created);
                        assert(o.linked_ok(d));
                    }
                }
                Ok(InitAction::RunClinit(k))
            },
            None => {
                self.states.set(c, ClassState::Initialized);
                proof {
                    assert forall|d: int| 0 <= d < self.classes@.len() && self.states@[d] != ClassState::Created implies #[trigger] self.linked_ok(d) by {
                        assert(o.states@[d] != ClassState::Created);
                        assert(o.linked_ok(d));
                    }
                }
                Ok(InitAction::Done)
            },
        }
    }

    /// Records that the initializer of `c` has run to completion.
    pub fn finish_initialize(&mut self, c: usize)
        requires
            old(self).wf(),
            c < old(self)@.len(),
            old(self).spec_state(c as int) == ClassState::Initializing,
        ensures
            final(self).wf(),
            final(self)@ == old(self)@,
            final(self).spec_classes() == old(self).spec_classes(),
            final(self).spec_state(c as int) == ClassState::Initialized,
    {
        let ghost o = *self;
        self.states.set(c, ClassState::Initialized);
        proof {
            assert forall|d: int| 0 <= d < self.classes@.len() && self.states@[d] != ClassState::Created implies #[trigger] self.linked_ok(d) by {
                assert(o.states@[d] != ClassState::Created);
                assert(o.linked_ok(d));
            }
        }
    }

    /// Dispatch tables are correct: for a linked class `c` and any method
    /// signature declared along its superclass chain, the table has exactly
    /// one slot with that signature, and that slot holds the most-derived
    /// method of the signature.
    pub proof fn lemma_vtable_correct(&self, c: int, name: usize, desc: usize)
        requires
            self.wf(),
            self.is_linked(c),
            most_derived(self.spec_classes(), self.spec_ctor(), c, name, desc) is Some,
        ensures
            has_slot(self.spec_vtab(c), name, desc),
            forall|i: int| 0 <= i < self.spec_vtab(c).len() && (#[trigger] self.spec_vtab(c)[i]).name == name && self.spec_vtab(c)[i].desc == desc ==> self.spec_vtab(c)[i] == most_derived(self.spec_classes(), self.spec_ctor(), c, name, desc).unwrap(),
    {
        assert(self.linked_ok(c));
        let v = self.spec_vtab(c);
        assert forall|i: int| 0 <= i < v.len() && (#[trigger] v[i]).name == name && v[i].desc == desc implies v[i] == most_derived(self.spec_classes(), self.spec_ctor(), c, name, desc).unwrap() by {
            assert(agrees(most_derived(self.spec_classes(), self.spec_ctor(), c, v[i].name, v[i].desc), v[i]));
        }
    }

    /// Interface dispatch agrees with virtual dispatch: the entry that
    /// `invokeinterface` reaches on a linked class and the entry that
    /// `invokevirtual` reaches through the slot of the same signature are
    /// the same method.
    pub proof fn lemma_interface_dispatch(&self, c: int, e: VEntry, x: int, y: int)
        requires
            self.wf(),
            self.is_linked(c),
            0 <= x < self.spec_vtab(c).len(),
            0 <= y < self.spec_vtab(c).len(),
            self.spec_vtab(c)[x] == e,
            self.spec_vtab(c)[y].name == e.name,
            self.spec_vtab(c)[y].desc == e.desc,
        ensures
            x == y,
            self.spec_vtab(c)[y] == e,
            agrees(most_derived(self.spec_classes(), self.spec_ctor(), c, e.name, e.desc), e),
    {
        assert(self.linked_ok(c));
        let v = self.spec_vtab(c);
        if x != y {
            assert(v[x].name != v[y].name || v[x].desc != v[y].desc);
        }
    }

    /// Registry identity: once `name` is registered, every later lookup of
    /// it finds the same class; in particular defining a name twice gives
    /// the same class both times.
    pub proof fn lemma_registry_identity(v: Seq<Seq<u8>>, name: Seq<u8>, other: Seq<u8>)
        requires
            distinct(v),
        ensures
            ({
                let (v1, r1) = intern_spec(v, name);
                let (v2, r2) = intern_spec(v1, other);
                let (v3, r3) = intern_spec(v2, name);
                v3 == v2 && r3 == r1
            }),
    {
        lemma_intern_spec(v, name);
        let (v1, r1) = intern_spec(v, name);
        lemma_intern_spec(v1, other);
        let (v2, r2) = intern_spec(v1, other);
        assert(v2[r1] == name);
        assert(v2.contains(name));
        let i = v2.index_of(name);
        if i != r1 {
            assert(v2[i] == v2[r1]);
        }
    }
}

} // verus!
