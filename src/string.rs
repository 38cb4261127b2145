//! Strings: symbol contents (UTF-8 bytes), platform strings (UTF-16 code
//! units) and the string table that interns the latter by content.
use vstd::prelude::*;
use crate::hash_table::{HashTable, MAX_CAPACITY};
use crate::symbol::{distinct, hash_bytes, hash_units, intern_spec, lemma_intern_spec, hash_utf8, hash_utf16};

verus! {

/// A borrowed UTF-8 key.
pub struct Utf8String<'a> {
    pub value: &'a [u8],
}

impl<'a> Utf8String<'a> {
    pub fn hash(&self) -> (r: u32)
        ensures
            r == hash_bytes(self.value@),
    {
        hash_utf8(self.value)
    }
}

/// The contents of a symbol, with its hash.
pub struct HeapString {
    pub bytes: Vec<u8>,
    pub hash: u32,
}

impl HeapString {
    pub open spec fn wf(&self) -> bool {
        self.hash == hash_bytes(self.bytes@)
    }

    pub fn new(content: &[u8]) -> (r: HeapString)
        ensures
            r.wf(),
            r.bytes@ == content@,
    {
        let bytes = crate::util::bytes_range(content, 0, content.len());
        assert(bytes@ =~= content@);
        HeapString { bytes, hash: hash_utf8(content) }
    }

    pub fn hash_utf8(content: &[u8]) -> (r: u32)
        ensures
            r == hash_bytes(content@),
    {
        hash_utf8(content)
    }

    pub fn hash_utf16_str(content: &[u16]) -> (r: u32)
        ensures
            r == hash_units(content@),
    {
        hash_utf16(content)
    }

    pub fn length(&self) -> (r: usize)
        ensures
            r == self.bytes@.len(),
    {
        self.bytes.len()
    }

    pub fn hash_code(&self) -> (r: u32)
        ensures
            r == self.hash,
    {
        self.hash
    }

    pub fn as_bytes(&self) -> (r: &[u8])
        ensures
            r@ == self.bytes@,
    {
        self.bytes.as_slice()
    }

    /// The content as UTF-16 units, one per byte.
    pub fn to_utf16(&self) -> (r: Vec<u16>)
        ensures
            r@ == widen_spec(self.bytes@),
    {
        let mut r: Vec<u16> = Vec::new();
        let mut k: usize = 0;
        while k < self.bytes.len()
            invariant
                0 <= k <= self.bytes@.len(),
                r@ == widen_spec(self.bytes@.subrange(0, k as int)),
            decreases self.bytes@.len() - k,
        {
            r.push(self.bytes[k] as u16);
            k = k + 1;
            assert(r@ =~= widen_spec(self.bytes@.subrange(0, k as int)));
        }
        assert(self.bytes@.subrange(0, self.bytes@.len() as int) =~= self.bytes@);
        r
    }

    pub fn equals_utf8(&self, other: Utf8String) -> (r: bool)
        ensures
            r == (self.bytes@ == other.value@),
    {
        crate::util::bytes_eq(self.bytes.as_slice(), other.value)
    }

    /// Compares with UTF-16 units, each byte standing for one unit.
    pub fn equals_utf16(&self, target: &[u16]) -> (r: bool)
        ensures
            r == (self.bytes@.len() == target@.len() && forall|i: int|
                0 <= i < target@.len() ==> self.bytes@[i] as u16 == target@[i]),
    {
        if self.bytes.len() != target.len() {
            return false;
        }
        let mut k: usize = 0;
        while k < target.len()
            invariant
                self.bytes@.len() == target@.len(),
                0 <= k <= target@.len(),
                forall|i: int| 0 <= i < k ==> self.bytes@[i] as u16 == target@[i],
            decreases target@.len() - k,
        {
            if self.bytes[k] as u16 != target[k] {
                return false;
            }
            k = k + 1;
        }
        true
    }
}

/// Each byte as one UTF-16 unit.
pub open spec fn widen_spec(b: Seq<u8>) -> Seq<u16> {
    b.map_values(|x: u8| x as u16)
}

/// A string made from a symbol by widening has the symbol's hash, so it can
/// be found in the string table by that hash.
pub proof fn lemma_widen_hash(b: Seq<u8>)
    ensures
        hash_units(widen_spec(b)) == hash_bytes(b),
    decreases b.len(),
{
    if b.len() > 0 {
        assert(widen_spec(b).drop_last() =~= widen_spec(b.drop_last()));
        lemma_widen_hash(b.drop_last());
        let c = b.last();
        assert((c as u16) as u32 == c as u32);
    }
}

/// The table key of a UTF-16 content: each unit as two bytes, high first.
pub open spec fn units_key(u: Seq<u16>) -> Seq<u8> {
    Seq::new(2 * u.len(), |i: int| if i % 2 == 0 {
        (u[i / 2] >> 8u16) as u8
    } else {
        (u[i / 2] & 0xffu16) as u8
    })
}

pub proof fn lemma_units_key_injective(a: Seq<u16>, b: Seq<u16>)
    requires
        units_key(a) == units_key(b),
    ensures
        a == b,
{
    assert(units_key(a).len() == 2 * a.len());
    assert(units_key(b).len() == 2 * b.len());
    assert(a.len() == b.len());
    assert forall|k: int| 0 <= k < a.len() implies a[k] == b[k] by {
        let ka = units_key(a);
        let kb = units_key(b);
        assert(ka[2 * k] == kb[2 * k]);
        assert(ka[2 * k + 1] == kb[2 * k + 1]);
        let x = a[k];
        let y = b[k];
        assert((2 * k) / 2 == k);
        assert((2 * k + 1) / 2 == k);
        assert((2 * k) % 2 == 0);
        assert((2 * k + 1) % 2 == 1);
        assert(ka[2 * k] == (x >> 8u16) as u8);
        assert(kb[2 * k] == (y >> 8u16) as u8);
        assert(ka[2 * k + 1] == (x & 0xffu16) as u8);
        assert(kb[2 * k + 1] == (y & 0xffu16) as u8);
        assert(((x >> 8u16) as u8 == (y >> 8u16) as u8 && (x & 0xffu16) as u8 == (y & 0xffu16) as u8) ==> x == y) by (bit_vector);
    }
    assert(a =~= b);
}

pub fn units_to_key(u: &[u16]) -> (r: Vec<u8>)
    requires
        u@.len() <= usize::MAX / 2,
    ensures
        r@ == units_key(u@),
{
    let mut r: Vec<u8> = Vec::new();
    let mut k: usize = 0;
    while k < u.len()
        invariant
            0 <= k <= u@.len() <= usize::MAX / 2,
            r@.len() == 2 * k,
            forall|i: int| 0 <= i < 2 * k ==> r@[i] == units_key(u@)[i],
        decreases u@.len() - k,
    {
        let x = u[k];
        r.push((x >> 8u16) as u8);
        r.push((x & 0xffu16) as u8);
        proof {
            assert((2 * k as int) / 2 == k);
            assert((2 * k as int + 1) / 2 == k);
            assert((2 * k as int) % 2 == 0);
            assert((2 * k as int + 1) % 2 == 1);
        }
        k = k + 1;
    }
    assert(r@ =~= units_key(u@));
    r
}

/// Platform strings, interned by content; a string is its index in `strings`.
pub struct StringTable {
    table: HashTable,
    strings: Vec<Vec<u16>>,
    keys: Vec<Vec<u8>>,
    hashes: Vec<u32>,
}

impl StringTable {
    /// The UTF-16 content of each interned string, by index.
    pub closed spec fn view(&self) -> Seq<Seq<u16>> {
        self.strings@.map_values(|x: Vec<u16>| x@)
    }

    pub closed spec fn wf(&self) -> bool {
        &&& self.table.wf(self.hashes@)
        &&& self.strings@.len() == self.hashes@.len()
        &&& self.keys@.len() == self.hashes@.len()
        &&& self.table.spec_size() == self.strings@.len()
        &&& forall|e: int| 0 <= e < self.hashes@.len() ==> #[trigger] self.hashes@[e] == hash_units(
            self.strings@[e]@,
        )
        &&& forall|e: int| 0 <= e < self.keys@.len() ==> (#[trigger] self.keys@[e])@ == units_key(
            self.strings@[e]@,
        )
        &&& forall|e: usize| #[trigger] self.table.contains_entry(e) <==> e < self.strings@.len()
        &&& distinct(self.view())
    }

    pub fn new() -> (r: StringTable)
        ensures
            r.wf(),
            r@ == Seq::<Seq<u16>>::empty(),
    {
        let r = StringTable {
            table: HashTable::new(),
            strings: Vec::new(),
            keys: Vec::new(),
            hashes: Vec::new(),
        };
        assert(r@ =~= Seq::<Seq<u16>>::empty());
        r
    }

    /// The canonical string with content `content`, added if it is new.
    pub fn intern(&mut self, content: &[u16]) -> (r: usize)
        requires
            old(self).wf(),
            old(self)@.len() < MAX_CAPACITY / 16,
            content@.len() <= usize::MAX / 2,
        ensures
            final(self).wf(),
            (final(self)@, r as int) == intern_spec(old(self)@, content@),
            r < final(self)@.len(),
            final(self)@[r as int] == content@,
    {
        let h = hash_utf16(content);
        let key = units_to_key(content);
        proof {
            assert forall|e: int| 0 <= e < self.keys@.len() && (#[trigger] self.keys@[e])@ == key@ implies self.hashes@[e] == h by {
                lemma_units_key_injective(self.strings@[e]@, content@);
            }
        }
        match self.table.get_value_by_str(&self.hashes, &self.keys, key.as_slice(), h) {
            Some(e) => {
                proof {
                    lemma_units_key_injective(self.strings@[e as int]@, content@);
                    assert(self@[e as int] == content@);
                    assert(self@.contains(content@));
                    let i = self@.index_of(content@);
                    if i != e {
                        assert(self@[i] == self@[e as int]);
                    }
                }
                e
            },
            None => {
                proof {
                    if self@.contains(content@) {
                        let i = choose|i: int| 0 <= i < self@.len() && self@[i] == content@;
                        assert(self.table.contains_entry(i as usize));
                    }
                }
                let ghost o = self@;
                let e = self.strings.len();
                let mut copy: Vec<u16> = Vec::new();
                let mut k: usize = 0;
                while k < content.len()
                    invariant
                        0 <= k <= content@.len(),
                        copy@ == content@.subrange(0, k as int),
                    decreases content@.len() - k,
                {
                    copy.push(content[k]);
                    k = k + 1;
                    assert(copy@ =~= content@.subrange(0, k as int));
                }
                assert(copy@ =~= content@);
                self.strings.push(copy);
                self.keys.push(key);
                self.hashes.push(h);
                proof {
                    self.table.lemma_wf_extend(old(self).hashes@, self.hashes@);
                    assert forall|i: int| 0 <= i < self@.len() implies self@[i] == o.push(content@)[i] by {
                        if i < e {
                            assert(self.strings@[i] == old(self).strings@[i]);
                        }
                    }
                    assert(self@ =~= o.push(content@));
                    lemma_intern_spec(o, content@);
                }
                self.table.insert(&self.hashes, e);
                e
            },
        }
    }

    pub fn len(&self) -> (r: usize)
        requires
            self.wf(),
        ensures
            r == self@.len(),
    {
        self.strings.len()
    }

    /// The UTF-16 content of string `s`.
    pub fn chars(&self, s: usize) -> (r: &[u16])
        requires
            s < self@.len(),
        ensures
            r@ == self@[s as int],
    {
        self.strings[s].as_slice()
    }
}

/// Whether two `char[]` contents are equal.
pub fn equals_chars(a: &[u16], b: &[u16]) -> (r: bool)
    ensures
        r == (a@ == b@),
{
    if a.len() != b.len() {
        return false;
    }
    let mut k: usize = 0;
    while k < a.len()
        invariant
            a@.len() == b@.len(),
            0 <= k <= a@.len(),
            forall|i: int| 0 <= i < k ==> a@[i] == b@[i],
        decreases a@.len() - k,
    {
        if a[k] != b[k] {
            return false;
        }
        k = k + 1;
    }
    assert(a@ =~= b@);
    true
}

} // verus!
