//! Interning: the symbol table maps byte sequences to symbols, the string
//! table maps UTF-16 contents to strings. Equal contents always give the same
//! symbol (string), different contents different ones.
use vstd::prelude::*;
use crate::hash_table::{HashTable, MAX_CAPACITY};

verus! {

/// The FNV-like hash of a symbol: from 0, `h = (h ^ b) * 0x01000193` per byte.
pub open spec fn hash_bytes(s: Seq<u8>) -> u32
    decreases s.len(),
{
    if s.len() == 0 {
        0
    } else {
        vstd::wrapping::u32_specs::wrapping_mul(
            hash_bytes(s.drop_last()) ^ (s.last() as u32),
            0x01000193,
        )
    }
}

/// The same hash over UTF-16 code units.
pub open spec fn hash_units(s: Seq<u16>) -> u32
    decreases s.len(),
{
    if s.len() == 0 {
        0
    } else {
        vstd::wrapping::u32_specs::wrapping_mul(
            hash_units(s.drop_last()) ^ (s.last() as u32),
            0x01000193,
        )
    }
}

/// Interning `c` into the table with contents `v`: the index of `c` where it
/// is already present, else `c` is appended and its index is the old length.
pub open spec fn intern_spec<T>(v: Seq<T>, c: T) -> (Seq<T>, int) {
    if v.contains(c) {
        (v, v.index_of(c))
    } else {
        (v.push(c), v.len() as int)
    }
}

/// No content occurs twice.
pub open spec fn distinct<T>(v: Seq<T>) -> bool {
    forall|i: int, j: int| 0 <= i < v.len() && 0 <= j < v.len() && i != j ==> v[i] != v[j]
}

/// Interning keeps contents distinct, and the index it gives holds `c`.
pub proof fn lemma_intern_spec<T>(v: Seq<T>, c: T)
    requires
        distinct(v),
    ensures
        distinct(intern_spec(v, c).0),
        0 <= intern_spec(v, c).1 < intern_spec(v, c).0.len(),
        intern_spec(v, c).0[intern_spec(v, c).1] == c,
        intern_spec(v, c).0.len() >= v.len(),
        forall|i: int| 0 <= i < v.len() ==> intern_spec(v, c).0[i] == v[i],
{
    if v.contains(c) {
    } else {
        let w = v.push(c);
        assert forall|i: int, j: int| 0 <= i < w.len() && 0 <= j < w.len() && i != j implies w[i]
            != w[j] by {
            if i == v.len() as int {
                assert(w[j] == v[j]);
            } else if j == v.len() as int {
                assert(w[i] == v[i]);
            }
        }
    }
}

/// Interning identity: interning `a` and then `b` into a table of distinct
/// contents gives the same index exactly when the two contents are equal.
/// For the symbol table the contents are byte sequences; for the string
/// table, UTF-16 sequences.
pub proof fn lemma_intern_identity<T>(v: Seq<T>, a: T, b: T)
    requires
        distinct(v),
    ensures
        ({
            let (v1, r1) = intern_spec(v, a);
            let (v2, r2) = intern_spec(v1, b);
            (r1 == r2) == (a == b)
        }),
{
    lemma_intern_spec(v, a);
    let (v1, r1) = intern_spec(v, a);
    lemma_intern_spec(v1, b);
    let (v2, r2) = intern_spec(v1, b);
    if a == b {
        if v1.contains(a) {
            assert(v1[v1.index_of(a)] == a);
            assert(v1.index_of(a) == r1) by {
                if v1.index_of(a) != r1 {
                    assert(v1[r1] == a);
                }
            }
        }
    } else {
        assert(v2[r1] == v1[r1]);
    }
}

pub fn hash_utf8(content: &[u8]) -> (r: u32)
    ensures
        r == hash_bytes(content@),
{
    let mut h: u32 = 0;
    let mut k: usize = 0;
    while k < content.len()
        invariant
            0 <= k <= content@.len(),
            h == hash_bytes(content@.subrange(0, k as int)),
        decreases content@.len() - k,
    {
        proof {
            assert(content@.subrange(0, k + 1).drop_last() =~= content@.subrange(0, k as int));
        }
        h = (h ^ (content[k] as u32)).wrapping_mul(0x01000193);
        k = k + 1;
    }
    assert(content@.subrange(0, content@.len() as int) =~= content@);
    h
}

pub fn hash_utf16(content: &[u16]) -> (r: u32)
    ensures
        r == hash_units(content@),
{
    let mut h: u32 = 0;
    let mut k: usize = 0;
    while k < content.len()
        invariant
            0 <= k <= content@.len(),
            h == hash_units(content@.subrange(0, k as int)),
        decreases content@.len() - k,
    {
        proof {
            assert(content@.subrange(0, k + 1).drop_last() =~= content@.subrange(0, k as int));
        }
        h = (h ^ (content[k] as u32)).wrapping_mul(0x01000193);
        k = k + 1;
    }
    assert(content@.subrange(0, content@.len() as int) =~= content@);
    h
}

/// The views of the entries of an arena of byte strings.
pub open spec fn views(v: Seq<Vec<u8>>) -> Seq<Seq<u8>> {
    v.map_values(|x: Vec<u8>| x@)
}

/// Interned UTF-8 symbols; a symbol is its index in `symbols`.
pub struct SymbolTable {
    table: HashTable,
    symbols: Vec<Vec<u8>>,
    hashes: Vec<u32>,
}

impl SymbolTable {
    /// The contents of each symbol, by index.
    pub closed spec fn view(&self) -> Seq<Seq<u8>> {
        views(self.symbols@)
    }

    pub closed spec fn wf(&self) -> bool {
        &&& self.table.wf(self.hashes@)
        &&& self.symbols@.len() <= usize::MAX
        &&& self.symbols@.len() == self.hashes@.len()
        &&& self.table.spec_size() == self.symbols@.len()
        &&& forall|e: int| 0 <= e < self.hashes@.len() ==> #[trigger] self.hashes@[e] == hash_bytes(
            self.symbols@[e]@,
        )
        &&& forall|e: usize| #[trigger] self.table.contains_entry(e) <==> e < self.symbols@.len()
        &&& distinct(self.view())
    }

    pub proof fn lemma_distinct(&self)
        requires
            self.wf(),
        ensures
            distinct(self@),
    {
    }

    pub fn new() -> (r: SymbolTable)
        ensures
            r.wf(),
            r@ == Seq::<Seq<u8>>::empty(),
    {
        let r = SymbolTable { table: HashTable::new(), symbols: Vec::new(), hashes: Vec::new() };
        assert(views(r.symbols@) =~= Seq::<Seq<u8>>::empty());
        r
    }

    pub fn len(&self) -> (r: usize)
        requires
            self.wf(),
        ensures
            r == self@.len(),
    {
        self.symbols.len()
    }

    /// The symbol for `content`, added if it is new.
    pub fn get_or_insert(&mut self, content: &[u8]) -> (r: usize)
        requires
            old(self).wf(),
            old(self)@.len() < MAX_CAPACITY / 16,
        ensures
            final(self).wf(),
            (final(self)@, r as int) == intern_spec(old(self)@, content@),
            r < final(self)@.len(),
            final(self)@[r as int] == content@,
    {
        let h = hash_utf8(content);
        proof {
            assert forall|e: int| 0 <= e < self.symbols@.len() && (#[trigger] self.symbols@[e])@ == content@ implies self.hashes@[e] == h by {}
        }
        match self.table.get_value_by_str(&self.hashes, &self.symbols, content, h) {
            Some(e) => {
                proof {
                    assert(self@[e as int] == content@);
                    assert(self@.contains(content@));
                    let i = self@.index_of(content@);
                    if i != e {
                        assert(self@[i] == self@[e as int]);
                    }
                }
                e
            },
            None => {
                proof {
                    if self@.contains(content@) {
                        let i = choose|i: int| 0 <= i < self@.len() && self@[i] == content@;
                        assert(self.table.contains_entry(i as usize));
                    }
                }
                let ghost o = self@;
                let e = self.symbols.len();
                self.symbols.push(crate::util::bytes_range(content, 0, content.len()));
                self.hashes.push(h);
                proof {
                    self.table.lemma_wf_extend(old(self).hashes@, self.hashes@);
                    assert forall|i: int| 0 <= i < self@.len() implies self@[i] == o.push(content@)[i] by {
                        if i < e {
                            assert(self.symbols@[i] == old(self).symbols@[i]);
                        }
                    }
                    assert(self@ =~= o.push(content@));
                    lemma_intern_spec(o, content@);
                }
                self.table.insert(&self.hashes, e);
                e
            },
        }
    }

    /// The symbol for `content`, if it was interned.
    pub fn get(&self, content: &[u8]) -> (r: Option<usize>)
        requires
            self.wf(),
        ensures
            self@.contains(content@) ==> r == Some(self@.index_of(content@) as usize),
            !self@.contains(content@) ==> r.is_none(),
            r matches Some(i) ==> i < self@.len() && self@[i as int] == content@,
    {
        let h = hash_utf8(content);
        match self.table.get_value_by_str(&self.hashes, &self.symbols, content, h) {
            Some(e) => {
                proof {
                    assert(self@[e as int] == content@);
                    assert(self@.contains(content@));
                    let i = self@.index_of(content@);
                    if i != e {
                        assert(self@[i] == self@[e as int]);
                    }
                }
                Some(e)
            },
            None => {
                proof {
                    if self@.contains(content@) {
                        let i = choose|i: int| 0 <= i < self@.len() && self@[i] == content@;
                        assert(self.table.contains_entry(i as usize));
                    }
                }
                None
            },
        }
    }

    /// The bytes of symbol `s`.
    pub fn as_bytes(&self, s: usize) -> (r: &[u8])
        requires
            s < self@.len(),
        ensures
            r@ == self@[s as int],
    {
        self.symbols[s].as_slice()
    }

    /// The hash of symbol `s`.
    pub fn hash_of(&self, s: usize) -> (r: u32)
        requires
            self.wf(),
            s < self@.len(),
        ensures
            r == hash_bytes(self@[s as int]),
    {
        self.hashes[s]
    }
}

} // verus!
