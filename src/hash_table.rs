//! A resizable open-addressing hash table with quadratic probing. It stores
//! entry numbers only; the entries themselves (and their hashes) live in an
//! arena owned by the caller, which is handed to each operation.
use vstd::prelude::*;
use rand::Rng;

verus! {

/// The largest capacity a table is ever given.
pub const MAX_CAPACITY: usize = 1073741824;

/// Relies on rand's `thread_rng().gen_range(lo..hi)`: a value drawn from
/// `[lo, hi)`, which panics only on an empty range.
#[verifier::external_body]
fn random_in(lo: u64, hi: u64) -> (r: u64)
    requires
        lo < hi,
    ensures
        lo <= r < hi,
{
    rand::thread_rng().gen_range(lo..hi)
}

/// `n` has no divisor `d` with `2 <= d` and `d * d <= n`.
pub open spec fn is_prime_spec(n: int) -> bool {
    n >= 2 && forall|d: int| 2 <= d < n && d * d <= n ==> #[trigger] (n % d) != 0
}

pub fn is_prime(n: u64) -> (r: bool)
    requires
        n <= 0xffff_ffff,
    ensures
        r == is_prime_spec(n as int),
{
    if n < 2 {
        return false;
    }
    let mut d: u64 = 2;
    while d * d <= n
        invariant
            2 <= d <= 65536,
            d * d <= 0x1_0000_0000,
            2 <= n <= 0xffff_ffff,
            forall|k: int| 2 <= k < d ==> #[trigger] (n as int % k) != 0,
        decreases 65536 - d,
    {
        if n % d == 0 {
            assert(d * d <= n ==> d < n) by (nonlinear_arith)
                requires
                    d >= 2,
            ;
            return false;
        }
        assert(d * d <= 0xffff_ffff ==> d < 65536) by (nonlinear_arith)
            requires
                d >= 2,
        ;
        d = d + 1;
        assert(d * d <= 0x1_0000_0000) by (nonlinear_arith)
            requires
                d <= 65536,
        ;
    }
    assert forall|k: int| 2 <= k < n && k * k <= n implies #[trigger] (n as int % k) != 0 by {
        if k >= d {
            assert(k * k >= d * d) by (nonlinear_arith)
                requires
                    k >= d,
                    d >= 0,
            ;
        }
    }
    true
}

/// The search for a prime stops here.
pub const PRIME_SEARCH_LIMIT: u64 = 0x8000_0000;

/// The first prime at or above `n` (2 for `n <= 2`), unless none lies below
/// the search limit, in which case the limit itself.
pub fn next_prime(n: u64) -> (r: u64)
    requires
        n <= MAX_CAPACITY,
    ensures
        r >= n,
        r >= 2,
        r <= PRIME_SEARCH_LIMIT,
        r < PRIME_SEARCH_LIMIT ==> is_prime_spec(r as int),
        forall|m: int| n <= m < r ==> !is_prime_spec(m),
{
    let mut c: u64 = if n < 2 {
        2
    } else {
        n
    };
    while c < PRIME_SEARCH_LIMIT
        invariant
            n <= c <= PRIME_SEARCH_LIMIT || (n < 2 && c == 2),
            forall|m: int| n <= m < c ==> !is_prime_spec(m),
        decreases PRIME_SEARCH_LIMIT - c,
    {
        if is_prime(c) {
            return c;
        }
        c = c + 1;
    }
    c
}

/// The universal hash `((a * key + b) mod p) mod capacity`.
pub struct TableHasher {
    pub a: u64,
    pub b: u64,
    pub p: u64,
}

impl TableHasher {
    pub open spec fn wf(&self) -> bool {
        0 < self.p <= PRIME_SEARCH_LIMIT && self.a < self.p && self.b < self.p
    }

    pub open spec fn spec_hash(&self, val: u32, capacity: int) -> int {
        ((self.a * val + self.b) % (self.p as int)) % capacity
    }

    pub fn hash(&self, val: u32, capacity: usize) -> (r: usize)
        requires
            self.wf(),
            capacity > 0,
        ensures
            r == self.spec_hash(val, capacity as int),
            r < capacity,
    {
        assert(self.a * (val as u64) <= 0x8000_0000 * 0xffff_ffff) by (nonlinear_arith)
            requires
                self.a <= 0x8000_0000,
                val <= 0xffff_ffff,
        ;
        (((self.a * (val as u64) + self.b) % self.p) % (capacity as u64)) as usize
    }
}

/// The entries of the occupied slots, in slot order.
pub open spec fn entries_of(s: Seq<Option<usize>>) -> Seq<usize>
    decreases s.len(),
{
    if s.len() == 0 {
        Seq::empty()
    } else {
        entries_of(s.drop_last()) + match s.last() {
            Some(e) => seq![e],
            None => Seq::empty(),
        }
    }
}

/// Step `i` of the quadratic probe sequence around `home` in a table of
/// `cap` slots: `home`, then `+1, -1, +4, -4, +9, ...`, modulo `cap`.
pub open spec fn probe_pos(home: int, cap: int, i: int) -> int {
    let k = (i + 1) / 2;
    let sq = (k * k) % cap;
    if i % 2 == 1 {
        (home + sq) % cap
    } else {
        (home + cap - sq) % cap
    }
}

/// How many slots are occupied.
pub open spec fn count_some(s: Seq<Option<usize>>) -> nat
    decreases s.len(),
{
    if s.len() == 0 {
        0
    } else {
        count_some(s.drop_last()) + if s.last() is Some {
            1nat
        } else {
            0nat
        }
    }
}

pub proof fn lemma_count_le_len(s: Seq<Option<usize>>)
    ensures
        count_some(s) <= s.len(),
        count_some(s) == s.len() ==> forall|i: int| 0 <= i < s.len() ==> s[i] is Some,
    decreases s.len(),
{
    if s.len() > 0 {
        lemma_count_le_len(s.drop_last());
        assert forall|i: int| 0 <= i < s.len() - 1 implies s.drop_last()[i] == s[i] by {}
    }
}

pub proof fn lemma_count_update(s: Seq<Option<usize>>, i: int, v: usize)
    requires
        0 <= i < s.len(),
        s[i] is None,
    ensures
        count_some(s.update(i, Some(v))) == count_some(s) + 1,
    decreases s.len(),
{
    let t = s.update(i, Some(v));
    if i == s.len() - 1 {
        assert(t.drop_last() =~= s.drop_last());
    } else {
        lemma_count_update(s.drop_last(), i, v);
        assert(t.drop_last() =~= s.drop_last().update(i, Some(v)));
    }
}

pub proof fn lemma_count_prefix(s: Seq<Option<usize>>, k: int)
    requires
        0 <= k < s.len(),
    ensures
        count_some(s.subrange(0, k + 1)) == count_some(s.subrange(0, k)) + if s[k] is Some {
            1nat
        } else {
            0nat
        },
        count_some(s.subrange(0, k + 1)) <= count_some(s),
{
    assert(s.subrange(0, k + 1).drop_last() =~= s.subrange(0, k));
    lemma_count_prefix_le(s, k + 1);
}

pub proof fn lemma_count_prefix_le(s: Seq<Option<usize>>, k: int)
    requires
        0 <= k <= s.len(),
    ensures
        count_some(s.subrange(0, k)) <= count_some(s),
    decreases s.len() - k,
{
    if k == s.len() {
        assert(s.subrange(0, k) =~= s);
    } else {
        lemma_count_prefix_le(s, k + 1);
        assert(s.subrange(0, k + 1).drop_last() =~= s.subrange(0, k));
    }
}

/// The table: `slots` holds entry numbers; `probe_idx` records, for each
/// occupied slot, at which step of its entry's probe sequence it was placed
/// (the capacity itself when it was placed past the whole sequence).
pub struct HashTable {
    capacity: usize,
    size: usize,
    slots: Vec<Option<usize>>,
    hasher: TableHasher,
    probe_idx: Ghost<Seq<int>>,
}

impl HashTable {
    pub closed spec fn spec_capacity(&self) -> int {
        self.capacity as int
    }

    pub closed spec fn spec_size(&self) -> int {
        self.size as int
    }

    pub closed spec fn slot(&self, s: int) -> Option<usize> {
        self.slots@[s]
    }

    /// Slot of step `i` of the probe sequence of hash `h`: the home slot,
    /// then `+1, -1, +4, -4, +9, ...` around it, modulo the capacity.
    pub closed spec fn pos(&self, h: u32, i: int) -> int {
        let cap = self.capacity as int;
        let o = self.hasher.spec_hash(h, cap);
        let k = (i + 1) / 2;
        let sq = (k * k) % cap;
        if i % 2 == 1 {
            (o + sq) % cap
        } else {
            (o + cap - sq) % cap
        }
    }

    /// The home slot of hash `h`: `((a * h + b) mod p) mod capacity`.
    pub closed spec fn spec_home(&self, h: u32) -> int {
        self.hasher.spec_hash(h, self.capacity as int)
    }

    /// The probe sequence is the quadratic one around the home slot.
    pub proof fn lemma_pos(&self, h: u32, i: int)
        ensures
            self.pos(h, i) == probe_pos(self.spec_home(h), self.spec_capacity(), i),
    {
    }

    /// Entry `e` lies on the probe sequence of hash `h`, after only
    /// occupied slots; or the whole sequence is occupied (and `e` was put
    /// in a free slot elsewhere).
    pub open spec fn placed_on_probe(&self, h: u32, e: usize) -> bool {
        ||| exists|j: int|
            0 <= j < self.spec_capacity() && #[trigger] self.slot(self.pos(h, j)) == Some(e) && forall|i: int|
                0 <= i < j ==> (#[trigger] self.slot(self.pos(h, i))) is Some
        ||| (forall|i: int| 0 <= i < self.spec_capacity() ==> (#[trigger] self.slot(self.pos(h, i))) is Some)
            && self.contains_entry(e)
    }

    pub closed spec fn reach_ok(&self, hashes: Seq<u32>, s: int) -> bool {
        let cap = self.capacity as int;
        let h = hashes[self.slots@[s].unwrap() as int];
        let j = self.probe_idx@[s];
        ||| (0 <= j < cap && self.pos(h, j) == s && forall|i: int|
            0 <= i < j ==> (#[trigger] self.slots@[self.pos(h, i)]) is Some)
        ||| (j == cap && forall|i: int|
            0 <= i < cap ==> (#[trigger] self.slots@[self.pos(h, i)]) is Some)
    }

    /// Well-formed over an arena whose entry `e` has hash `hashes[e]`.
    pub closed spec fn wf(&self, hashes: Seq<u32>) -> bool {
        &&& 0 < self.capacity <= MAX_CAPACITY
        &&& self.slots@.len() == self.capacity
        &&& self.probe_idx@.len() == self.capacity
        &&& self.hasher.wf()
        &&& self.size == count_some(self.slots@)
        &&& forall|s: int|
            0 <= s < self.capacity && (#[trigger] self.slots@[s]) is Some ==> self.slots@[s].unwrap()
                < hashes.len()
        &&& forall|s1: int, s2: int|
            0 <= s1 < self.capacity && 0 <= s2 < self.capacity && (#[trigger] self.slots@[s1]) is Some
                && (#[trigger] self.slots@[s2]) == self.slots@[s1] ==> s1 == s2
        &&& forall|s: int|
            0 <= s < self.capacity && (#[trigger] self.slots@[s]) is Some ==> self.reach_ok(
                hashes,
                s,
            )
    }

    /// Whether entry `e` is stored in the table.
    pub open spec fn contains_entry(&self, e: usize) -> bool {
        exists|s: int| 0 <= s < self.spec_capacity() && #[trigger] self.slot(s) == Some(e)
    }

    /// The stored entries in slot order, each occupied slot once.
    pub closed spec fn spec_entries(&self) -> Seq<usize> {
        entries_of(self.slots@)
    }

    /// The stored entries in slot order are the entries of the slots
    /// `slot(0), slot(1), ...`; in a well-formed table each occurs once.
    pub proof fn lemma_entries(&self, hashes: Seq<u32>)
        requires
            self.wf(hashes),
        ensures
            self.spec_entries() == entries_of(Seq::new(self.spec_capacity() as nat, |i: int| self.slot(i))),
    {
        assert(self.slots@ =~= Seq::new(self.spec_capacity() as nat, |i: int| self.slot(i)));
    }

    /// One slot per unit of capacity.
    pub closed spec fn well_shaped(&self) -> bool {
        self.slots@.len() == self.capacity
    }

    pub proof fn lemma_wf_shaped(&self, hashes: Seq<u32>)
        requires
            self.wf(hashes),
        ensures
            self.well_shaped(),
    {
    }

    /// Growing the arena of hashes keeps a table well-formed.
    pub proof fn lemma_wf_extend(&self, hashes: Seq<u32>, hashes2: Seq<u32>)
        requires
            self.wf(hashes),
            hashes.len() <= hashes2.len(),
            forall|i: int| 0 <= i < hashes.len() ==> hashes2[i] == hashes[i],
        ensures
            self.wf(hashes2),
    {
        assert forall|s: int| 0 <= s < self.capacity && (#[trigger] self.slots@[s]) is Some implies self.reach_ok(hashes2, s) by {
            assert(self.reach_ok(hashes, s));
        }
    }

    pub fn new() -> (r: HashTable)
        ensures
            r.wf(Seq::empty()),
            r.well_shaped(),
            r.spec_size() == 0,
            forall|e: usize| !r.contains_entry(e),
    {
        Self::new_with_init_size(8)
    }

    /// An empty table with room for about `init_size` entries.
    pub fn new_with_init_size(init_size: usize) -> (r: HashTable)
        requires
            init_size <= MAX_CAPACITY / 2,
        ensures
            forall|hs: Seq<u32>| r.wf(hs),
            r.well_shaped(),
            r.spec_size() == 0,
            forall|e: usize| !r.contains_entry(e),
            r.spec_capacity() >= init_size / 3 * 4,
    {
        let want = init_size / 3 * 4;
        let p0 = next_prime(want as u64);
        let capacity: usize = if p0 > MAX_CAPACITY as u64 {
            MAX_CAPACITY
        } else {
            p0 as usize
        };
        let p = next_prime(capacity as u64);
        let a = random_in(1, p);
        let b = random_in(0, p);
        let mut slots: Vec<Option<usize>> = Vec::new();
        let mut k: usize = 0;
        while k < capacity
            invariant
                k <= capacity,
                slots@.len() == k,
                forall|i: int| 0 <= i < k ==> slots@[i] is None,
            decreases capacity - k,
        {
            slots.push(None);
            k = k + 1;
        }
        let r = HashTable {
            capacity,
            size: 0,
            slots,
            hasher: TableHasher { a, b, p },
            probe_idx: Ghost(Seq::new(capacity as nat, |i: int| 0)),
        };
        proof {
            lemma_count_zero(r.slots@);
        }
        r
    }

    pub fn capacity(&self) -> (r: usize)
        ensures
            r == self.spec_capacity(),
    {
        self.capacity
    }

    /// Every stored entry, in slot order (what a walk over the table
    /// visits).
    pub fn foreach_entries(&self) -> (r: Vec<usize>)
        requires
            self.well_shaped(),
        ensures
            forall|e: usize| #[trigger] self.contains_entry(e) <==> r@.contains(e),
            r@ == self.spec_entries(),
    {
        let mut r: Vec<usize> = Vec::new();
        let mut s: usize = 0;
        while s < self.slots.len()
            invariant
                0 <= s <= self.slots@.len(),
                self.slots@.len() == self.capacity,
                r@ == entries_of(self.slots@.subrange(0, s as int)),
                forall|e: usize| (exists|t: int| 0 <= t < s && #[trigger] self.slots@[t] == Some(e)) <==> r@.contains(e),
            decreases self.slots@.len() - s,
        {
            proof {
                assert(self.slots@.subrange(0, s + 1).drop_last() =~= self.slots@.subrange(0, s as int));
            }
            match self.slots[s] {
                Some(e) => {
                    let ghost before = r@;
                    r.push(e);
                    proof {
                        assert forall|x: usize| (exists|t: int| 0 <= t < s + 1 && #[trigger] self.slots@[t] == Some(x)) <==> r@.contains(x) by {
                            assert(before.contains(x) == (exists|t: int| 0 <= t < s && #[trigger] self.slots@[t] == Some(x)));
                            if r@.contains(x) && x != e {
                                let k = choose|k: int| 0 <= k < r@.len() && r@[k] == x;
                                assert(before[k] == x);
                                assert(before.contains(x));
                            }
                            if x == e {
                                assert(r@[r@.len() - 1] == e);
                                assert(self.slots@[s as int] == Some(x));
                            }
                            if exists|t: int| 0 <= t < s + 1 && #[trigger] self.slots@[t] == Some(x) {
                                if !(exists|t: int| 0 <= t < s && #[trigger] self.slots@[t] == Some(x)) {
                                    assert(self.slots@[s as int] == Some(x));
                                    assert(r@[r@.len() - 1] == x);
                                } else {
                                    let k = choose|k: int| 0 <= k < before.len() && before[k] == x;
                                    assert(r@[k] == x);
                                }
                            }
                        }
                    }
                },
                None => {
                    proof {
                        assert forall|x: usize| (exists|t: int| 0 <= t < s + 1 && #[trigger] self.slots@[t] == Some(x)) <==> r@.contains(x) by {
                            assert(r@.contains(x) == (exists|t: int| 0 <= t < s && #[trigger] self.slots@[t] == Some(x)));
                            if exists|t: int| 0 <= t < s + 1 && #[trigger] self.slots@[t] == Some(x) {
                                let t = choose|t: int| 0 <= t < s + 1 && #[trigger] self.slots@[t] == Some(x);
                                assert(t != s);
                            }
                        }
                    }
                },
            }
            s = s + 1;
        }
        proof {
            assert(self.slots@.subrange(0, s as int) =~= self.slots@);
            assert forall|e: usize| #[trigger] self.contains_entry(e) <==> r@.contains(e) by {
                if self.contains_entry(e) {
                    let t = choose|t: int| 0 <= t < self.spec_capacity() && #[trigger] self.slot(t) == Some(e);
                    assert(self.slots@[t] == Some(e));
                }
                if r@.contains(e) {
                    let t = choose|t: int| 0 <= t < s && #[trigger] self.slots@[t] == Some(e);
                    assert(self.slot(t) == Some(e));
                }
            }
        }
        r
    }

    fn probe_at(&self, h: u32, i: usize) -> (r: usize)
        requires
            self.hasher.wf(),
            0 < self.capacity <= MAX_CAPACITY,
            i <= self.capacity,
        ensures
            r == self.pos(h, i as int),
            r < self.capacity,
    {
        let cap = self.capacity;
        let o = self.hasher.hash(h, cap);
        let k: usize = (i + 1) / 2;
        assert(k * k <= MAX_CAPACITY * MAX_CAPACITY) by (nonlinear_arith)
            requires
                k <= MAX_CAPACITY,
        ;
        let sq: usize = ((k as u64 * k as u64) % (cap as u64)) as usize;
        if i % 2 == 1 {
            (o + sq) % cap
        } else {
            (o + cap - sq) % cap
        }
    }

    /// The entry whose key is `key` (of hash `h`), if one is stored.
    #[verifier::rlimit(60)]
    pub fn get_value_by_str(
        &self,
        hashes: &Vec<u32>,
        keys: &Vec<Vec<u8>>,
        key: &[u8],
        h: u32,
    ) -> (r: Option<usize>)
        requires
            self.wf(hashes@),
            keys@.len() == hashes@.len(),
            forall|e: int| 0 <= e < keys@.len() && (#[trigger] keys@[e])@ == key@ ==> hashes@[e] == h,
        ensures
            r matches Some(e) ==> self.contains_entry(e) && keys@[e as int]@ == key@,
            r is None ==> forall|e: usize| #[trigger] self.contains_entry(e) ==> keys@[e as int]@ != key@,
            r matches Some(e) ==> (exists|j: int|
                0 <= j < self.spec_capacity() && #[trigger] self.slot(self.pos(h, j)) == Some(e) && forall|i: int|
                    0 <= i < j ==> (#[trigger] self.slot(self.pos(h, i))) is Some && keys@[self.slot(self.pos(h, i)).unwrap() as int]@ != key@)
                || forall|i: int| 0 <= i < self.spec_capacity() ==> (#[trigger] self.slot(self.pos(h, i))) is Some
                    && keys@[self.slot(self.pos(h, i)).unwrap() as int]@ != key@,
    {
        let cap = self.capacity;
        let mut i: usize = 0;
        while i < cap
            invariant
                self.wf(hashes@),
                keys@.len() == hashes@.len(),
                cap == self.capacity,
                forall|e: int| 0 <= e < keys@.len() && (#[trigger] keys@[e])@ == key@ ==> hashes@[e] == h,
                0 <= i <= cap,
                forall|j: int|
                    0 <= j < i ==> (#[trigger] self.slots@[self.pos(h, j)]) is Some && keys@[self.slots@[self.pos(h, j)].unwrap() as int]@ != key@,
            decreases cap - i,
        {
            let p = self.probe_at(h, i);
            match self.slots[p] {
                None => {
                    proof {
                        assert forall|e: usize| #[trigger] self.contains_entry(e) implies keys@[e as int]@ != key@ by {
                            let s = choose|s: int| 0 <= s < self.spec_capacity() && #[trigger] self.slot(s) == Some(e);
                            assert(self.slots@[s] == Some(e));
                            assert(e < hashes@.len());
                            assert(self.reach_ok(hashes@, s));
                            if keys@[e as int]@ == key@ {
                                assert(hashes@[e as int] == h);
                                let j = self.probe_idx@[s];
                                if j < cap {
                                    if j < i {
                                        assert(self.slots@[self.pos(h, j)] is Some);
                                    } else if j == i {
                                    } else {
                                        assert(self.slots@[self.pos(h, i as int)] is Some);
                                    }
                                } else {
                                    assert(self.slots@[self.pos(h, i as int)] is Some);
                                }
                            }
                        }
                    }
                    return None;
                },
                Some(e) => {
                    if crate::util::bytes_eq(keys[e].as_slice(), key) {
                        assert(self.slot(p as int) == Some(e));
                        return Some(e);
                    }
                },
            }
            i = i + 1;
        }
        let mut s: usize = 0;
        while s < cap
            invariant
                self.wf(hashes@),
                keys@.len() == hashes@.len(),
                cap == self.capacity,
                0 <= s <= cap,
                forall|t: int|
                    0 <= t < s && (#[trigger] self.slots@[t]) is Some ==> keys@[self.slots@[t].unwrap() as int]@ != key@,
                forall|i: int| 0 <= i < self.spec_capacity() ==> (#[trigger] self.slot(self.pos(h, i))) is Some
                    && keys@[self.slot(self.pos(h, i)).unwrap() as int]@ != key@,
            decreases cap - s,
        {
            match self.slots[s] {
                Some(e) => {
                    if crate::util::bytes_eq(keys[e].as_slice(), key) {
                        assert(self.slot(s as int) == Some(e));
                        return Some(e);
                    }
                },
                None => {},
            }
            s = s + 1;
        }
        proof {
            assert forall|e: usize| #[trigger] self.contains_entry(e) implies keys@[e as int]@ != key@ by {
                let t = choose|t: int| 0 <= t < self.spec_capacity() && #[trigger] self.slot(t) == Some(e);
                assert(self.slots@[t] is Some);
            }
        }
        None
    }

    /// Puts `e` into the empty slot `p`, reached at step `j` of its probe
    /// sequence (`j` is the capacity when reached by the fallback scan).
    fn place(&mut self, hashes: &Vec<u32>, e: usize, p: usize, j: Ghost<int>)
        requires
            old(self).wf(hashes@),
            e < hashes@.len(),
            !old(self).contains_entry(e),
            p < old(self).capacity,
            old(self).slots@[p as int] is None,
            (0 <= j@ < old(self).capacity && old(self).pos(hashes@[e as int], j@) == p && forall|i: int|
                0 <= i < j@ ==> (#[trigger] old(self).slots@[old(self).pos(hashes@[e as int], i)]) is Some)
                || (j@ == old(self).capacity && forall|i: int|
                0 <= i < old(self).capacity ==> (#[trigger] old(self).slots@[old(self).pos(hashes@[e as int], i)]) is Some),
        ensures
            final(self).wf(hashes@),
            final(self).capacity == old(self).capacity,
            final(self).size == old(self).size + 1,
            forall|x: usize| #[trigger] final(self).contains_entry(x) == (old(self).contains_entry(x) || x == e),
    {
        let ghost o = *self;
        proof {
            lemma_count_update(self.slots@, p as int, e);
            lemma_count_le_len(self.slots@.update(p as int, Some(e)));
        }
        self.slots.set(p, Some(e));
        self.size = self.size + 1;
        self.probe_idx = Ghost(self.probe_idx@.update(p as int, j@));
        proof {
            assert(forall|h: u32, i: int| #[trigger] self.pos(h, i) == o.pos(h, i));
            assert forall|s: int| 0 <= s < self.capacity && (#[trigger] self.slots@[s]) is Some implies self.reach_ok(hashes@, s) by {
                if s != p {
                    assert(o.slots@[s] is Some);
                    assert(o.reach_ok(hashes@, s));
                    let h = hashes@[o.slots@[s].unwrap() as int];
                    assert forall|i: int| 0 <= i < self.capacity && o.slots@[o.pos(h, i)] is Some implies (#[trigger] self.slots@[self.pos(h, i)]) is Some by {
                        assert(self.pos(h, i) == o.pos(h, i));
                    }
                } else {
                    let h = hashes@[e as int];
                    assert forall|i: int| 0 <= i < self.capacity && o.slots@[o.pos(h, i)] is Some implies (#[trigger] self.slots@[self.pos(h, i)]) is Some by {
                        assert(self.pos(h, i) == o.pos(h, i));
                    }
                }
            }
            assert forall|s1: int, s2: int|
                0 <= s1 < self.capacity && 0 <= s2 < self.capacity && (#[trigger] self.slots@[s1]) is Some
                    && (#[trigger] self.slots@[s2]) == self.slots@[s1] implies s1 == s2 by {
                if s1 != p && s2 != p {
                    assert(o.slots@[s1] is Some);
                } else if s1 == p && s2 != p {
                    assert(o.slot(s2) == Some(e));
                } else if s1 != p && s2 == p {
                    assert(o.slot(s1) == Some(e));
                }
            }
            assert forall|x: usize| #[trigger] self.contains_entry(x) == (o.contains_entry(x) || x == e) by {
                if o.contains_entry(x) {
                    let t = choose|t: int| 0 <= t < o.spec_capacity() && #[trigger] o.slot(t) == Some(x);
                    assert(self.slot(t) == Some(x));
                }
                if x == e {
                    assert(self.slot(p as int) == Some(x));
                }
                if self.contains_entry(x) {
                    let t = choose|t: int| 0 <= t < self.spec_capacity() && #[trigger] self.slot(t) == Some(x);
                    if t != p {
                        assert(o.slot(t) == Some(x));
                    }
                }
            }
        }
    }

    /// Stores `e` in the first empty slot of its probe sequence, or in the
    /// first empty slot at all when the whole sequence is occupied.
    fn insert_no_grow(&mut self, hashes: &Vec<u32>, e: usize)
        requires
            old(self).wf(hashes@),
            e < hashes@.len(),
            !old(self).contains_entry(e),
            old(self).size < old(self).capacity,
        ensures
            final(self).wf(hashes@),
            final(self).capacity == old(self).capacity,
            final(self).size == old(self).size + 1,
            forall|x: usize| #[trigger] final(self).contains_entry(x) == (old(self).contains_entry(x) || x == e),
    {
        let h = hashes[e];
        let cap = self.capacity;
        let mut i: usize = 0;
        while i < cap
            invariant
                self.wf(hashes@),
                *self == *old(self),
                !self.contains_entry(e),
                self.size < self.capacity,
                e < hashes@.len(),
                cap == self.capacity,
                h == hashes@[e as int],
                0 <= i <= cap,
                forall|j: int| 0 <= j < i ==> (#[trigger] self.slots@[self.pos(h, j)]) is Some,
            decreases cap - i,
        {
            let p = self.probe_at(h, i);
            if self.slots[p].is_none() {
                self.place(hashes, e, p, Ghost(i as int));
                return;
            }
            i = i + 1;
        }
        let mut s: usize = 0;
        while s < cap
            invariant
                self.wf(hashes@),
                *self == *old(self),
                !self.contains_entry(e),
                self.size < self.capacity,
                e < hashes@.len(),
                cap == self.capacity,
                h == hashes@[e as int],
                0 <= s <= cap,
                forall|j: int| 0 <= j < cap ==> (#[trigger] self.slots@[self.pos(h, j)]) is Some,
                forall|t: int| 0 <= t < s ==> (#[trigger] self.slots@[t]) is Some,
            decreases cap - s,
        {
            if self.slots[s].is_none() {
                self.place(hashes, e, s, Ghost(cap as int));
                return;
            }
            s = s + 1;
        }
        proof {
            lemma_all_some_count(self.slots@);
        }
    }

    /// Adds entry `e`, first rebuilding the table larger when the load factor
    /// would reach three quarters.
    pub fn insert(&mut self, hashes: &Vec<u32>, e: usize)
        requires
            old(self).wf(hashes@),
            e < hashes@.len(),
            !old(self).contains_entry(e),
            old(self).spec_size() < MAX_CAPACITY / 16,
        ensures
            final(self).wf(hashes@),
            final(self).spec_size() == old(self).spec_size() + 1,
            forall|x: usize| #[trigger] final(self).contains_entry(x) == (old(self).contains_entry(x) || x == e),
            final(self).placed_on_probe(hashes@[e as int], e),
    {
        if (self.size + 1) * 4 >= self.capacity * 3 {
            self.rebuild(hashes);
        }
        self.insert_no_grow(hashes, e);
        proof {
            assert(self.contains_entry(e));
            let t = choose|t: int| 0 <= t < self.spec_capacity() && #[trigger] self.slot(t) == Some(e);
            assert(self.slots@[t] == Some(e));
            assert(self.reach_ok(hashes@, t));
            let h = hashes@[e as int];
            let j = self.probe_idx@[t];
            if 0 <= j < self.capacity && self.pos(h, j) == t {
                assert(self.slot(self.pos(h, j)) == Some(e));
            }
        }
    }

    /// Moves every entry into a new table of about four times the entries.
    fn rebuild(&mut self, hashes: &Vec<u32>)
        requires
            old(self).wf(hashes@),
            old(self).size < MAX_CAPACITY / 16,
        ensures
            final(self).wf(hashes@),
            final(self).size == old(self).size,
            final(self).size + 1 < final(self).capacity,
            forall|x: usize| #[trigger] final(self).contains_entry(x) == old(self).contains_entry(x),
    {
        let mut t = HashTable::new_with_init_size((self.size + 1) * 4);
        let cap = self.capacity;
        let mut s: usize = 0;
        proof {
            lemma_count_le_len(self.slots@);
            assert(self.slots@.subrange(0, 0) =~= Seq::<Option<usize>>::empty());
        }
        while s < cap
            invariant
                self.wf(hashes@),
                t.wf(hashes@),
                cap == self.capacity,
                0 <= s <= cap,
                self.size < MAX_CAPACITY / 16,
                t.size == count_some(self.slots@.subrange(0, s as int)),
                t.size <= self.size,
                self.size + 1 < t.capacity,
                forall|x: usize|
                    #[trigger] t.contains_entry(x) == exists|u: int| 0 <= u < s && #[trigger] self.slot(u) == Some(x),
            decreases cap - s,
        {
            proof {
                lemma_count_prefix(self.slots@, s as int);
            }
            match self.slots[s] {
                Some(x) => {
                    proof {
                        if t.contains_entry(x) {
                            let u = choose|u: int| 0 <= u < s && #[trigger] self.slot(u) == Some(x);
                            assert(self.slots@[u] == self.slots@[s as int]);
                        }
                        assert(x < hashes@.len());
                    }
                    t.insert_no_grow(hashes, x);
                },
                None => {},
            }
            proof {
                assert forall|y: usize|
                    #[trigger] t.contains_entry(y) == exists|u: int| 0 <= u < s + 1 && #[trigger] self.slot(u) == Some(y) by {
                    if exists|u: int| 0 <= u < s + 1 && #[trigger] self.slot(u) == Some(y) {
                        let u = choose|u: int| 0 <= u < s + 1 && #[trigger] self.slot(u) == Some(y);
                        if u < s {
                            assert(exists|u: int| 0 <= u < s && #[trigger] self.slot(u) == Some(y));
                        }
                    }
                    if t.contains_entry(y) && self.slot(s as int) != Some(y) {
                        assert(exists|u: int| 0 <= u < s && #[trigger] self.slot(u) == Some(y));
                    }
                }
            }
            s = s + 1;
        }
        proof {
            assert(self.slots@.subrange(0, cap as int) =~= self.slots@);
            assert forall|x: usize| #[trigger] t.contains_entry(x) == self.contains_entry(x) by {
                if self.contains_entry(x) {
                    let u = choose|u: int| 0 <= u < self.spec_capacity() && #[trigger] self.slot(u) == Some(x);
                    assert(exists|u: int| 0 <= u < s && #[trigger] self.slot(u) == Some(x));
                }
            }
        }
        *self = t;
    }
}

pub proof fn lemma_count_zero(s: Seq<Option<usize>>)
    requires
        forall|i: int| 0 <= i < s.len() ==> s[i] is None,
    ensures
        count_some(s) == 0,
    decreases s.len(),
{
    if s.len() > 0 {
        lemma_count_zero(s.drop_last());
    }
}

} // verus!

verus! {

pub proof fn lemma_all_some_count(s: Seq<Option<usize>>)
    requires
        forall|i: int| 0 <= i < s.len() ==> (#[trigger] s[i]) is Some,
    ensures
        count_some(s) == s.len(),
    decreases s.len(),
{
    if s.len() > 0 {
        assert forall|i: int| 0 <= i < s.len() - 1 implies (#[trigger] s.drop_last()[i]) is Some by {
            assert(s.drop_last()[i] == s[i]);
        }
        lemma_all_some_count(s.drop_last());
    }
}

} // verus!
