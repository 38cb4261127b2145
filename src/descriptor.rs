//! Field and method descriptors: the textual encoding of types in class files.
use vstd::prelude::*;
use crate::memory::POINTER_SIZE;
use crate::util::bytes_range;

verus! {

/// Whether `c` is the letter of a primitive (non-void) type.
pub open spec fn is_prim(c: u8) -> bool {
    c == 66u8 || c == 67u8 || c == 68u8 || c == 70u8 || c == 73u8 || c == 74u8 || c == 83u8
        || c == 90u8
}

/// Width in bytes of a value of the primitive type with letter `c`.
pub open spec fn prim_size(c: u8) -> nat {
    if c == 68u8 || c == 74u8 {
        8
    } else if c == 73u8 || c == 70u8 {
        4
    } else if c == 67u8 || c == 83u8 {
        2
    } else {
        1
    }
}

/// The first index at or after `j` that holds `;`, or the length if none does.
pub open spec fn semi_from(s: Seq<u8>, j: int) -> int
    decreases s.len() - j,
{
    if j < 0 || j >= s.len() {
        s.len() as int
    } else if s[j] == 59u8 {
        j
    } else {
        semi_from(s, j + 1)
    }
}

pub proof fn lemma_semi_from_bounds(s: Seq<u8>, j: int)
    requires
        0 <= j <= s.len(),
    ensures
        j <= semi_from(s, j) <= s.len(),
        semi_from(s, j) < s.len() ==> s[semi_from(s, j)] == 59u8,
    decreases s.len() - j,
{
    if j < s.len() && s[j] != 59u8 {
        lemma_semi_from_bounds(s, j + 1);
    }
}

/// Where the field type that starts at `i` ends (exclusive), or -1 when no
/// well-formed field type starts there.
pub open spec fn field_end(s: Seq<u8>, i: int) -> int
    decreases s.len() - i,
{
    if i < 0 || i >= s.len() {
        -1
    } else if is_prim(s[i]) {
        i + 1
    } else if s[i] == 76u8 {
        let j = semi_from(s, i + 1);
        if j < s.len() && s[i + 1] != 91u8 {
            j + 1
        } else {
            -1
        }
    } else if s[i] == 91u8 {
        field_end(s, i + 1)
    } else {
        -1
    }
}

pub proof fn lemma_field_end_bounds(s: Seq<u8>, i: int)
    ensures
        field_end(s, i) >= 0 ==> i < field_end(s, i) <= s.len(),
    decreases s.len() - i,
{
    if 0 <= i < s.len() {
        if s[i] == 76u8 {
            lemma_semi_from_bounds(s, i + 1);
        } else if s[i] == 91u8 {
            lemma_field_end_bounds(s, i + 1);
        }
    }
}

/// A token as Verus sees it: names are byte sequences.
pub enum DescToken {
    Resolved(Seq<u8>, nat),
    Sym(Seq<u8>, nat),
    Open,
    Close,
    Invalid,
    End,
}

/// One token read at offset `o`, and the offset after it.
pub open spec fn next_spec(s: Seq<u8>, o: int) -> (DescToken, int) {
    if o < 0 || o >= s.len() {
        (DescToken::End, o)
    } else {
        let c = s[o];
        if c == 40u8 {
            (DescToken::Open, o + 1)
        } else if c == 41u8 {
            (DescToken::Close, o + 1)
        } else if c == 86u8 {
            (DescToken::Resolved(seq![c], 0), o + 1)
        } else if is_prim(c) {
            (DescToken::Resolved(seq![c], prim_size(c)), o + 1)
        } else if c == 76u8 || c == 91u8 {
            let e = field_end(s, o);
            if e >= 0 {
                if c == 76u8 {
                    (DescToken::Sym(s.subrange(o + 1, e - 1), POINTER_SIZE as nat), e)
                } else if o == 0 && s.len() == 2 && is_prim(s[1]) {
                    (DescToken::Resolved(s, POINTER_SIZE as nat), e)
                } else {
                    (DescToken::Sym(s.subrange(o, e), POINTER_SIZE as nat), e)
                }
            } else {
                (DescToken::Invalid, s.len() as int)
            }
        } else {
            (DescToken::Invalid, s.len() as int)
        }
    }
}

/// The descriptor text that a token stands for.
pub open spec fn emit_token(t: DescToken) -> Seq<u8> {
    match t {
        DescToken::Resolved(n, _) => n,
        DescToken::Sym(n, _) => if n.len() > 0 && n[0] == 91u8 {
            n
        } else {
            seq![76u8] + n + seq![59u8]
        },
        DescToken::Open => seq![40u8],
        DescToken::Close => seq![41u8],
        _ => Seq::empty(),
    }
}

/// One token of a descriptor. A primitive (or `void`) is resolved at once and
/// carries its one-letter name and width; so is a whole descriptor that is a
/// one-dimensional primitive array (`[I`), with the width of a reference.
/// Other class and array types carry their class name (`java/lang/String`,
/// `[[I`) and the width of a reference.
#[derive(Debug, PartialEq, Eq)]
pub enum Descriptor {
    ResolvedClass(Vec<u8>, usize),
    Symbol(Vec<u8>, usize),
    OpenParenthesis,
    CloseParenthesis,
    InvalidDescriptor,
    End,
}

impl Descriptor {
    pub open spec fn view(&self) -> DescToken {
        match self {
            Descriptor::ResolvedClass(n, w) => DescToken::Resolved(n@, *w as nat),
            Descriptor::Symbol(n, w) => DescToken::Sym(n@, *w as nat),
            Descriptor::OpenParenthesis => DescToken::Open,
            Descriptor::CloseParenthesis => DescToken::Close,
            Descriptor::InvalidDescriptor => DescToken::Invalid,
            Descriptor::End => DescToken::End,
        }
    }

    /// Whether this token is a field type (a parameter or a non-void result).
    pub open spec fn spec_is_field(&self) -> bool {
        match self {
            Descriptor::ResolvedClass(n, w) => *w != 0,
            Descriptor::Symbol(_, _) => true,
            _ => false,
        }
    }

    pub fn is_field(&self) -> (r: bool)
        ensures
            r == self.spec_is_field(),
    {
        match self {
            Descriptor::ResolvedClass(_, w) => *w != 0,
            Descriptor::Symbol(_, _) => true,
            _ => false,
        }
    }

    /// Writes the token back as descriptor text; a class name too long to
    /// be framed gives the name alone.
    pub fn to_bytes_checked(&self) -> (r: Vec<u8>)
        ensures
            (match self {
                Descriptor::Symbol(n, _) => n@.len() + 2 <= usize::MAX,
                _ => true,
            }) ==> r@ == emit_token(self.view()),
    {
        match self {
            Descriptor::Symbol(n, _) => {
                if n.len() > usize::MAX - 2 {
                    return bytes_range(n.as_slice(), 0, n.len());
                }
                self.to_bytes()
            },
            _ => self.to_bytes(),
        }
    }

    /// Writes the token back as descriptor text.
    pub fn to_bytes(&self) -> (r: Vec<u8>)
        requires
            match self {
                Descriptor::Symbol(n, _) => n@.len() + 2 <= usize::MAX,
                _ => true,
            },
        ensures
            r@ == emit_token(self.view()),
    {
        match self {
            Descriptor::ResolvedClass(n, _) => bytes_range(n.as_slice(), 0, n.len()),
            Descriptor::Symbol(n, _) => {
                if n.len() > 0 && n[0] == 91u8 {
                    bytes_range(n.as_slice(), 0, n.len())
                } else {
                    let mut r: Vec<u8> = Vec::new();
                    r.push(76u8);
                    let mut k: usize = 0;
                    while k < n.len()
                        invariant
                            0 <= k <= n@.len(),
                            r@ == seq![76u8] + n@.subrange(0, k as int),
                        decreases n@.len() - k,
                    {
                        r.push(n[k]);
                        k = k + 1;
                        assert(r@ =~= seq![76u8] + n@.subrange(0, k as int));
                    }
                    r.push(59u8);
                    assert(n@.subrange(0, n@.len() as int) =~= n@);
                    assert(r@ =~= seq![76u8] + n@ + seq![59u8]);
                    r
                }
            },
            Descriptor::OpenParenthesis => {
                let mut r: Vec<u8> = Vec::new();
                r.push(40u8);
                assert(r@ =~= seq![40u8]);
                r
            },
            Descriptor::CloseParenthesis => {
                let mut r: Vec<u8> = Vec::new();
                r.push(41u8);
                assert(r@ =~= seq![41u8]);
                r
            },
            _ => Vec::new(),
        }
    }
}

/// Reads descriptor tokens one after another from a byte run.
pub struct DescriptorParser {
    pub value: Vec<u8>,
    pub offset: usize,
}

impl DescriptorParser {
    pub fn from_bytes(value: &[u8]) -> (r: DescriptorParser)
        ensures
            r.value@ == value@,
            r.offset == 0,
    {
        DescriptorParser { value: bytes_range(value, 0, value.len()), offset: 0 }
    }

    /// The next token and the parser advanced past it; at the end of the
    /// input, `End` again and again.
    pub fn next(&mut self) -> (r: Descriptor)
        requires
            old(self).offset <= old(self).value@.len(),
        ensures
            final(self).value == old(self).value,
            final(self).offset <= final(self).value@.len(),
            r.view() == next_spec(old(self).value@, old(self).offset as int).0,
            final(self).offset == next_spec(old(self).value@, old(self).offset as int).1,
    {
        self.next_class()
    }

    /// The first index at or after `j` that holds `;`, or the length.
    fn scan_semi(&self, j: usize) -> (r: usize)
        requires
            j <= self.value@.len(),
        ensures
            r == semi_from(self.value@, j as int),
    {
        let mut k: usize = j;
        while k < self.value.len() && self.value[k] != 59u8
            invariant
                j <= k <= self.value@.len(),
                semi_from(self.value@, j as int) == semi_from(self.value@, k as int),
            decreases self.value@.len() - k,
        {
            k = k + 1;
        }
        k
    }

    /// Where the field type starting at `i` ends, if one starts there.
    fn scan_field_end(&self, i: usize) -> (r: Option<usize>)
        requires
            i <= self.value@.len(),
        ensures
            field_end(self.value@, i as int) >= 0 ==> r == Some(
                field_end(self.value@, i as int) as usize,
            ),
            field_end(self.value@, i as int) < 0 ==> r.is_none(),
            field_end(self.value@, i as int) <= self.value@.len(),
    {
        let s = &self.value;
        let mut k: usize = i;
        while k < s.len() && s[k] == 91u8
            invariant
                i <= k <= s@.len(),
                field_end(s@, i as int) == field_end(s@, k as int),
            decreases s@.len() - k,
        {
            k = k + 1;
        }
        if k >= s.len() {
            return None;
        }
        let c = s[k];
        if c == 66u8 || c == 67u8 || c == 68u8 || c == 70u8 || c == 73u8 || c == 74u8 || c
            == 83u8 || c == 90u8 {
            Some(k + 1)
        } else if c == 76u8 {
            let j = self.scan_semi(k + 1);
            if j < s.len() && s[k + 1] != 91u8 {
                Some(j + 1)
            } else {
                None
            }
        } else {
            None
        }
    }

    fn next_class(&mut self) -> (r: Descriptor)
        requires
            old(self).offset <= old(self).value@.len(),
        ensures
            final(self).value == old(self).value,
            final(self).offset <= final(self).value@.len(),
            r.view() == next_spec(old(self).value@, old(self).offset as int).0,
            final(self).offset == next_spec(old(self).value@, old(self).offset as int).1,
    {
        let o = self.offset;
        let len = self.value.len();
        if o >= len {
            return Descriptor::End;
        }
        let c = self.value[o];
        if c == 40u8 {
            self.offset = o + 1;
            Descriptor::OpenParenthesis
        } else if c == 41u8 {
            self.offset = o + 1;
            Descriptor::CloseParenthesis
        } else if c == 86u8 || c == 66u8 || c == 67u8 || c == 68u8 || c == 70u8 || c == 73u8
            || c == 74u8 || c == 83u8 || c == 90u8 {
            let size: usize = if c == 68u8 || c == 74u8 {
                8
            } else if c == 73u8 || c == 70u8 {
                4
            } else if c == 67u8 || c == 83u8 {
                2
            } else if c == 86u8 {
                0
            } else {
                1
            };
            let mut name: Vec<u8> = Vec::new();
            name.push(c);
            assert(name@ =~= seq![c]);
            self.offset = o + 1;
            Descriptor::ResolvedClass(name, size)
        } else if c == 76u8 || c == 91u8 {
            match self.scan_field_end(o) {
                Some(e) => {
                    proof {
                        lemma_semi_from_bounds(self.value@, o + 1);
                        lemma_field_end_bounds(self.value@, o as int);
                    }
                    if c == 91u8 && o == 0 && len == 2 {
                        let d = self.value[1];
                        if d == 66u8 || d == 67u8 || d == 68u8 || d == 70u8 || d == 73u8 || d == 74u8 || d
                            == 83u8 || d == 90u8 {
                            let whole = bytes_range(self.value.as_slice(), 0, 2);
                            assert(whole@ =~= self.value@);
                            self.offset = e;
                            return Descriptor::ResolvedClass(whole, POINTER_SIZE);
                        }
                    }
                    let name = if c == 76u8 {
                        bytes_range(self.value.as_slice(), o + 1, e - 1)
                    } else {
                        bytes_range(self.value.as_slice(), o, e)
                    };
                    self.offset = e;
                    Descriptor::Symbol(name, POINTER_SIZE)
                },
                None => {
                    self.offset = len;
                    Descriptor::InvalidDescriptor
                },
            }
        } else {
            self.offset = len;
            Descriptor::InvalidDescriptor
        }
    }
}


/// Whether a token stands for a field type: a primitive other than `void`,
/// a class or an array.
pub open spec fn token_is_field(t: DescToken) -> bool {
    match t {
        DescToken::Resolved(_, w) => w != 0,
        DescToken::Sym(_, _) => true,
        _ => false,
    }
}

/// A field descriptor: exactly one field type and nothing after it.
pub open spec fn valid_field_descriptor(s: Seq<u8>) -> bool {
    field_end(s, 0) == s.len()
}

/// Where the parameter list that starts at `i` is closed by `)`, or -1.
pub open spec fn params_end(s: Seq<u8>, i: int) -> int
    decreases s.len() - i,
{
    if i < 0 || i >= s.len() {
        -1
    } else if s[i] == 41u8 {
        i
    } else {
        let e = field_end(s, i);
        if i < e <= s.len() {
            params_end(s, e)
        } else {
            -1
        }
    }
}

/// A method descriptor: `(`, field types, `)`, then a field type or `V`.
pub open spec fn valid_method_descriptor(s: Seq<u8>) -> bool {
    &&& s.len() > 0
    &&& s[0] == 40u8
    &&& params_end(s, 1) >= 0
    &&& {
        let r = params_end(s, 1) + 1;
        (r + 1 == s.len() && s[r] == 86u8) || field_end(s, r) == s.len()
    }
}

/// Reading a field type where one starts yields a field token that is
/// written back as exactly the bytes it consumed; elsewhere no field token.
pub proof fn lemma_token_at(s: Seq<u8>, o: int)
    requires
        0 <= o,
    ensures
        field_end(s, o) >= 0 ==> {
            &&& token_is_field(next_spec(s, o).0)
            &&& next_spec(s, o).1 == field_end(s, o)
            &&& emit_token(next_spec(s, o).0) == s.subrange(o, field_end(s, o))
        },
        field_end(s, o) < 0 ==> !token_is_field(next_spec(s, o).0),
{
    lemma_field_end_bounds(s, o);
    if 0 <= o < s.len() && field_end(s, o) >= 0 {
        let c = s[o];
        let e = field_end(s, o);
        if is_prim(c) {
            assert(seq![c] =~= s.subrange(o, e));
        } else if c == 76u8 {
            lemma_semi_from_bounds(s, o + 1);
            let n = s.subrange(o + 1, e - 1);
            assert(seq![76u8] + n + seq![59u8] =~= s.subrange(o, e));
        } else {
            assert(s.subrange(o, e)[0] == 91u8);
            if o == 0 && s.len() == 2 && is_prim(s[1]) {
                assert(field_end(s, 1) == 2);
                assert(e == 2);
                assert(s.subrange(o, e) =~= s);
            }
        }
    }
}

/// Parsing a field descriptor and writing the token back gives back the same
/// bytes, and the whole input is consumed.
pub proof fn lemma_field_descriptor_round_trip(s: Seq<u8>)
    requires
        valid_field_descriptor(s),
    ensures
        next_spec(s, 0).1 == s.len(),
        token_is_field(next_spec(s, 0).0),
        emit_token(next_spec(s, 0).0) == s,
{
    lemma_token_at(s, 0);
    assert(s.subrange(0, s.len() as int) =~= s);
}

/// The text of a sequence of tokens, one after another.
pub open spec fn emit_all(ts: Seq<Descriptor>) -> Seq<u8>
    decreases ts.len(),
{
    if ts.len() == 0 {
        Seq::empty()
    } else {
        emit_all(ts.drop_last()) + emit_token(ts.last().view())
    }
}

/// A method's parameter types and result type.
pub struct MethodDescriptor {
    pub params: Vec<Descriptor>,
    pub ret: Descriptor,
}

impl MethodDescriptor {
    /// The descriptor text of this method type.
    pub open spec fn spec_emit(&self) -> Seq<u8> {
        seq![40u8] + emit_all(self.params@) + seq![41u8] + emit_token(self.ret.view())
    }

    /// Writes the method type back as descriptor text.
    pub fn to_bytes(&self) -> (r: Vec<u8>)
        requires
            self.spec_emit().len() <= usize::MAX / 2,
            forall|k: int| 0 <= k < self.params@.len() ==> match #[trigger] self.params@[k] {
                Descriptor::Symbol(n, _) => n@.len() + 2 <= usize::MAX,
                _ => true,
            },
            match self.ret {
                Descriptor::Symbol(n, _) => n@.len() + 2 <= usize::MAX,
                _ => true,
            },
        ensures
            r@ == self.spec_emit(),
    {
        let mut r: Vec<u8> = Vec::new();
        r.push(40u8);
        let mut k: usize = 0;
        proof {
            assert(self.params@.subrange(0, 0) =~= Seq::<Descriptor>::empty());
            assert(r@ =~= seq![40u8] + emit_all(self.params@.subrange(0, 0)));
        }
        while k < self.params.len()
            invariant
                0 <= k <= self.params@.len(),
                r@ == seq![40u8] + emit_all(self.params@.subrange(0, k as int)),
                self.spec_emit().len() <= usize::MAX / 2,
                forall|q: int| 0 <= q < self.params@.len() ==> match #[trigger] self.params@[q] {
                    Descriptor::Symbol(n, _) => n@.len() + 2 <= usize::MAX,
                    _ => true,
                },
            decreases self.params@.len() - k,
        {
            let t = self.params[k].to_bytes();
            proof {
                assert(self.params@.subrange(0, k + 1).drop_last() =~= self.params@.subrange(0, k as int));
                assert(self.params@.subrange(0, k + 1).last() == self.params@[k as int]);
                lemma_emit_all_prefix_len(self.params@, k as int + 1);
            }
            let joined = crate::util::bytes_concat(r.as_slice(), t.as_slice());
            r = joined;
            k = k + 1;
        }
        proof {
            assert(self.params@.subrange(0, self.params@.len() as int) =~= self.params@);
        }
        r.push(41u8);
        let t = self.ret.to_bytes();
        proof {
            assert(r@.len() + t@.len() <= self.spec_emit().len());
        }
        let out = crate::util::bytes_concat(r.as_slice(), t.as_slice());
        assert(out@ =~= self.spec_emit());
        out
    }
}

/// The text of a prefix of the parameters is no longer than that of all.
pub proof fn lemma_emit_all_prefix_len(ps: Seq<Descriptor>, n: int)
    requires
        0 <= n <= ps.len(),
    ensures
        emit_all(ps.subrange(0, n)).len() <= emit_all(ps).len(),
    decreases ps.len() - n,
{
    if n == ps.len() {
        assert(ps.subrange(0, n) =~= ps);
    } else {
        lemma_emit_all_prefix_len(ps, n + 1);
        assert(ps.subrange(0, n + 1).drop_last() =~= ps.subrange(0, n));
    }
}

/// Splits a method descriptor into its parameter tokens and result token,
/// or `None` when the text is not a method descriptor.
pub fn parse_method_descriptor(value: &[u8]) -> (r: Option<MethodDescriptor>)
    ensures
        r.is_some() == valid_method_descriptor(value@),
        r matches Some(m) ==> {
            &&& m.spec_emit() == value@
            &&& m.params@.len() < value@.len()
            &&& forall|k: int| 0 <= k < m.params@.len() ==> m.params@[k].spec_is_field()
            &&& (m.ret.spec_is_field() || m.ret.view() == DescToken::Resolved(seq![86u8], 0))
        },
{
    let s = Ghost(value@);
    let mut p = DescriptorParser::from_bytes(value);
    let first = p.next();
    if !matches!(first, Descriptor::OpenParenthesis) {
        return None;
    }
    assert(s@[0] == 40u8);
    let mut params: Vec<Descriptor> = Vec::new();
    assert(seq![40u8] + emit_all(params@) =~= s@.subrange(0, 1));
    loop
        invariant_except_break
            seq![40u8] + emit_all(params@) == s@.subrange(0, p.offset as int),
            params_end(s@, 1) == params_end(s@, p.offset as int),
        invariant
            p.value@ == s@,
            s@ == value@,
            1 <= p.offset <= s@.len(),
            s@.len() > 0 && s@[0] == 40u8,
            params@.len() < p.offset,
            forall|k: int| 0 <= k < params@.len() ==> params@[k].spec_is_field(),
        ensures
            seq![40u8] + emit_all(params@) + seq![41u8] == s@.subrange(0, p.offset as int),
            params_end(s@, 1) + 1 == p.offset,
        decreases s@.len() - p.offset,
    {
        let o = p.offset;
        proof {
            lemma_token_at(s@, o as int);
            lemma_field_end_bounds(s@, o as int);
        }
        let tok = p.next();
        if matches!(tok, Descriptor::CloseParenthesis) {
            assert(s@.subrange(0, p.offset as int) =~= s@.subrange(0, o as int) + seq![41u8]);
            break;
        }
        if !tok.is_field() {
            assert(params_end(s@, o as int) == -1);
            assert(params_end(s@, 1) == -1);
            return None;
        }
        let ghost before = params@;
        params.push(tok);
        proof {
            assert(params@.drop_last() =~= before);
            assert(s@.subrange(0, p.offset as int) =~= s@.subrange(0, o as int) + s@.subrange(
                o as int,
                p.offset as int,
            ));
        }
    }
    let c = p.offset;
    let ret = p.next();
    proof {
        lemma_token_at(s@, c as int);
    }
    if p.offset != value.len() {
        return None;
    }
    if !(ret.is_field() || matches!(ret, Descriptor::ResolvedClass(_, 0))) {
        return None;
    }
    let m = MethodDescriptor { params, ret };
    proof {
        if field_end(s@, c as int) >= 0 {
            assert(s@.subrange(0, s@.len() as int) =~= s@.subrange(0, c as int) + s@.subrange(
                c as int,
                s@.len() as int,
            ));
        } else {
            assert(s@[c as int] == 86u8);
            assert(s@ =~= s@.subrange(0, c as int) + seq![86u8]);
        }
        assert(s@.subrange(0, s@.len() as int) =~= s@);
    }
    Some(m)
}

} // verus!
