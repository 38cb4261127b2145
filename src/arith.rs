//! The integer semantics of the bytecode: two's-complement wrapping,
//! division truncating toward zero with an error on a zero divisor, and
//! shift distances masked to the operand width.
use vstd::prelude::*;

verus! {

/// Division truncating toward zero.
pub open spec fn trunc_div(x: int, d: int) -> int {
    if x == 0 {
        0
    } else if x > 0 && d > 0 {
        x / d
    } else if x < 0 && d < 0 {
        (x * -1) / (d * -1)
    } else if x < 0 {
        ((x * -1) / d) * -1
    } else {
        (x / (d * -1)) * -1
    }
}

/// Remainder of division truncating toward zero (the sign of `x`).
pub open spec fn trunc_rem(x: int, d: int) -> int {
    if x == 0 {
        0
    } else if x > 0 && d > 0 {
        x % d
    } else if x < 0 && d < 0 {
        ((x * -1) % (d * -1)) * -1
    } else if x < 0 {
        ((x * -1) % d) * -1
    } else {
        x % (d * -1)
    }
}

pub proof fn lemma_div_le(n: int, m: int)
    requires
        n >= 0,
        m >= 1,
    ensures
        0 <= n / m <= n,
        m >= 2 && n > 0 ==> n / m < n,
{
    assert(0 <= n / m <= n) by (nonlinear_arith)
        requires
            n >= 0,
            m >= 1,
    ;
    if m >= 2 && n > 0 {
        assert(n / m < n) by (nonlinear_arith)
            requires
                n > 0,
                m >= 2,
        ;
    }
}

/// Truncating division stays in range but for `MIN / -1`.
pub proof fn lemma_trunc_div_range(x: int, d: int, lo: int)
    requires
        d != 0,
        lo < 0,
        lo <= x <= -lo - 1,
        !(x == lo && d == -1),
    ensures
        lo <= trunc_div(x, d) <= -lo - 1,
{
    if x > 0 && d > 0 {
        lemma_div_le(x, d);
    } else if x < 0 && d < 0 {
        lemma_div_le(-x, -d);
    } else if x < 0 {
        lemma_div_le(-x, d);
    } else if x > 0 {
        lemma_div_le(x, -d);
    }
}

/// `idiv` as a value: `None` for a zero divisor.
pub open spec fn idiv_spec(a: i32, b: i32) -> Option<i32> {
    if b == 0 {
        None
    } else if a == i32::MIN && b == -1 {
        Some(i32::MIN)
    } else {
        Some(trunc_div(a as int, b as int) as i32)
    }
}

/// `irem` as a value: `None` for a zero divisor.
pub open spec fn irem_spec(a: i32, b: i32) -> Option<i32> {
    if b == 0 {
        None
    } else if a == i32::MIN && b == -1 {
        Some(0)
    } else {
        Some(trunc_rem(a as int, b as int) as i32)
    }
}

/// `ldiv` as a value: `None` for a zero divisor.
pub open spec fn ldiv_spec(a: i64, b: i64) -> Option<i64> {
    if b == 0 {
        None
    } else if a == i64::MIN && b == -1 {
        Some(i64::MIN)
    } else {
        Some(trunc_div(a as int, b as int) as i64)
    }
}

/// `lrem` as a value: `None` for a zero divisor.
pub open spec fn lrem_spec(a: i64, b: i64) -> Option<i64> {
    if b == 0 {
        None
    } else if a == i64::MIN && b == -1 {
        Some(0)
    } else {
        Some(trunc_rem(a as int, b as int) as i64)
    }
}

/// `idiv`: `None` (an `ArithmeticException`) for a zero divisor; the
/// quotient overflows only for `MIN / -1`, which gives `MIN`.
pub fn idiv(a: i32, b: i32) -> (r: Option<i32>)
    ensures
        b == 0 ==> r.is_none(),
        b != 0 && a == i32::MIN && b == -1 ==> r == Some(i32::MIN),
        b != 0 && !(a == i32::MIN && b == -1) ==> r == Some(trunc_div(a as int, b as int) as i32),
{
    if b == 0 {
        None
    } else if a == i32::MIN && b == -1 {
        Some(i32::MIN)
    } else {
        proof {
            lemma_trunc_div_range(a as int, b as int, i32::MIN as int);
        }
        a.checked_div(b)
    }
}

/// `irem`: `None` for a zero divisor; `MIN % -1` is 0.
pub fn irem(a: i32, b: i32) -> (r: Option<i32>)
    ensures
        b == 0 ==> r.is_none(),
        b != 0 && a == i32::MIN && b == -1 ==> r == Some(0i32),
        b != 0 && !(a == i32::MIN && b == -1) ==> r == Some(trunc_rem(a as int, b as int) as i32),
{
    if b == 0 {
        None
    } else if a == i32::MIN && b == -1 {
        Some(0)
    } else {
        a.checked_rem(b)
    }
}

/// `ldiv`, as `idiv` on 64 bits.
pub fn ldiv(a: i64, b: i64) -> (r: Option<i64>)
    ensures
        b == 0 ==> r.is_none(),
        b != 0 && a == i64::MIN && b == -1 ==> r == Some(i64::MIN),
        b != 0 && !(a == i64::MIN && b == -1) ==> r == Some(trunc_div(a as int, b as int) as i64),
{
    if b == 0 {
        None
    } else if a == i64::MIN && b == -1 {
        Some(i64::MIN)
    } else {
        proof {
            lemma_trunc_div_range(a as int, b as int, i64::MIN as int);
        }
        a.checked_div(b)
    }
}

/// `lrem`, as `irem` on 64 bits.
pub fn lrem(a: i64, b: i64) -> (r: Option<i64>)
    ensures
        b == 0 ==> r.is_none(),
        b != 0 && a == i64::MIN && b == -1 ==> r == Some(0i64),
        b != 0 && !(a == i64::MIN && b == -1) ==> r == Some(trunc_rem(a as int, b as int) as i64),
{
    if b == 0 {
        None
    } else if a == i64::MIN && b == -1 {
        Some(0)
    } else {
        a.checked_rem(b)
    }
}

/// `ishl`: shifts by `n & 0x1f`.
pub fn ishl(a: i32, n: i32) -> (r: i32)
    ensures
        r == a << ((n & 0x1f) as u32),
{
    let s = (n & 0x1f) as u32;
    assert(s % 32 == s) by (bit_vector)
        requires
            s == (n & 0x1f) as u32,
    ;
    a.wrapping_shl(s)
}

/// `ishr`: arithmetic shift by `n & 0x1f`.
pub fn ishr(a: i32, n: i32) -> (r: i32)
    ensures
        r == a >> ((n & 0x1f) as u32),
{
    let s = (n & 0x1f) as u32;
    assert(s % 32 == s) by (bit_vector)
        requires
            s == (n & 0x1f) as u32,
    ;
    a.wrapping_shr(s)
}

/// `iushr`: logical shift by `n & 0x1f`.
pub fn iushr(a: i32, n: i32) -> (r: i32)
    ensures
        r == ((a as u32) >> ((n & 0x1f) as u32)) as i32,
{
    let s = (n & 0x1f) as u32;
    assert(s % 32 == s) by (bit_vector)
        requires
            s == (n & 0x1f) as u32,
    ;
    ((a as u32).wrapping_shr(s)) as i32
}

/// `lshl`: shifts by `n & 0x3f`.
pub fn lshl(a: i64, n: i32) -> (r: i64)
    ensures
        r == a << ((n & 0x3f) as u32),
{
    let s = (n & 0x3f) as u32;
    assert(s % 64 == s) by (bit_vector)
        requires
            s == (n & 0x3f) as u32,
    ;
    a.wrapping_shl(s)
}

/// `lshr`: arithmetic shift by `n & 0x3f`.
pub fn lshr(a: i64, n: i32) -> (r: i64)
    ensures
        r == a >> ((n & 0x3f) as u32),
{
    let s = (n & 0x3f) as u32;
    assert(s % 64 == s) by (bit_vector)
        requires
            s == (n & 0x3f) as u32,
    ;
    a.wrapping_shr(s)
}

/// `lushr`: logical shift by `n & 0x3f`.
pub fn lushr(a: i64, n: i32) -> (r: i64)
    ensures
        r == ((a as u64) >> ((n & 0x3f) as u32)) as i64,
{
    let s = (n & 0x3f) as u32;
    assert(s % 64 == s) by (bit_vector)
        requires
            s == (n & 0x3f) as u32,
    ;
    ((a as u64).wrapping_shr(s)) as i64
}

/// `lcmp`: -1, 0 or 1.
pub fn lcmp(a: i64, b: i64) -> (r: i32)
    ensures
        r == (if a < b {
            -1i32
        } else if a == b {
            0i32
        } else {
            1i32
        }),
{
    if a < b {
        -1
    } else if a == b {
        0
    } else {
        1
    }
}

/// The target of a branch whose opcode stands at `pc` with offset `off`:
/// relative to the opcode itself, and inside the code.
pub fn branch_target(pc: usize, off: i32, code_len: usize) -> (r: Option<usize>)
    ensures
        0 <= pc + off < code_len ==> r == Some((pc + off) as usize),
        !(0 <= pc + off < code_len) ==> r.is_none(),
{
    let t: i128 = pc as i128 + off as i128;
    if t >= 0 && t < code_len as i128 {
        Some(t as usize)
    } else {
        None
    }
}

} // verus!
