//! The virtual machine: its tables, heap and statics, and the bytecode
//! interpreter. Execution runs for a given number of steps; it stops early
//! when a method returns from the bottom frame, when an exception leaves it,
//! or when a class must be loaded first (the caller loads it with
//! `define_class` and runs again: the interrupted instruction is retried).
use vstd::prelude::*;
use crate::symbol::SymbolTable;
use crate::string::StringTable;
use crate::registry::{ClassRegistry, ClassLoadErr, InitAction};
use crate::class::{ClassData, is_member, own_sigs_distinct};
use crate::runtime::{Frame, HeapObj, JArray, Component};
use crate::arith;
use crate::hash_table::MAX_CAPACITY;
use crate::constant_pool::{TAG_INTEGER, TAG_STRING, TAG_LONG};
use crate::util::bytes_range;

verus! {

/// The deepest call chain the interpreter allows.
pub const MAX_FRAMES: usize = 4096;

/// The largest number of objects the heap holds.
pub const MAX_OBJECTS: usize = 0x1000_0000;

/// An exception raised by execution.
#[derive(Clone, Copy, Debug, PartialEq, Eq, Structural)]
pub enum ExceptionKind {
    ArithmeticException,
    NullPointerException,
    ArrayIndexOutOfBoundsException,
    ArrayStoreException,
    ClassCastException,
    NegativeArraySizeException,
    AbstractMethodError,
    NoSuchMethodError,
    NoSuchFieldError,
    IncompatibleClassChangeError,
    LinkageError,
    VerifyError,
    UnsupportedOperation,
    StackOverflowError,
    OutOfMemoryError,
    /// An object thrown by `athrow` (a reference).
    Thrown(i64),
}

/// How a run of the interpreter ended.
#[derive(Debug, PartialEq, Eq)]
pub enum Outcome {
    /// The bottom method returned, with its value if it has one.
    Returned(Option<i64>),
    /// An exception left the bottom method.
    Threw(ExceptionKind),
    /// The class with this internal name must be defined first.
    NeedClass(Vec<u8>),
    /// The step budget ran out; running again continues.
    OutOfFuel,
    /// A native method is called: the host looks up `symbol`
    /// (`Java_<class>_<method>`), runs it on `args` (first the receiver,
    /// or for a static method the class index; a `long` as one value), and
    /// answers with `native_return`.
    NativeCall { symbol: Vec<u8>, args: Vec<i64>, wide_result: bool, void_result: bool },
}

/// The result of one step.
pub enum Step {
    Next,
    Done(Outcome),
}

/// What defining a parsed class came to.
#[derive(Debug, PartialEq, Eq)]
pub enum DefineOutcome {
    Defined(usize),
    /// This class (the superclass or an interface) must be defined first.
    NeedClass(Vec<u8>),
    Failed(ClassLoadErr),
}

/// The internal form of a binary class name: every `.` becomes `/`.
pub fn binary_to_internal(name: &[u8]) -> (r: Vec<u8>)
    ensures
        r@.len() == name@.len(),
        forall|i: int| 0 <= i < name@.len() ==> r@[i] == (if name@[i] == 46u8 {
            47u8
        } else {
            name@[i]
        }),
{
    let mut r: Vec<u8> = Vec::new();
    let mut k: usize = 0;
    while k < name.len()
        invariant
            0 <= k <= name@.len(),
            r@.len() == k,
            forall|i: int| 0 <= i < k ==> r@[i] == (if name@[i] == 46u8 {
                47u8
            } else {
                name@[i]
            }),
        decreases name@.len() - k,
    {
        r.push(if name[k] == 46u8 {
            47u8
        } else {
            name[k]
        });
        k = k + 1;
    }
    r
}

/// Classes the VM itself refers to, once they are defined: `Class`,
/// `Object` and the arrays of each.
#[derive(Clone, Copy, Debug, PartialEq, Eq, Structural)]
pub struct PreloadedClasses {
    pub jclass: Option<usize>,
    pub jobject: Option<usize>,
    pub jclass_arr: Option<usize>,
    pub jobject_arr: Option<usize>,
}

impl PreloadedClasses {
    pub fn jclass_cls(&self) -> (r: Option<usize>)
        ensures
            r == self.jclass,
    {
        self.jclass
    }

    pub fn jobject_cls(&self) -> (r: Option<usize>)
        ensures
            r == self.jobject,
    {
        self.jobject
    }

    pub fn jclass_arr_cls(&self) -> (r: Option<usize>)
        ensures
            r == self.jclass_arr,
    {
        self.jclass_arr
    }

    pub fn jobject_arr_cls(&self) -> (r: Option<usize>)
        ensures
            r == self.jobject_arr,
    {
        self.jobject_arr
    }
}

/// Why the VM could not start a call.
#[derive(Clone, Copy, Debug, PartialEq, Eq, Structural)]
pub enum VMError {
    InitError,
    ClassLoaderErr(ClassLoadErr),
    NoSuchMethod,
}

/// Where the VM finds its runtime and classes.
pub struct VMConfig {
    pub current_dir: String,
    pub rsvm_home: String,
    pub class_path: String,
    pub boot_lib_path: Option<String>,
    pub stack_size: usize,
    pub main_class: String,
}

impl VMConfig {
    pub fn new(current_dir: String, rsvm_home: String, class_path: String, main_class: String) -> (r: VMConfig)
        ensures
            r.current_dir@ == current_dir@,
            r.rsvm_home@ == rsvm_home@,
            r.class_path@ == class_path@,
            r.main_class@ == main_class@,
            r.boot_lib_path.is_none(),
            r.stack_size == 2 * crate::memory::MB,
    {
        VMConfig { current_dir, rsvm_home, class_path, boot_lib_path: None, stack_size: 2 * crate::memory::MB, main_class }
    }

    pub fn current_dir(&self) -> (r: &String)
        ensures
            r@ == self.current_dir@,
    {
        &self.current_dir
    }

    pub fn rsvm_home(&self) -> (r: &String)
        ensures
            r@ == self.rsvm_home@,
    {
        &self.rsvm_home
    }

    pub fn set_rsvm_home(&mut self, home: String)
        ensures
            final(self).rsvm_home@ == home@,
            final(self).class_path@ == old(self).class_path@,
            final(self).current_dir@ == old(self).current_dir@,
    {
        self.rsvm_home = home;
    }

    pub fn class_path(&self) -> (r: &String)
        ensures
            r@ == self.class_path@,
    {
        &self.class_path
    }

    pub fn set_class_path(&mut self, cp: String)
        ensures
            final(self).class_path@ == cp@,
            final(self).rsvm_home@ == old(self).rsvm_home@,
            final(self).current_dir@ == old(self).current_dir@,
    {
        self.class_path = cp;
    }

    pub fn boot_lib_path(&self) -> (r: &Option<String>)
        ensures
            r == &self.boot_lib_path,
    {
        &self.boot_lib_path
    }
}

/// Reads the byte at `i`.
fn at_u8(code: &Vec<u8>, i: usize) -> (r: Option<u8>)
    ensures
        i < code@.len() ==> r == Some(code@[i as int]),
        i >= code@.len() ==> r.is_none(),
{
    if i < code.len() {
        Some(code[i])
    } else {
        None
    }
}

/// Reads the big-endian unsigned 16-bit value at `i`.
fn at_u16(code: &Vec<u8>, i: usize) -> (r: Option<u16>)
    ensures
        i + 2 <= code@.len() ==> r == Some(((code@[i as int] as u16) * 256 + code@[i + 1] as u16) as u16),
        i + 2 > code@.len() ==> r.is_none(),
{
    if i < code.len() && code.len() - i >= 2 {
        Some((code[i] as u16) * 256 + code[i + 1] as u16)
    } else {
        None
    }
}

/// Reads the big-endian signed 16-bit value at `i`.
fn at_i16(code: &Vec<u8>, i: usize) -> (r: Option<i32>)
    ensures
        i + 2 <= code@.len() ==> r == Some(offset16(code@, i as int) as i32),
        i + 2 > code@.len() ==> r.is_none(),
{
    if i < code.len() && code.len() - i >= 2 {
        let u: i32 = (code[i] as i32) * 256 + code[i + 1] as i32;
        if code[i] >= 128 {
            Some(u - 65536)
        } else {
            Some(u)
        }
    } else {
        None
    }
}

/// The big-endian signed 16-bit value at `i`: a branch offset.
pub open spec fn offset16(code: Seq<u8>, i: int) -> int {
    if code[i] >= 128 {
        (code[i] as int) * 256 + code[i + 1] as int - 65536
    } else {
        (code[i] as int) * 256 + code[i + 1] as int
    }
}

/// Reads the big-endian signed 32-bit value at `i`.
fn at_i32(code: &Vec<u8>, i: usize) -> (r: Option<i32>)
    ensures
        i + 4 > code@.len() ==> r.is_none(),
        i + 4 <= code@.len() ==> r == Some(word_at(code@, i as int)),
{
    if i < code.len() && code.len() - i >= 4 {
        let u: u64 = (code[i] as u64) * 16777216 + (code[i + 1] as u64) * 65536 + (code[i + 2] as u64) * 256
            + code[i + 3] as u64;
        Some((u as u32) as i32)
    } else {
        None
    }
}

/// Each byte as one UTF-16 unit.
fn widen(b: &[u8]) -> (r: Vec<u16>)
    ensures
        r@.len() == b@.len(),
        forall|i: int| 0 <= i < b@.len() ==> r@[i] == b@[i] as u16,
{
    let mut r: Vec<u16> = Vec::new();
    let mut k: usize = 0;
    while k < b.len()
        invariant
            0 <= k <= b@.len(),
            r@.len() == k,
            forall|i: int| 0 <= i < k ==> r@[i] == b@[i] as u16,
        decreases b@.len() - k,
    {
        r.push(b[k] as u16);
        k = k + 1;
    }
    r
}

/// The signed 32-bit big-endian value at `i`.
pub open spec fn word_at(code: Seq<u8>, i: int) -> i32 {
    (crate::reader::be32(code, i) as u32) as i32
}

/// The offset a `lookupswitch` whose operands start at `a` (default, pair
/// count `n`, then match-offset pairs) selects for `key`, searching from
/// pair `k`: the first pair matching `key`, else the default.
pub open spec fn lookup_offset(code: Seq<u8>, a: int, n: int, key: i32, k: int) -> i32
    decreases n - k,
{
    if k >= n {
        word_at(code, a)
    } else if word_at(code, a + 8 + 8 * k) == key {
        word_at(code, a + 12 + 8 * k)
    } else {
        lookup_offset(code, a, n, key, k + 1)
    }
}

/// The branch offset a `tableswitch` (`table`) or `lookupswitch` at `pc`
/// selects for `key`: operands start at the next multiple of four after
/// the opcode; a key outside the table, or matching no pair, takes the
/// default offset. `None` when the operands run past the code.
pub fn switch_offset(code: &Vec<u8>, pc: usize, key: i32, table: bool) -> (r: Option<i32>)
    requires
        pc < code@.len() < usize::MAX - 8,
    ensures
        ({
            let a = (pc + 4) / 4 * 4;
            table && a + 12 <= code@.len() && word_at(code@, a + 4) <= key <= word_at(code@, a + 8)
                && a + 12 + 4 * (key - word_at(code@, a + 4)) + 4 <= code@.len() ==> r == Some(
                word_at(code@, a + 12 + 4 * (key - word_at(code@, a + 4))),
            )
        }),
        ({
            let a = (pc + 4) / 4 * 4;
            table && a + 12 <= code@.len() && !(word_at(code@, a + 4) <= key <= word_at(code@, a + 8)) ==> r
                == Some(word_at(code@, a))
        }),
        ({
            let a = (pc + 4) / 4 * 4;
            let n = word_at(code@, a + 4);
            !table && a + 12 <= code@.len() && n >= 0 && a + 8 + 8 * n <= code@.len() ==> r == Some(
                lookup_offset(code@, a as int, n as int, key, 0),
            )
        }),
{
    let a = (pc + 4) / 4 * 4;
    if a > code.len() || code.len() - a < 12 {
        return None;
    }
    let default = read_word(code, a);
    if table {
        let low = read_word(code, a + 4);
        let high = read_word(code, a + 8);
        if key < low || key > high {
            return Some(default);
        }
        let idx: i64 = key as i64 - low as i64;
        let at: i128 = a as i128 + 12 + 4 * idx as i128;
        if at + 4 > code.len() as i128 {
            return None;
        }
        Some(read_word(code, at as usize))
    } else {
        let n = read_word(code, a + 4);
        if n < 0 {
            return None;
        }
        let mut k: i32 = 0;
        while k < n
            invariant
                0 <= k <= n,
                !table,
                a + 12 <= code@.len() < usize::MAX - 8,
                a == (pc + 4) / 4 * 4,
                n == word_at(code@, a + 4),
                default == word_at(code@, a as int),
                lookup_offset(code@, a as int, n as int, key, 0) == lookup_offset(code@, a as int, n as int, key, k as int),
            decreases n - k,
        {
            let at: i128 = a as i128 + 8 + 8 * k as i128;
            if at + 8 > code.len() as i128 {
                return None;
            }
            if read_word(code, at as usize) == key {
                return Some(read_word(code, at as usize + 4));
            }
            k = k + 1;
        }
        Some(default)
    }
}

/// The signed 32-bit big-endian value at `i`.
fn read_word(code: &Vec<u8>, i: usize) -> (r: i32)
    requires
        i + 4 <= code@.len() < usize::MAX - 8,
    ensures
        r == word_at(code@, i as int),
{
    let u: u64 = (code[i] as u64) * 16777216 + (code[i + 1] as u64) * 65536 + (code[i + 2] as u64) * 256
        + code[i + 3] as u64;
    (u as u32) as i32
}

/// The big-endian 16-bit value of two bytes.
fn u16v_at2(hi: Option<u8>, lo: Option<u8>) -> (r: Option<u16>)
    ensures
        hi is Some && lo is Some ==> r == Some(((hi.unwrap() as u16) * 256 + lo.unwrap() as u16) as u16),
{
    match (hi, lo) {
        (Some(h), Some(l)) => Some((h as u16) * 256 + l as u16),
        _ => None,
    }
}

/// The class whose instance the VM throws for exception `e`, for the
/// exceptions a program may catch.
pub open spec fn exception_class_spec(e: ExceptionKind) -> Option<Seq<u8>> {
    match e {
        ExceptionKind::ArithmeticException => Some(seq![106u8, 97u8, 118u8, 97u8, 47u8, 108u8, 97u8, 110u8, 103u8, 47u8, 65u8, 114u8, 105u8, 116u8, 104u8, 109u8, 101u8, 116u8, 105u8, 99u8, 69u8, 120u8, 99u8, 101u8, 112u8, 116u8, 105u8, 111u8, 110u8]),
        ExceptionKind::NullPointerException => Some(seq![106u8, 97u8, 118u8, 97u8, 47u8, 108u8, 97u8, 110u8, 103u8, 47u8, 78u8, 117u8, 108u8, 108u8, 80u8, 111u8, 105u8, 110u8, 116u8, 101u8, 114u8, 69u8, 120u8, 99u8, 101u8, 112u8, 116u8, 105u8, 111u8, 110u8]),
        ExceptionKind::ArrayIndexOutOfBoundsException => Some(seq![106u8, 97u8, 118u8, 97u8, 47u8, 108u8, 97u8, 110u8, 103u8, 47u8, 65u8, 114u8, 114u8, 97u8, 121u8, 73u8, 110u8, 100u8, 101u8, 120u8, 79u8, 117u8, 116u8, 79u8, 102u8, 66u8, 111u8, 117u8, 110u8, 100u8, 115u8, 69u8, 120u8, 99u8, 101u8, 112u8, 116u8, 105u8, 111u8, 110u8]),
        ExceptionKind::ArrayStoreException => Some(seq![106u8, 97u8, 118u8, 97u8, 47u8, 108u8, 97u8, 110u8, 103u8, 47u8, 65u8, 114u8, 114u8, 97u8, 121u8, 83u8, 116u8, 111u8, 114u8, 101u8, 69u8, 120u8, 99u8, 101u8, 112u8, 116u8, 105u8, 111u8, 110u8]),
        ExceptionKind::ClassCastException => Some(seq![106u8, 97u8, 118u8, 97u8, 47u8, 108u8, 97u8, 110u8, 103u8, 47u8, 67u8, 108u8, 97u8, 115u8, 115u8, 67u8, 97u8, 115u8, 116u8, 69u8, 120u8, 99u8, 101u8, 112u8, 116u8, 105u8, 111u8, 110u8]),
        ExceptionKind::NegativeArraySizeException => Some(seq![106u8, 97u8, 118u8, 97u8, 47u8, 108u8, 97u8, 110u8, 103u8, 47u8, 78u8, 101u8, 103u8, 97u8, 116u8, 105u8, 118u8, 101u8, 65u8, 114u8, 114u8, 97u8, 121u8, 83u8, 105u8, 122u8, 101u8, 69u8, 120u8, 99u8, 101u8, 112u8, 116u8, 105u8, 111u8, 110u8]),
        _ => None,
    }
}

/// The name of the class for exception `e` (see `exception_class_spec`).
pub fn exception_class(e: ExceptionKind) -> (r: Option<Vec<u8>>)
    ensures
        match r {
            Some(v) => exception_class_spec(e) == Some(v@),
            None => exception_class_spec(e).is_none(),
        },
{
    match e {
        ExceptionKind::ArithmeticException => {
            let v: Vec<u8> = vec![106u8, 97u8, 118u8, 97u8, 47u8, 108u8, 97u8, 110u8, 103u8, 47u8, 65u8, 114u8, 105u8, 116u8, 104u8, 109u8, 101u8, 116u8, 105u8, 99u8, 69u8, 120u8, 99u8, 101u8, 112u8, 116u8, 105u8, 111u8, 110u8];
            assert(v@ =~= seq![106u8, 97u8, 118u8, 97u8, 47u8, 108u8, 97u8, 110u8, 103u8, 47u8, 65u8, 114u8, 105u8, 116u8, 104u8, 109u8, 101u8, 116u8, 105u8, 99u8, 69u8, 120u8, 99u8, 101u8, 112u8, 116u8, 105u8, 111u8, 110u8]);
            Some(v)
        },
        ExceptionKind::NullPointerException => {
            let v: Vec<u8> = vec![106u8, 97u8, 118u8, 97u8, 47u8, 108u8, 97u8, 110u8, 103u8, 47u8, 78u8, 117u8, 108u8, 108u8, 80u8, 111u8, 105u8, 110u8, 116u8, 101u8, 114u8, 69u8, 120u8, 99u8, 101u8, 112u8, 116u8, 105u8, 111u8, 110u8];
            assert(v@ =~= seq![106u8, 97u8, 118u8, 97u8, 47u8, 108u8, 97u8, 110u8, 103u8, 47u8, 78u8, 117u8, 108u8, 108u8, 80u8, 111u8, 105u8, 110u8, 116u8, 101u8, 114u8, 69u8, 120u8, 99u8, 101u8, 112u8, 116u8, 105u8, 111u8, 110u8]);
            Some(v)
        },
        ExceptionKind::ArrayIndexOutOfBoundsException => {
            let v: Vec<u8> = vec![106u8, 97u8, 118u8, 97u8, 47u8, 108u8, 97u8, 110u8, 103u8, 47u8, 65u8, 114u8, 114u8, 97u8, 121u8, 73u8, 110u8, 100u8, 101u8, 120u8, 79u8, 117u8, 116u8, 79u8, 102u8, 66u8, 111u8, 117u8, 110u8, 100u8, 115u8, 69u8, 120u8, 99u8, 101u8, 112u8, 116u8, 105u8, 111u8, 110u8];
            assert(v@ =~= seq![106u8, 97u8, 118u8, 97u8, 47u8, 108u8, 97u8, 110u8, 103u8, 47u8, 65u8, 114u8, 114u8, 97u8, 121u8, 73u8, 110u8, 100u8, 101u8, 120u8, 79u8, 117u8, 116u8, 79u8, 102u8, 66u8, 111u8, 117u8, 110u8, 100u8, 115u8, 69u8, 120u8, 99u8, 101u8, 112u8, 116u8, 105u8, 111u8, 110u8]);
            Some(v)
        },
        ExceptionKind::ArrayStoreException => {
            let v: Vec<u8> = vec![106u8, 97u8, 118u8, 97u8, 47u8, 108u8, 97u8, 110u8, 103u8, 47u8, 65u8, 114u8, 114u8, 97u8, 121u8, 83u8, 116u8, 111u8, 114u8, 101u8, 69u8, 120u8, 99u8, 101u8, 112u8, 116u8, 105u8, 111u8, 110u8];
            assert(v@ =~= seq![106u8, 97u8, 118u8, 97u8, 47u8, 108u8, 97u8, 110u8, 103u8, 47u8, 65u8, 114u8, 114u8, 97u8, 121u8, 83u8, 116u8, 111u8, 114u8, 101u8, 69u8, 120u8, 99u8, 101u8, 112u8, 116u8, 105u8, 111u8, 110u8]);
            Some(v)
        },
        ExceptionKind::ClassCastException => {
            let v: Vec<u8> = vec![106u8, 97u8, 118u8, 97u8, 47u8, 108u8, 97u8, 110u8, 103u8, 47u8, 67u8, 108u8, 97u8, 115u8, 115u8, 67u8, 97u8, 115u8, 116u8, 69u8, 120u8, 99u8, 101u8, 112u8, 116u8, 105u8, 111u8, 110u8];
            assert(v@ =~= seq![106u8, 97u8, 118u8, 97u8, 47u8, 108u8, 97u8, 110u8, 103u8, 47u8, 67u8, 108u8, 97u8, 115u8, 115u8, 67u8, 97u8, 115u8, 116u8, 69u8, 120u8, 99u8, 101u8, 112u8, 116u8, 105u8, 111u8, 110u8]);
            Some(v)
        },
        ExceptionKind::NegativeArraySizeException => {
            let v: Vec<u8> = vec![106u8, 97u8, 118u8, 97u8, 47u8, 108u8, 97u8, 110u8, 103u8, 47u8, 78u8, 101u8, 103u8, 97u8, 116u8, 105u8, 118u8, 101u8, 65u8, 114u8, 114u8, 97u8, 121u8, 83u8, 105u8, 122u8, 101u8, 69u8, 120u8, 99u8, 101u8, 112u8, 116u8, 105u8, 111u8, 110u8];
            assert(v@ =~= seq![106u8, 97u8, 118u8, 97u8, 47u8, 108u8, 97u8, 110u8, 103u8, 47u8, 78u8, 101u8, 103u8, 97u8, 116u8, 105u8, 118u8, 101u8, 65u8, 114u8, 114u8, 97u8, 121u8, 83u8, 105u8, 122u8, 101u8, 69u8, 120u8, 99u8, 101u8, 112u8, 116u8, 105u8, 111u8, 110u8]);
            Some(v)
        },
        _ => None,
    }
}

/// How raising `e` may end a step: the run ends with `e` (its class is not
/// loaded), a handler takes the thrown instance (the step goes on, with
/// only that instance on the handler frame's stack), or the instance
/// leaves the bottom frame.
pub open spec fn raised(r: Step, e: ExceptionKind) -> bool {
    r == Step::Done(Outcome::Threw(e)) || r is Next || r matches Step::Done(Outcome::Threw(ExceptionKind::Thrown(_)))
}

/// Class `c` of `reg` is registered, not yet initialized, and has an
/// initializer method.
pub open spec fn needs_clinit(reg: ClassRegistry, c: int) -> bool {
    let cls = reg.spec_classes();
    &&& 0 <= c < reg@.len()
    &&& (reg.spec_state(c) == crate::class::ClassState::Created || reg.spec_state(c) == crate::class::ClassState::Linked)
    &&& cls[c].init_method is Some
    &&& cls[c].init_method.unwrap() < cls[c].methods@.len()
}

/// Whether a descriptor denotes a two-slot type (`long` or `double`).
fn is_wide(desc: &[u8]) -> (r: bool)
    ensures
        r == (desc@.len() > 0 && (desc@[0] == 74u8 || desc@[0] == 68u8)),
{
    desc.len() > 0 && (desc[0] == 74u8 || desc[0] == 68u8)
}

fn pop_i(f: &mut Frame) -> (r: Result<i32, ExceptionKind>)
    ensures
        final(f).locals == old(f).locals,
        final(f).pc == old(f).pc,
        final(f).class == old(f).class,
        final(f).method == old(f).method,
        final(f).init_of == old(f).init_of,
        final(f).is_java_top == old(f).is_java_top,
        old(f).stack@.len() > 0 ==> r == Ok::<i32, ExceptionKind>(old(f).stack@.last() as i32)
            && final(f).stack@ == old(f).stack@.drop_last(),
{
    match f.pop() {
        Some(v) => Ok(v as i32),
        None => Err(ExceptionKind::VerifyError),
    }
}

fn pop_a(f: &mut Frame) -> (r: Result<i64, ExceptionKind>)
    ensures
        old(f).stack@.len() > 0 ==> r == Ok::<i64, ExceptionKind>(old(f).stack@.last()) && final(f).stack@
            == old(f).stack@.drop_last(),
        final(f).locals == old(f).locals,
        final(f).pc == old(f).pc,
        final(f).class == old(f).class,
        final(f).method == old(f).method,
        final(f).init_of == old(f).init_of,
        final(f).is_java_top == old(f).is_java_top,
{
    match f.pop() {
        Some(v) => Ok(v),
        None => Err(ExceptionKind::VerifyError),
    }
}

/// Pops a two-slot value (the filler slot above it first).
fn pop_l(f: &mut Frame) -> (r: Result<i64, ExceptionKind>)
    ensures
        old(f).stack@.len() >= 2 ==> r == Ok::<i64, ExceptionKind>(old(f).stack@[old(f).stack@.len() - 2])
            && final(f).stack@ == old(f).stack@.drop_last().drop_last(),
        final(f).locals == old(f).locals,
        final(f).pc == old(f).pc,
        final(f).class == old(f).class,
        final(f).method == old(f).method,
        final(f).init_of == old(f).init_of,
        final(f).is_java_top == old(f).is_java_top,
{
    match f.pop() {
        Some(_) => match f.pop() {
            Some(v) => Ok(v),
            None => Err(ExceptionKind::VerifyError),
        },
        None => Err(ExceptionKind::VerifyError),
    }
}

/// Pushes a two-slot value: the value, then a filler slot.
fn push_l(f: &mut Frame, v: i64)
    ensures
        final(f).stack@ == old(f).stack@.push(v).push(0),
        final(f).locals == old(f).locals,
        final(f).pc == old(f).pc,
        final(f).class == old(f).class,
        final(f).method == old(f).method,
        final(f).init_of == old(f).init_of,
        final(f).is_java_top == old(f).is_java_top,
{
    f.push(v);
    f.push(0);
}

/// Jumps to `pc + off`, the branch target relative to the branch opcode at
/// `pc`.
pub fn branch(f: &mut Frame, pc: usize, off: i32, code_len: usize) -> (r: Result<(), ExceptionKind>)
    ensures
        r is Ok <==> 0 <= pc + off < code_len,
        r is Ok ==> final(f).pc == pc + off,
        final(f).stack == old(f).stack,
        final(f).locals == old(f).locals,
        final(f).class == old(f).class,
        final(f).method == old(f).method,
        final(f).init_of == old(f).init_of,
        final(f).is_java_top == old(f).is_java_top,
{
    match arith::branch_target(pc, off, code_len) {
        Some(t) => {
            f.pc = t;
            Ok(())
        },
        None => Err(ExceptionKind::VerifyError),
    }
}

/// Whether the `if<cond>` (153..158, against 0) or `if_icmp<cond>`
/// (159..164) opcode `op` holds of `a` against `b`.
pub open spec fn int_cond_spec(op: u8, a: i32, b: i32) -> bool {
    if op == 153 || op == 159 {
        a == b
    } else if op == 154 || op == 160 {
        a != b
    } else if op == 155 || op == 161 {
        a < b
    } else if op == 156 || op == 162 {
        a >= b
    } else if op == 157 || op == 163 {
        a > b
    } else {
        a <= b
    }
}

/// Whether the conditional branch `op` is taken on operand stack `st`.
pub open spec fn branch_taken(op: u8, st: Seq<i64>) -> bool {
    if 153 <= op <= 158 {
        int_cond_spec(op, st.last() as i32, 0)
    } else if 159 <= op <= 164 {
        int_cond_spec(op, st[st.len() - 2] as i32, st.last() as i32)
    } else if op == 165 {
        st[st.len() - 2] == st.last()
    } else if op == 166 {
        st[st.len() - 2] != st.last()
    } else if op == 198 {
        st.last() == 0
    } else {
        st.last() != 0
    }
}

/// Operand slots a conditional branch `op` pops.
pub open spec fn branch_pops(op: u8) -> nat {
    if 159 <= op <= 166 {
        2
    } else {
        1
    }
}

/// Whether `op` is an `int` arithmetic, shift or logic opcode on two
/// operands.
pub open spec fn is_int_binop(op: u8) -> bool {
    op == 96 || op == 100 || op == 104 || op == 108 || op == 112 || op == 120 || op == 122 || op == 124
        || op == 126 || op == 128 || op == 130
}

/// The result of the `int` opcode `op` on `a` and `b` (`b` on top);
/// `None` is an `ArithmeticException`.
pub open spec fn int_binop_spec(op: u8, a: i32, b: i32) -> Option<i32> {
    if op == 96 {
        Some(vstd::wrapping::i32_specs::wrapping_add(a, b))
    } else if op == 100 {
        Some(vstd::wrapping::i32_specs::wrapping_sub(a, b))
    } else if op == 104 {
        Some(vstd::wrapping::i32_specs::wrapping_mul(a, b))
    } else if op == 108 {
        arith::idiv_spec(a, b)
    } else if op == 112 {
        arith::irem_spec(a, b)
    } else if op == 120 {
        Some(a << ((b & 0x1f) as u32))
    } else if op == 122 {
        Some(a >> ((b & 0x1f) as u32))
    } else if op == 124 {
        Some(((a as u32) >> ((b & 0x1f) as u32)) as i32)
    } else if op == 126 {
        Some(a & b)
    } else if op == 128 {
        Some(a | b)
    } else {
        Some(a ^ b)
    }
}

/// Whether `op` is a `long` arithmetic or logic opcode on two `long`s.
pub open spec fn is_long_binop(op: u8) -> bool {
    op == 97 || op == 101 || op == 105 || op == 109 || op == 113 || op == 127 || op == 129 || op == 131
}

/// The result of the `long` opcode `op` on `a` and `b`; `None` is an
/// `ArithmeticException`.
pub open spec fn long_binop_spec(op: u8, a: i64, b: i64) -> Option<i64> {
    if op == 97 {
        Some(vstd::wrapping::i64_specs::wrapping_add(a, b))
    } else if op == 101 {
        Some(vstd::wrapping::i64_specs::wrapping_sub(a, b))
    } else if op == 105 {
        Some(vstd::wrapping::i64_specs::wrapping_mul(a, b))
    } else if op == 109 {
        arith::ldiv_spec(a, b)
    } else if op == 113 {
        arith::lrem_spec(a, b)
    } else if op == 127 {
        Some(a & b)
    } else if op == 129 {
        Some(a | b)
    } else {
        Some(a ^ b)
    }
}

/// The result of the `long` shift opcode `op` (121, 123, 125) on `a` by `n`.
pub open spec fn long_shift_spec(op: u8, a: i64, n: i32) -> i64 {
    if op == 121 {
        a << ((n & 0x3f) as u32)
    } else if op == 123 {
        a >> ((n & 0x3f) as u32)
    } else {
        ((a as u64) >> ((n & 0x3f) as u32)) as i64
    }
}

/// The `int` arithmetic and logic opcodes on the two top slots; `idiv`
/// and `irem` by zero raise `ArithmeticException`.
pub fn int_binop(f: &mut Frame, op: u8) -> (r: Result<(), ExceptionKind>)
    ensures
        ({
            let st = old(f).stack@;
            (is_int_binop(op) && st.len() >= 2) ==> match int_binop_spec(op, st[st.len() - 2] as i32, st.last() as i32) {
                Some(v) => r is Ok && final(f).stack@ == st.drop_last().drop_last().push(v as i64),
                None => r == Err::<(), ExceptionKind>(ExceptionKind::ArithmeticException),
            }
        }),
        (op == 108 || op == 112) && old(f).stack@.len() >= 2 && old(f).stack@.last() as i32 == 0 ==> r
            == Err::<(), ExceptionKind>(ExceptionKind::ArithmeticException),
        final(f).locals == old(f).locals,
        final(f).pc == old(f).pc,
        final(f).class == old(f).class,
        final(f).method == old(f).method,
        final(f).init_of == old(f).init_of,
        final(f).is_java_top == old(f).is_java_top,
{
    let b = pop_i(f);
    let a = pop_i(f);
    let (a, b) = match (a, b) {
        (Ok(a), Ok(b)) => (a, b),
        _ => {
            return Err(ExceptionKind::VerifyError);
        },
    };
    let v: i32 = if op == 96 {
        a.wrapping_add(b)
    } else if op == 100 {
        a.wrapping_sub(b)
    } else if op == 104 {
        a.wrapping_mul(b)
    } else if op == 108 {
        match arith::idiv(a, b) {
            Some(q) => q,
            None => {
                return Err(ExceptionKind::ArithmeticException);
            },
        }
    } else if op == 112 {
        match arith::irem(a, b) {
            Some(q) => q,
            None => {
                return Err(ExceptionKind::ArithmeticException);
            },
        }
    } else if op == 120 {
        arith::ishl(a, b)
    } else if op == 122 {
        arith::ishr(a, b)
    } else if op == 124 {
        arith::iushr(a, b)
    } else if op == 126 {
        a & b
    } else if op == 128 {
        a | b
    } else if op == 130 {
        a ^ b
    } else {
        return Err(ExceptionKind::UnsupportedOperation);
    };
    f.push(v as i64);
    Ok(())
}

/// The `long` arithmetic, logic and shift opcodes.
pub fn long_binop(f: &mut Frame, op: u8) -> (r: Result<(), ExceptionKind>)
    ensures
        ({
            let st = old(f).stack@;
            (is_long_binop(op) && st.len() >= 4) ==> match long_binop_spec(op, st[st.len() - 4], st[st.len() - 2]) {
                Some(v) => r is Ok && final(f).stack@ == st.drop_last().drop_last().drop_last().drop_last().push(v).push(0),
                None => r == Err::<(), ExceptionKind>(ExceptionKind::ArithmeticException),
            }
        }),
        ({
            let st = old(f).stack@;
            ((op == 121 || op == 123 || op == 125) && st.len() >= 3) ==> r is Ok && final(f).stack@
                == st.drop_last().drop_last().drop_last().push(long_shift_spec(op, st[st.len() - 3], st.last() as i32)).push(0)
        }),
        ({
            let st = old(f).stack@;
            (op == 148 && st.len() >= 4) ==> r is Ok && final(f).stack@ == st.drop_last().drop_last().drop_last().drop_last().push(
                (if st[st.len() - 4] < st[st.len() - 2] {
                    -1i64
                } else if st[st.len() - 4] == st[st.len() - 2] {
                    0i64
                } else {
                    1i64
                }),
            )
        }),
        final(f).locals == old(f).locals,
        final(f).pc == old(f).pc,
        final(f).class == old(f).class,
        final(f).method == old(f).method,
        final(f).init_of == old(f).init_of,
        final(f).is_java_top == old(f).is_java_top,
{
    if op == 121 || op == 123 || op == 125 {
        let n = pop_i(f);
        let a = pop_l(f);
        let (a, n) = match (a, n) {
            (Ok(a), Ok(n)) => (a, n),
            _ => {
                return Err(ExceptionKind::VerifyError);
            },
        };
        let v = if op == 121 {
            arith::lshl(a, n)
        } else if op == 123 {
            arith::lshr(a, n)
        } else {
            arith::lushr(a, n)
        };
        push_l(f, v);
        return Ok(());
    }
    let b = pop_l(f);
    let a = pop_l(f);
    let (a, b) = match (a, b) {
        (Ok(a), Ok(b)) => (a, b),
        _ => {
            return Err(ExceptionKind::VerifyError);
        },
    };
    if op == 148 {
        f.push(arith::lcmp(a, b) as i64);
        return Ok(());
    }
    let v: i64 = if op == 97 {
        a.wrapping_add(b)
    } else if op == 101 {
        a.wrapping_sub(b)
    } else if op == 105 {
        a.wrapping_mul(b)
    } else if op == 109 {
        match arith::ldiv(a, b) {
            Some(q) => q,
            None => {
                return Err(ExceptionKind::ArithmeticException);
            },
        }
    } else if op == 113 {
        match arith::lrem(a, b) {
            Some(q) => q,
            None => {
                return Err(ExceptionKind::ArithmeticException);
            },
        }
    } else if op == 127 {
        a & b
    } else if op == 129 {
        a | b
    } else if op == 131 {
        a ^ b
    } else {
        return Err(ExceptionKind::UnsupportedOperation);
    };
    push_l(f, v);
    Ok(())
}

/// Whether the `if<cond>` opcode `op` (153 to 158) holds of `v`, or the
/// `if_icmp<cond>` opcode `op` (159 to 164) holds of `a` against `b`.
pub fn int_cond(op: u8, a: i32, b: i32) -> (r: bool)
    ensures
        153 <= op <= 164 ==> r == int_cond_spec(op, a, b),
        (op == 153 || op == 159) ==> r == (a == b),
        (op == 154 || op == 160) ==> r == (a != b),
        (op == 155 || op == 161) ==> r == (a < b),
        (op == 156 || op == 162) ==> r == (a >= b),
        (op == 157 || op == 163) ==> r == (a > b),
        (op == 158 || op == 164) ==> r == (a <= b),
{
    let k = if op >= 159 {
        op - 6
    } else {
        op
    };
    if k == 153 {
        a == b
    } else if k == 154 {
        a != b
    } else if k == 155 {
        a < b
    } else if k == 156 {
        a >= b
    } else if k == 157 {
        a > b
    } else {
        a <= b
    }
}

pub struct Vm {
    pub symbols: SymbolTable,
    pub strings: StringTable,
    pub registry: ClassRegistry,
    pub heap: Vec<HeapObj>,
    pub statics: Vec<i64>,
    pub static_base: Vec<usize>,
    pub string_refs: Vec<i64>,
    pub frames: Vec<Frame>,
    /// The class of string objects, once defined.
    pub string_class: Option<usize>,
    /// The class object of each class that has one, by class index (0 when
    /// none was made yet).
    pub mirrors: Vec<i64>,
    pub config: VMConfig,
}

impl Vm {
    pub closed spec fn wf(&self) -> bool {
        &&& self.symbols.wf()
        &&& self.strings.wf()
        &&& self.registry.wf()
        &&& self.static_base@.len() == self.registry@.len()
        &&& self.string_refs@.len() == self.strings@.len()
        &&& forall|c: int| 0 <= c < self.static_base@.len() ==> (#[trigger] self.static_base@[c]) <= self.statics@.len()
    }

    pub closed spec fn spec_depth(&self) -> nat {
        self.frames@.len()
    }

    /// A VM with empty tables; `<init>` is the first symbol.
    pub fn new(config: VMConfig) -> (r: Vm)
        ensures
            r.wf(),
            r.spec_depth() == 0,
    {
        let mut symbols = SymbolTable::new();
        let init: Vec<u8> = vec![60u8, 105u8, 110u8, 105u8, 116u8, 62u8];
        let ctor = symbols.get_or_insert(init.as_slice());
        Vm {
            symbols,
            strings: StringTable::new(),
            registry: ClassRegistry::new(ctor),
            heap: Vec::new(),
            statics: Vec::new(),
            static_base: Vec::new(),
            string_refs: Vec::new(),
            frames: Vec::new(),
            string_class: None,
            mirrors: Vec::new(),
            config,
        }
    }

    /// The symbol for `s`, or `None` when the symbol table is full.
    pub fn get_symbol(&mut self, s: &[u8]) -> (r: Option<usize>)
        requires
            old(self).wf(),
        ensures
            final(self).wf(),
            final(self).spec_depth() == old(self).spec_depth(),
            final(self).registry == old(self).registry,
            final(self).symbols@.len() >= old(self).symbols@.len(),
            final(self).symbols@.len() <= old(self).symbols@.len() + 1,
            forall|i: int| 0 <= i < old(self).symbols@.len() ==> #[trigger] final(self).symbols@[i] == old(self).symbols@[i],
            r matches Some(i) ==> i < final(self).symbols@.len() && final(self).symbols@[i as int] == s@,
            old(self).symbols@.len() < MAX_CAPACITY / 16 ==> r.is_some(),
    {
        if self.symbols.len() >= MAX_CAPACITY / 16 {
            return None;
        }
        proof {
            self.symbols.lemma_distinct();
            crate::symbol::lemma_intern_spec(self.symbols@, s@);
        }
        Some(self.symbols.get_or_insert(s))
    }

    /// Registers a class (see `ClassRegistry::define_class`) and reserves
    /// its static fields.
    pub fn define_class(&mut self, name: &[u8], data: ClassData) -> (r: Result<usize, ClassLoadErr>)
        requires
            old(self).wf(),
        ensures
            final(self).wf(),
            final(self).spec_depth() == old(self).spec_depth(),
            r matches Ok(c) ==> (final(self).registry@, c as int) == crate::symbol::intern_spec(
                old(self).registry@,
                name@,
            ),
            r is Err ==> final(self).registry@ == old(self).registry@,
            final(self).symbols == old(self).symbols,
            !old(self).registry@.contains(name@) && crate::registry::class_ok(data, old(self).registry@.len() as usize, old(self).registry.spec_ctor())
                && old(self).registry@.len() < MAX_CAPACITY / 16 && old(self).statics@.len() <= usize::MAX - 65536
                ==> r == Ok::<usize, ClassLoadErr>(old(self).registry@.len() as usize),
            old(self).registry@.contains(name@) ==> r == Ok::<usize, ClassLoadErr>(
                old(self).registry@.index_of(name@) as usize,
            ),
    {
        let n0 = self.registry.len();
        if let Some(c) = self.registry.find_class(name) {
            proof {
                assert(self.registry@.len() == n0);
                assert(self.registry@[c as int] == name@);
                assert(self.registry@.contains(name@));
                let i = self.registry@.index_of(name@);
                assert(0 <= i < self.registry@.len());
            }
            return Ok(c);
        }
        if self.registry.len() >= MAX_CAPACITY / 16 || self.statics.len() > usize::MAX - 65536 {
            return Err(ClassLoadErr::InvalidFormat);
        }
        let before = self.registry.len();
        let ssize = data.static_size;
        // the method count of a vector in memory fits in a usize
        let _method_count = data.methods.len();
        let res = self.registry.define_class(name, data);
        if self.registry.len() > before {
            let b = self.statics.len();
            let ghost g = *self;
            let mut k: u16 = 0;
            while k < ssize
                invariant
                    k <= ssize,
                    self.statics@.len() == b + k,
                    b == g.statics@.len(),
                    self.frames == g.frames,
                    self.registry == g.registry,
                    self.static_base == g.static_base,
                    self.symbols == g.symbols,
                    self.strings == g.strings,
                    self.string_refs == g.string_refs,
                decreases ssize - k,
            {
                self.statics.push(0);
                k = k + 1;
            }
            self.static_base.push(b);
        }
        res
    }

    /// Prepares a call of method `k` of class `c` with `args` in its first
    /// locals, as the only frame.
    pub fn call_static(&mut self, c: usize, k: usize, args: &Vec<i64>) -> (r: Result<(), VMError>)
        requires
            old(self).wf(),
        ensures
            final(self).wf(),
            r is Ok <==> (c < old(self).registry@.len() && k < old(self).registry.spec_classes()[c as int].methods@.len()),
            r is Err ==> r == Err::<(), VMError>(VMError::NoSuchMethod),
            r is Ok ==> {
                &&& final(self).frames@.len() == 1
                &&& final(self).frames@[0].class == c
                &&& final(self).frames@[0].method == k
                &&& final(self).frames@[0].pc == 0
                &&& final(self).frames@[0].stack@.len() == 0
                &&& final(self).frames@[0].locals@.len() >= args@.len()
                &&& final(self).frames@[0].locals@.subrange(0, args@.len() as int) == args@
            },
    {
        if c >= self.registry.len() {
            return Err(VMError::NoSuchMethod);
        }
        let cd = self.registry.class_data(c);
        if k >= cd.methods.len() {
            return Err(VMError::NoSuchMethod);
        }
        let ml = cd.methods[k].max_locals as usize;
        let n = if ml > args.len() {
            ml
        } else {
            args.len()
        };
        let mut f = Frame::new(c, k, n, None, true);
        let mut i: usize = 0;
        while i < args.len()
            invariant
                0 <= i <= args@.len(),
                args@.len() <= f.locals@.len(),
                f.class == c,
                f.method == k,
                f.pc == 0,
                f.stack@.len() == 0,
                forall|j: int| 0 <= j < i ==> f.locals@[j] == args@[j],
            decreases args@.len() - i,
        {
            f.set_local(i, args[i]);
            i = i + 1;
        }
        assert(f.locals@.subrange(0, args@.len() as int) =~= args@);
        self.frames = Vec::new();
        self.frames.push(f);
        Ok(())
    }

    /// Runs at most `fuel` instructions.
    pub fn run(&mut self, fuel: u64) -> (r: Outcome)
        requires
            old(self).wf(),
        ensures
            final(self).wf(),
            fuel == 0 ==> r == Outcome::OutOfFuel && final(self).frames == old(self).frames,
            fuel > 0 && old(self).frames@.len() == 0 ==> r == Outcome::Returned(None),
            fuel > 0 && old(self).int_fault_next() && !old(self).registry@.contains(seq![106u8, 97u8, 118u8, 97u8, 47u8, 108u8, 97u8, 110u8, 103u8, 47u8, 65u8, 114u8, 105u8, 116u8, 104u8, 109u8, 101u8, 116u8, 105u8, 99u8, 69u8, 120u8, 99u8, 101u8, 112u8, 116u8, 105u8, 111u8, 110u8]) ==> r == Outcome::Threw(ExceptionKind::ArithmeticException),
    {
        let mut left = fuel;
        while left > 0
            invariant
                self.wf(),
                left <= fuel,
                left == fuel ==> *self == *old(self),
                left < fuel ==> old(self).frames@.len() > 0 && !(old(self).int_fault_next() && !old(self).registry@.contains(seq![106u8, 97u8, 118u8, 97u8, 47u8, 108u8, 97u8, 110u8, 103u8, 47u8, 65u8, 114u8, 105u8, 116u8, 104u8, 109u8, 101u8, 116u8, 105u8, 99u8, 69u8, 120u8, 99u8, 101u8, 112u8, 116u8, 105u8, 111u8, 110u8])),
            decreases left,
        {
            match self.step() {
                Step::Next => {},
                Step::Done(o) => {
                    return o;
                },
            }
            left = left - 1;
        }
        Outcome::OutOfFuel
    }

    /// Ends the run with an exception: the frames are dropped.
    fn fail(&mut self, e: ExceptionKind) -> (r: Step)
        requires
            old(self).wf(),
        ensures
            final(self).wf(),
            r == Step::Done(Outcome::Threw(e)),
            final(self).registry@ == old(self).registry@,
            final(self).registry == old(self).registry,
            final(self).symbols == old(self).symbols,
            final(self).heap == old(self).heap,
            final(self).spec_depth() == 0,
    {
        self.frames = Vec::new();
        Step::Done(Outcome::Threw(e))
    }

    /// The class named by symbol `sym`, or the outcome asking for it.
    fn class_of_symbol(&self, sym: usize) -> (r: Result<usize, Outcome>)
        requires
            self.wf(),
        ensures
            r matches Ok(c) ==> c < self.registry@.len() && sym < self.symbols@.len() && self.registry@[c as int] == self.symbols@[sym as int],
            r matches Err(Outcome::NeedClass(n)) ==> sym < self.symbols@.len() && n@ == self.symbols@[sym as int] && !self.registry@.contains(n@),
            sym < self.symbols@.len() ==> (r is Ok || r matches Err(Outcome::NeedClass(_))),
    {
        if sym >= self.symbols.len() {
            return Err(Outcome::Threw(ExceptionKind::VerifyError));
        }
        let name = self.symbols.as_bytes(sym);
        match self.registry.find_class(name) {
            Some(c) => Ok(c),
            None => {
                let n = bytes_range(name, 0, name.len());
                assert(n@ =~= name@);
                Err(Outcome::NeedClass(n))
            },
        }
    }

    /// Starts initialization of `c` if needed, before `getstatic`,
    /// `putstatic`, `invokestatic` and `new` use it. `Ok(f)` when execution
    /// may go on: the class is initialized or being initialized. Otherwise
    /// `f` is back on the stack (to retry its instruction) under a new frame
    /// that runs the class initializer, and the step goes on there.
    pub fn ensure_init(&mut self, f: Frame, c: usize) -> (r: Result<Frame, Step>)
        requires
            old(self).wf(),
            c < old(self).registry@.len(),
        ensures
            final(self).wf(),
            final(self).registry@ == old(self).registry@,
            final(self).registry.spec_classes() == old(self).registry.spec_classes(),
            final(self).symbols == old(self).symbols,
            r matches Ok(g) ==> g == f && (final(self).registry.spec_state(c as int) == crate::class::ClassState::Initializing
                || final(self).registry.spec_state(c as int) == crate::class::ClassState::Initialized)
                && final(self).frames == old(self).frames,
            (old(self).registry.spec_state(c as int) == crate::class::ClassState::Initializing || old(self).registry.spec_state(c as int)
                == crate::class::ClassState::Initialized) ==> r == Ok::<Frame, Step>(f),
            needs_clinit(old(self).registry, c as int) ==> r == Err::<Frame, Step>(Step::Next),
            r == Err::<Frame, Step>(Step::Next) ==> {
                &&& old(self).registry.spec_state(c as int) == crate::class::ClassState::Created || old(self).registry.spec_state(c as int)
                    == crate::class::ClassState::Linked
                &&& final(self).registry.spec_state(c as int) == crate::class::ClassState::Initializing
                &&& final(self).frames@.len() == old(self).frames@.len() + 2
                &&& final(self).frames@[old(self).frames@.len() as int] == f
                &&& final(self).frames@.last().init_of == Some(c)
                &&& final(self).frames@.last().class == c
                &&& Some(final(self).frames@.last().method) == old(self).registry.spec_classes()[c as int].init_method
                &&& final(self).frames@.last().pc == 0
            },
    {
        match self.registry.begin_initialize(c) {
            Err(_) => Err(self.fail(ExceptionKind::LinkageError)),
            Ok(InitAction::Done) => Ok(f),
            Ok(InitAction::RunClinit(k)) => {
                let cd = self.registry.class_data(c);
                if k >= cd.methods.len() {
                    return Err(self.fail(ExceptionKind::VerifyError));
                }
                let ml = cd.methods[k].max_locals as usize;
                let depth = self.frames.len();
                self.frames.push(f);
                let mut g = Frame::new(c, k, ml, Some(depth), false);
                g.init_of = Some(c);
                self.frames.push(g);
                Err(Step::Next)
            },
        }
    }

    /// Calls method `m` of class `c` from frame `f` (already advanced past
    /// the call), taking its arguments (and the receiver when `with_receiver`)
    /// from `f`'s operand stack.
    pub fn invoke(&mut self, f: Frame, c: usize, m: usize, with_receiver: bool) -> (r: Step)
        requires
            old(self).wf(),
        ensures
            final(self).wf(),
            ({
                let cls = old(self).registry.spec_classes();
                let meth = cls[c as int].methods@[m as int];
                let n = meth.arg_slots + if with_receiver {
                    1int
                } else {
                    0int
                };
                let st = f.stack@;
                let args = st.subrange(st.len() - n, st.len() as int);
                (c < old(self).registry@.len() && m < cls[c as int].methods@.len() && !meth.spec_is_abstract()
                    && !meth.spec_is_native() && meth.arg_slots < usize::MAX - 1 && st.len() >= n
                    && old(self).frames@.len() < MAX_FRAMES && (with_receiver ==> args[0] != 0)) ==> {
                    &&& r is Next
                    &&& final(self).frames@.len() == old(self).frames@.len() + 2
                    &&& final(self).frames@[old(self).frames@.len() as int].stack@ == st.subrange(0, st.len() - n)
                    &&& final(self).frames@[old(self).frames@.len() as int].pc == f.pc
                    &&& final(self).frames@.last().class == c
                    &&& final(self).frames@.last().method == m
                    &&& final(self).frames@.last().pc == 0
                    &&& final(self).frames@.last().stack@.len() == 0
                    &&& final(self).frames@.last().init_of.is_none()
                    &&& final(self).frames@.last().locals@.len() >= n
                    &&& final(self).frames@.last().locals@.subrange(0, n) == args
                }
            }),
            final(self).registry == old(self).registry,
            final(self).symbols == old(self).symbols,
            r is Next ==> final(self).frames@.len() == old(self).frames@.len() + 2 && final(self).frames@.last().class == c
                && final(self).frames@.last().method == m && final(self).frames@.last().pc == 0
                && final(self).frames@.last().init_of.is_none() && final(self).frames@[old(self).frames@.len() as int].pc == f.pc
                && c < old(self).registry@.len() && m < old(self).registry.spec_classes()[c as int].methods@.len(),
    {
        let mut f = f;
        let ghost st = f.stack@;
        let old_pc = f.pc;
        if c >= self.registry.len() {
            return self.fail(ExceptionKind::VerifyError);
        }
        let cd = self.registry.class_data(c);
        if m >= cd.methods.len() {
            return self.fail(ExceptionKind::NoSuchMethodError);
        }
        let meth = &cd.methods[m];
        if meth.is_abstract() {
            return self.fail(ExceptionKind::AbstractMethodError);
        }
        if meth.is_native() {
            return self.native_call(f, c, m, with_receiver);
        }
        if meth.arg_slots >= usize::MAX - 1 {
            return self.fail(ExceptionKind::VerifyError);
        }
        let n = meth.arg_slots + if with_receiver {
            1
        } else {
            0
        };
        if f.stack.len() < n {
            return self.fail(ExceptionKind::VerifyError);
        }
        if self.frames.len() >= MAX_FRAMES {
            return self.fail(ExceptionKind::StackOverflowError);
        }
        let ml = meth.max_locals as usize;
        let size = if ml > n {
            ml
        } else {
            n
        };
        let depth = self.frames.len();
        let mut g = Frame::new(c, m, size, Some(depth), false);
        let mut i: usize = n;
        while i > 0
            invariant
                i <= n,
                n <= size,
                n <= st.len(),
                g.locals@.len() == size,
                g.class == c,
                g.method == m,
                g.pc == 0,
                g.stack@.len() == 0,
                g.init_of.is_none(),
                f.stack@ == st.subrange(0, st.len() - n + i),
                f.pc == old_pc,
                forall|j: int| i <= j < n ==> g.locals@[j] == st[st.len() - n + j],
            decreases i,
        {
            let v = f.pop();
            i = i - 1;
            proof {
                assert(f.stack@ =~= st.subrange(0, st.len() - n + i));
            }
            match v {
                Some(v) => {
                    g.set_local(i, v);
                },
                None => {},
            }
        }
        proof {
            assert(g.locals@.subrange(0, n as int) =~= st.subrange(st.len() - n, st.len() as int));
        }
        if with_receiver && n > 0 {
            match g.local(0) {
                Some(0) => {
                    return self.fail(ExceptionKind::NullPointerException);
                },
                _ => {},
            }
        }
        self.frames.push(f);
        self.frames.push(g);
        Step::Next
    }

    /// Returns from frame `f` with `val` (a value and whether it takes two
    /// slots).
    pub fn do_return(&mut self, f: Frame, val: Option<(i64, bool)>) -> (r: Step)
        requires
            old(self).wf(),
        ensures
            final(self).wf(),
            (f.is_java_top || old(self).frames@.len() == 0) ==> r == Step::Done(Outcome::Returned(
                match val {
                    Some(p) => Some(p.0),
                    None => None,
                },
            )),
            (!f.is_java_top && old(self).frames@.len() > 0 && f.init_of.is_none()) ==> {
                let caller = old(self).frames@.last();
                &&& r is Next
                &&& final(self).frames@.len() == old(self).frames@.len()
                &&& final(self).frames@.last().pc == caller.pc
                &&& final(self).frames@.last().class == caller.class
                &&& final(self).frames@.last().method == caller.method
                &&& final(self).frames@.last().locals == caller.locals
                &&& final(self).frames@.last().stack@ == match val {
                    Some((v, false)) => caller.stack@.push(v),
                    Some((v, true)) => caller.stack@.push(v).push(0),
                    None => caller.stack@,
                }
            },
    {
        match f.init_of {
            Some(c) => {
                if c < self.registry.len() && self.registry.state(c) == crate::class::ClassState::Initializing {
                    self.registry.finish_initialize(c);
                }
            },
            None => {},
        }
        if f.is_java_top {
            self.frames = Vec::new();
            return Step::Done(Outcome::Returned(
                match val {
                    Some((v, _)) => Some(v),
                    None => None,
                },
            ));
        }
        match self.frames.pop() {
            None => Step::Done(Outcome::Returned(
                match val {
                    Some((v, _)) => Some(v),
                    None => None,
                },
            )),
            Some(mut caller) => {
                if f.init_of.is_none() {
                    match val {
                        Some((v, wide)) => {
                            caller.push(v);
                            if wide {
                                caller.push(0);
                            }
                        },
                        None => {},
                    }
                }
                self.frames.push(caller);
                Step::Next
            },
        }
    }


    /// The top frame runs the method a static call through `mr` resolves
    /// to: declared by the named class or an ancestor, with the referenced
    /// name and descriptor, from its first instruction; the caller (at
    /// `caller`) goes on at `next` afterwards.
    pub open spec fn static_call_ok(self, mr: crate::constant_pool::ConstMemberRef, caller: int, next: usize) -> bool {
        let g = self.frames@.last();
        let cls = self.registry.spec_classes();
        &&& exists|c0: int| 0 <= c0 < self.registry@.len() && self.registry@[c0] == self.symbols@[mr.class_name as int]
            && #[trigger] crate::registry::subclass_of(cls, c0, g.class as int)
        &&& g.class < self.registry@.len()
        &&& g.method < cls[g.class as int].methods@.len()
        &&& cls[g.class as int].methods@[g.method as int].name == mr.member_name
        &&& cls[g.class as int].methods@[g.method as int].descriptor == mr.member_desc
        &&& g.pc == 0
        &&& 0 <= caller < self.frames@.len()
        &&& self.frames@[caller].pc == next
    }

    /// The step ran no instruction but started the initializer of class
    /// `c`: frame `f` is back on the stack unchanged (its instruction will
    /// run again), under the initializer's frame.
    pub open spec fn clinit_started(self, old_len: int, f: Frame, c: int) -> bool {
        &&& self.frames@.len() == old_len + 2
        &&& self.frames@[old_len] == f
        &&& self.frames@.last().init_of == Some(c as usize)
        &&& self.frames@.last().class == c
        &&& self.frames@.last().pc == 0
        &&& self.registry.spec_state(c) == crate::class::ClassState::Initializing
    }

    /// Exception-table entry `e` of a method of class `c` catches an
    /// exception of class `ec` thrown at `pc`: its range holds `pc` and its
    /// catch type is empty or a registered ancestor of `ec`.
    pub open spec fn handler_matches(self, c: int, e: crate::method::ExceptionTable, pc: int, ec: int) -> bool {
        let cn = self.registry.spec_classes()[c].cp.spec_class_name(e.catch_type as int);
        &&& e.start_pc <= pc < e.end_pc
        &&& (e.catch_type == 0 || (cn is Some && cn.unwrap() < self.symbols@.len() && self.registry@.contains(
            self.symbols@[cn.unwrap() as int],
        ) && crate::registry::subclass_of(
            self.registry.spec_classes(),
            ec,
            self.registry@.index_of(self.symbols@[cn.unwrap() as int]),
        )))
    }

    /// Symbol `sym` names a registered class.
    pub open spec fn registered_symbol(&self, sym: usize) -> bool {
        sym < self.symbols@.len() && self.registry@.contains(self.symbols@[sym as int])
    }

    /// The index of `java/lang/Object`, or `usize::MAX` while it is not
    /// registered.
    pub open spec fn spec_object_class(&self) -> usize {
        let n = seq![106u8, 97u8, 118u8, 97u8, 47u8, 108u8, 97u8, 110u8, 103u8, 47u8, 79u8, 98u8, 106u8, 101u8, 99u8, 116u8];
        if self.registry@.contains(n) {
            self.registry@.index_of(n) as usize
        } else {
            usize::MAX
        }
    }

    /// Storing reference `v` into the array at heap index `ai` passes the
    /// array-store check.
    pub open spec fn array_store_ok(&self, ai: int, v: i64) -> bool {
        v == 0 || (0 < v <= self.heap@.len() && match self.heap@[ai] {
            HeapObj::Array { arr, .. } => match arr.component {
                Component::Class(ec) => ec < self.registry@.len() && self.heap@[v - 1].spec_cls() < self.registry@.len()
                    && crate::registry::assignable(
                    self.registry.spec_classes(),
                    ec,
                    self.heap@[v - 1].spec_cls(),
                    self.spec_object_class(),
                ),
                _ => false,
            },
            _ => false,
        })
    }

    /// The elements of the array at heap index `ai`, if it is an array.
    pub open spec fn array_elems(&self, ai: int) -> Option<Seq<i64>> {
        if 0 <= ai < self.heap@.len() {
            match self.heap@[ai] {
                HeapObj::Array { arr, .. } => Some(arr.data@),
                _ => None,
            }
        } else {
            None
        }
    }

    /// The next instruction is an `int` division or remainder by zero.
    pub open spec fn int_fault_next(&self) -> bool {
        let f = self.frames@.last();
        let code = self.spec_code(f);
        let st = f.stack@;
        self.runnable() && is_int_binop(code[f.pc as int]) && st.len() >= 2 && int_binop_spec(
            code[f.pc as int],
            st[st.len() - 2] as i32,
            st.last() as i32,
        ) is None
    }

    /// The top frame runs a method of a registered class and stands inside
    /// its code.
    pub open spec fn runnable(&self) -> bool {
        let f = self.frames@.last();
        &&& self.frames@.len() > 0
        &&& f.class < self.registry@.len()
        &&& f.method < self.registry.spec_classes()[f.class as int].methods@.len()
        &&& f.pc < self.spec_code(f).len()
        &&& self.spec_code(f).len() < usize::MAX - 8
    }

    /// The code of the method that frame `f` runs.
    pub open spec fn spec_code(&self, f: Frame) -> Seq<u8> {
        self.registry.spec_classes()[f.class as int].methods@[f.method as int].code@
    }

    /// Executes one instruction of the top frame. Branches jump relative to
    /// their own opcode (`pc + offset`); `int` and `long` arithmetic follows
    /// `int_binop_spec`, `long_binop_spec` and `long_shift_spec` (shift
    /// distances masked), and division or remainder by zero ends the run
    /// with an `ArithmeticException`.
    pub fn step(&mut self) -> (r: Step)
        requires
            old(self).wf(),
        ensures
            final(self).wf(),
            ({
                let f = old(self).frames@.last();
                let code = old(self).spec_code(f);
                (old(self).frames@.len() > 0 && f.class < old(self).registry@.len()
                    && f.method < old(self).registry.spec_classes()[f.class as int].methods@.len()
                    && f.pc + 3 <= code.len() && code.len() < usize::MAX - 8 && code[f.pc as int] == 167u8
                    && 0 <= f.pc + offset16(code, f.pc + 1) < code.len()) ==> (final(self).frames@.len()
                    == old(self).frames@.len() && final(self).frames@.last().pc == f.pc + offset16(code, f.pc + 1)
                    && r is Next)
            }),
            old(self).frames@.len() == 0 ==> r == Step::Done(Outcome::Returned(None)),
            ({
                let f = old(self).frames@.last();
                let code = old(self).spec_code(f);
                let op = code[f.pc as int];
                let idx = ((code[f.pc + 1] as u16) * 256 + code[f.pc + 2] as u16) as u16;
                let cls = old(self).registry.spec_classes();
                let cp = cls[f.class as int].cp;
                let named = if op == 187 {
                    cp.spec_class_name(idx as int)
                } else if op == 184 {
                    match cp.spec_member_ref(idx as int, crate::constant_pool::TAG_METHODREF) {
                        Some(m) => Some(m.class_name),
                        None => None,
                    }
                } else {
                    None
                };
                forall|tc: int|
                    old(self).runnable() && (op == 187 || op == 184) && f.pc + 3 <= code.len() && named is Some && named.unwrap()
                        < old(self).symbols@.len() && 0 <= tc < old(self).registry@.len() && old(self).registry@[tc]
                        == old(self).symbols@[named.unwrap() as int] && #[trigger] needs_clinit(old(self).registry, tc) ==> r is Next
                        && final(self).clinit_started(old(self).frames@.len() - 1, f, tc)
            }),
            ({
                let f = old(self).frames@.last();
                let code = old(self).spec_code(f);
                let op = code[f.pc as int];
                let idx = ((code[f.pc + 1] as u16) * 256 + code[f.pc + 2] as u16) as u16;
                let cls = old(self).registry.spec_classes();
                let fr = cls[f.class as int].cp.spec_member_ref(idx as int, crate::constant_pool::TAG_FIELDREF);
                forall|tc: int, a: int|
                    old(self).runnable() && (op == 178 || op == 179) && f.pc + 3 <= code.len() && fr is Some && fr.unwrap().class_name
                        < old(self).symbols@.len() && 0 <= tc < old(self).registry@.len() && old(self).registry@[tc]
                        == old(self).symbols@[fr.unwrap().class_name as int] && (#[trigger] crate::registry::field_lookup(
                        cls,
                        tc,
                        fr.unwrap().member_name,
                    )) is Some && crate::registry::field_lookup(cls, tc, fr.unwrap().member_name).unwrap().0 == a
                        && cls[a].fields@[crate::registry::field_lookup(cls, tc, fr.unwrap().member_name).unwrap().1 as int].descriptor
                        < old(self).symbols@.len() && #[trigger] needs_clinit(old(self).registry, a) ==> r is Next && final(self).clinit_started(
                        old(self).frames@.len() - 1,
                        f,
                        a,
                    )
            }),
            ({
                let f = old(self).frames@.last();
                let code = old(self).spec_code(f);
                let idx = ((code[f.pc + 1] as u16) * 256 + code[f.pc + 2] as u16) as u16;
                let mr = old(self).registry.spec_classes()[f.class as int].cp.spec_member_ref(
                    idx as int,
                    crate::constant_pool::TAG_METHODREF,
                );
                (old(self).runnable() && code[f.pc as int] == 184u8 && f.pc + 3 <= code.len() && mr is Some
                    && old(self).registered_symbol(mr.unwrap().class_name) && r is Next && final(self).frames@.len()
                    == old(self).frames@.len() + 1 && final(self).frames@.last().init_of.is_none()) ==> final(self).static_call_ok(
                    mr.unwrap(),
                    old(self).frames@.len() - 1,
                    (f.pc + 3) as usize,
                )
            }),
            ({
                let f = old(self).frames@.last();
                let code = old(self).spec_code(f);
                let st = f.stack@;
                let op = code[f.pc as int];
                (old(self).runnable() && 2 <= op <= 8) ==> (r is Next && final(self).frames@.len() == old(self).frames@.len()
                    && final(self).frames@.last().stack@ == st.push((op - 3) as i64) && final(self).frames@.last().locals == f.locals
                    && final(self).frames@.last().pc == f.pc + 1)
            }),
            ({
                let f = old(self).frames@.last();
                let code = old(self).spec_code(f);
                let st = f.stack@;
                let op = code[f.pc as int];
                (old(self).runnable() && 26 <= op <= 29 && op - 26 < f.locals@.len()) ==> (r is Next && final(self).frames@.len()
                    == old(self).frames@.len() && final(self).frames@.last().stack@ == st.push(f.locals@[op - 26])
                    && final(self).frames@.last().locals == f.locals && final(self).frames@.last().pc == f.pc + 1)
            }),
            ({
                let f = old(self).frames@.last();
                let code = old(self).spec_code(f);
                let st = f.stack@;
                let op = code[f.pc as int];
                (old(self).runnable() && 59 <= op <= 62 && op - 59 < f.locals@.len() && st.len() >= 1) ==> (r is Next
                    && final(self).frames@.len() == old(self).frames@.len() && final(self).frames@.last().stack@ == st.drop_last()
                    && final(self).frames@.last().locals@ == f.locals@.update(op - 59, st.last())
                    && final(self).frames@.last().pc == f.pc + 1)
            }),
            ({
                let f = old(self).frames@.last();
                let code = old(self).spec_code(f);
                let st = f.stack@;
                let callers = old(self).frames@.drop_last();
                (old(self).runnable() && code[f.pc as int] == 172u8 && st.len() >= 1) ==> {
                    &&& (f.is_java_top || callers.len() == 0) ==> r == Step::Done(Outcome::Returned(Some((st.last() as i32) as i64)))
                    &&& (!f.is_java_top && callers.len() > 0 && f.init_of.is_none()) ==> (r is Next
                        && final(self).frames@.len() == callers.len()
                        && final(self).frames@.last().stack@ == callers.last().stack@.push((st.last() as i32) as i64)
                        && final(self).frames@.last().pc == callers.last().pc && final(self).frames@.last().method
                        == callers.last().method && final(self).frames@.last().class == callers.last().class)
                }
            }),
            ({
                let f = old(self).frames@.last();
                let code = old(self).spec_code(f);
                let key = f.stack@.last() as i32;
                let a = (f.pc + 4) / 4 * 4;
                let n = word_at(code, a + 4);
                let off = lookup_offset(code, a, n as int, key, 0);
                (old(self).runnable() && code[f.pc as int] == 171u8 && f.stack@.len() >= 1 && a + 12 <= code.len() && n >= 0
                    && a + 8 + 8 * n <= code.len() && 0 <= f.pc + off < code.len()) ==> (r is Next
                    && final(self).frames@.last().pc == f.pc + off)
            }),
            ({
                let f = old(self).frames@.last();
                let code = old(self).spec_code(f);
                (old(self).runnable() && code[f.pc as int] == 201u8 && f.pc + 5 <= code.len() && 0 <= f.pc + word_at(
                    code,
                    f.pc + 1,
                ) < code.len()) ==> (r is Next && final(self).frames@.last().pc == f.pc + word_at(code, f.pc + 1)
                    && final(self).frames@.last().stack@ == f.stack@.push((f.pc + 5) as i64))
            }),
            ({
                let f = old(self).frames@.last();
                let code = old(self).spec_code(f);
                (old(self).runnable() && code[f.pc as int] == 168u8 && f.pc + 3 <= code.len() && 0 <= f.pc + offset16(
                    code,
                    f.pc + 1,
                ) < code.len()) ==> (r is Next && final(self).frames@.last().pc == f.pc + offset16(code, f.pc + 1)
                    && final(self).frames@.last().stack@ == f.stack@.push((f.pc + 3) as i64))
            }),
            ({
                let f = old(self).frames@.last();
                let code = old(self).spec_code(f);
                let key = f.stack@.last() as i32;
                let a = (f.pc + 4) / 4 * 4;
                let off = if word_at(code, a + 4) <= key <= word_at(code, a + 8) {
                    word_at(code, a + 12 + 4 * (key - word_at(code, a + 4)))
                } else {
                    word_at(code, a)
                };
                (old(self).runnable() && code[f.pc as int] == 170u8 && f.stack@.len() >= 1 && a + 12 <= code.len() && (
                word_at(code, a + 4) <= key <= word_at(code, a + 8) ==> a + 12 + 4 * (key - word_at(code, a + 4)) + 4
                    <= code.len()) && 0 <= f.pc + off < code.len()) ==> (r is Next && final(self).frames@.last().pc == f.pc + off)
            }),
            ({
                let f = old(self).frames@.last();
                let code = old(self).spec_code(f);
                (old(self).runnable() && code[f.pc as int] == 200u8 && f.pc + 5 <= code.len()) ==> (0 <= f.pc + word_at(
                    code,
                    f.pc + 1,
                ) < code.len() ==> (r is Next && final(self).frames@.last().pc == f.pc + word_at(code, f.pc + 1)))
            }),
            ({
                let f = old(self).frames@.last();
                let code = old(self).spec_code(f);
                let st = f.stack@;
                let a = st[st.len() - 3];
                let i = st[st.len() - 2] as i32;
                let v = st.last();
                (old(self).runnable() && code[f.pc as int] == 83u8 && st.len() >= 3) ==> {
                    &&& (a == 0 && !old(self).registry@.contains(seq![106u8, 97u8, 118u8, 97u8, 47u8, 108u8, 97u8, 110u8, 103u8, 47u8, 78u8, 117u8, 108u8, 108u8, 80u8, 111u8, 105u8, 110u8, 116u8, 101u8, 114u8, 69u8, 120u8, 99u8, 101u8, 112u8, 116u8, 105u8, 111u8, 110u8])) ==> r == Step::Done(Outcome::Threw(ExceptionKind::NullPointerException))
                    &&& (0 < a <= old(self).heap@.len() && old(self).array_elems(a - 1) is Some && !(0 <= i < old(self).array_elems(a - 1).unwrap().len())
                        && old(self).array_store_ok(a - 1, v)) ==> raised(r, ExceptionKind::ArrayIndexOutOfBoundsException) && (!old(self).registry@.contains(seq![106u8, 97u8, 118u8, 97u8, 47u8, 108u8, 97u8, 110u8, 103u8, 47u8, 65u8, 114u8, 114u8, 97u8, 121u8, 73u8, 110u8, 100u8, 101u8, 120u8, 79u8, 117u8, 116u8, 79u8, 102u8, 66u8, 111u8, 117u8, 110u8, 100u8, 115u8, 69u8, 120u8, 99u8, 101u8, 112u8, 116u8, 105u8, 111u8, 110u8])
                        ==> r == Step::Done(Outcome::Threw(ExceptionKind::ArrayIndexOutOfBoundsException))
                        && final(self).array_elems(a - 1) == old(self).array_elems(a - 1))
                    &&& (0 < a <= old(self).heap@.len() && old(self).array_elems(a - 1) is Some && 0 <= i < old(self).array_elems(a - 1).unwrap().len()
                        && old(self).array_store_ok(a - 1, v)) ==> (r is Next && final(self).array_elems(a - 1) == Some(
                        old(self).array_elems(a - 1).unwrap().update(i as int, v),
                    ) && final(self).frames@.last().pc == f.pc + 1)
                    &&& (0 < a <= old(self).heap@.len() && v != 0 && 0 < v <= old(self).heap@.len() && (match old(self).heap@[a - 1] {
                        HeapObj::Array { arr, .. } => match arr.component {
                            Component::Class(ec) => ec < old(self).registry@.len() && old(self).heap@[v - 1].spec_cls() < old(self).registry@.len()
                                && !crate::registry::assignable(
                                old(self).registry.spec_classes(),
                                ec,
                                old(self).heap@[v - 1].spec_cls(),
                                old(self).spec_object_class(),
                            ),
                            Component::Prim(_) => true,
                        },
                        _ => false,
                    }) && !old(self).registry@.contains(seq![106u8, 97u8, 118u8, 97u8, 47u8, 108u8, 97u8, 110u8, 103u8, 47u8, 65u8, 114u8, 114u8, 97u8, 121u8, 83u8, 116u8, 111u8, 114u8, 101u8, 69u8, 120u8, 99u8, 101u8, 112u8, 116u8, 105u8, 111u8, 110u8])) ==> r == Step::Done(Outcome::Threw(ExceptionKind::ArrayStoreException))
                }
            }),
            ({
                let f = old(self).frames@.last();
                let code = old(self).spec_code(f);
                let st = f.stack@;
                (old(self).runnable() && is_int_binop(code[f.pc as int]) && st.len() >= 2) ==> match int_binop_spec(
                    code[f.pc as int],
                    st[st.len() - 2] as i32,
                    st.last() as i32,
                ) {
                    Some(v) => r is Next && final(self).frames@.len() == old(self).frames@.len()
                        && final(self).frames@.last().stack@ == st.drop_last().drop_last().push(v as i64)
                        && final(self).frames@.last().pc == f.pc + 1,
                    None => raised(r, ExceptionKind::ArithmeticException) && (!old(self).registry@.contains(seq![106u8, 97u8, 118u8, 97u8, 47u8, 108u8, 97u8, 110u8, 103u8, 47u8, 65u8, 114u8, 105u8, 116u8, 104u8, 109u8, 101u8, 116u8, 105u8, 99u8, 69u8, 120u8, 99u8, 101u8, 112u8, 116u8, 105u8, 111u8, 110u8]) ==> r == Step::Done(Outcome::Threw(ExceptionKind::ArithmeticException))),
                }
            }),
            ({
                let f = old(self).frames@.last();
                let code = old(self).spec_code(f);
                let st = f.stack@;
                (old(self).runnable() && is_long_binop(code[f.pc as int]) && st.len() >= 4) ==> match long_binop_spec(
                    code[f.pc as int],
                    st[st.len() - 4],
                    st[st.len() - 2],
                ) {
                    Some(v) => r is Next && final(self).frames@.len() == old(self).frames@.len()
                        && final(self).frames@.last().stack@ == st.drop_last().drop_last().drop_last().drop_last().push(v).push(0)
                        && final(self).frames@.last().pc == f.pc + 1,
                    None => raised(r, ExceptionKind::ArithmeticException) && (!old(self).registry@.contains(seq![106u8, 97u8, 118u8, 97u8, 47u8, 108u8, 97u8, 110u8, 103u8, 47u8, 65u8, 114u8, 105u8, 116u8, 104u8, 109u8, 101u8, 116u8, 105u8, 99u8, 69u8, 120u8, 99u8, 101u8, 112u8, 116u8, 105u8, 111u8, 110u8]) ==> r == Step::Done(Outcome::Threw(ExceptionKind::ArithmeticException))),
                }
            }),
            ({
                let f = old(self).frames@.last();
                let code = old(self).spec_code(f);
                let st = f.stack@;
                let op = code[f.pc as int];
                (old(self).runnable() && (op == 121 || op == 123 || op == 125) && st.len() >= 3) ==> (r is Next
                    && final(self).frames@.len() == old(self).frames@.len()
                    && final(self).frames@.last().stack@ == st.drop_last().drop_last().drop_last().push(
                    long_shift_spec(op, st[st.len() - 3], st.last() as i32),
                ).push(0) && final(self).frames@.last().pc == f.pc + 1)
            }),
            ({
                let f = old(self).frames@.last();
                let code = old(self).spec_code(f);
                let st = f.stack@;
                let op = code[f.pc as int];
                (old(self).runnable() && (153 <= op <= 166 || op == 198 || op == 199) && st.len() >= branch_pops(op)
                    && f.pc + 3 <= code.len()) ==> if branch_taken(op, st) {
                    0 <= f.pc + offset16(code, f.pc + 1) < code.len() ==> (r is Next && final(self).frames@.last().pc
                        == f.pc + offset16(code, f.pc + 1) && final(self).frames@.len() == old(self).frames@.len())
                } else {
                    r is Next && final(self).frames@.last().pc == f.pc + 3 && final(self).frames@.len() == old(self).frames@.len()
                }
            }),
    {
        let mut f = match self.frames.pop() {
            Some(f) => f,
            None => {
                return Step::Done(Outcome::Returned(None));
            },
        };
        let c = f.class;
        let m = f.method;
        if c >= self.registry.len() {
            return self.fail(ExceptionKind::VerifyError);
        }
        let pc = f.pc;
        let op: u8;
        let b1: Option<u8>;
        let b2: Option<u8>;
        let b3: Option<u8>;
        let s16: Option<i32>;
        let u16v: Option<u16>;
        let s32: Option<i32>;
        let wide_inc: Option<i32>;
        let code_len: usize;
        {
            let cd = self.registry.class_data(c);
            if m >= cd.methods.len() {
                return self.fail(ExceptionKind::VerifyError);
            }
            let code = &cd.methods[m].code;
            code_len = code.len();
            if code_len >= usize::MAX - 8 || pc >= code_len {
                return self.fail(ExceptionKind::VerifyError);
            }
            op = code[pc];
            b1 = at_u8(code, pc + 1);
            b2 = at_u8(code, pc + 2);
            b3 = at_u8(code, pc + 3);
            s16 = at_i16(code, pc + 1);
            u16v = at_u16(code, pc + 1);
            s32 = at_i32(code, pc + 1);
            wide_inc = at_i16(code, pc + 4);
        }
        let res: Result<(), ExceptionKind> = if op == 0 {
            f.pc = pc + 1;
            Ok(())
        } else if op == 1 {
            f.push(0);
            f.pc = pc + 1;
            Ok(())
        } else if 2 <= op && op <= 8 {
            f.push(op as i64 - 3);
            f.pc = pc + 1;
            Ok(())
        } else if op == 9 || op == 10 {
            push_l(&mut f, op as i64 - 9);
            f.pc = pc + 1;
            Ok(())
        } else if op == 16 {
            match b1 {
                Some(b) => {
                    f.push(if b >= 128 {
                        b as i64 - 256
                    } else {
                        b as i64
                    });
                    f.pc = pc + 2;
                    Ok(())
                },
                None => Err(ExceptionKind::VerifyError),
            }
        } else if op == 17 {
            match s16 {
                Some(v) => {
                    f.push(v as i64);
                    f.pc = pc + 3;
                    Ok(())
                },
                None => Err(ExceptionKind::VerifyError),
            }
        } else if op == 18 || op == 19 || op == 20 {
            let idx: Option<u16> = if op == 18 {
                match b1 {
                    Some(b) => Some(b as u16),
                    None => None,
                }
            } else {
                u16v
            };
            match idx {
                None => Err(ExceptionKind::VerifyError),
                Some(i) => {
                    let next = if op == 18 {
                        pc + 2
                    } else {
                        pc + 3
                    };
                    let tag = {
                        let cp = &self.registry.class_data(c).cp;
                        if (i as usize) < cp.tags.len() && cp.tags.len() == cp.values.len() {
                            Some((cp.tags[i as usize], cp.values[i as usize]))
                        } else {
                            None
                        }
                    };
                    match tag {
                        Some((t, v)) => {
                            if t == TAG_INTEGER {
                                f.push((v as i32) as i64);
                                f.pc = next;
                                Ok(())
                            } else if t == TAG_LONG {
                                push_l(&mut f, v as i64);
                                f.pc = next;
                                Ok(())
                            } else if t == TAG_STRING {
                                let sym = self.registry.class_data(c).cp.get_utf8(v as u16);
                                match sym {
                                    Some(sy) => {
                                        if sy < self.symbols.len() {
                                            let units = widen(self.symbols.as_bytes(sy));
                                            match self.string_ref(units.as_slice()) {
                                                Some(r) => {
                                                    f.push(r);
                                                    f.pc = next;
                                                    Ok(())
                                                },
                                                None => Err(ExceptionKind::OutOfMemoryError),
                                            }
                                        } else {
                                            Err(ExceptionKind::VerifyError)
                                        }
                                    },
                                    None => Err(ExceptionKind::VerifyError),
                                }
                            } else if t == crate::constant_pool::TAG_CLASS {
                                return self.ldc_class(f, i, next);
                            } else {
                                Err(ExceptionKind::UnsupportedOperation)
                            }
                        },
                        None => Err(ExceptionKind::VerifyError),
                    }
                },
            }
        } else if op == 21 || op == 25 || op == 22 || (26 <= op && op <= 33) || (42 <= op && op <= 45) {
            let (idx, len): (Option<u8>, usize) = if op == 21 || op == 25 || op == 22 {
                (b1, 2)
            } else if op <= 29 {
                (Some(op - 26), 1)
            } else if op <= 33 {
                (Some(op - 30), 1)
            } else {
                (Some(op - 42), 1)
            };
            let wide = op == 22 || (30 <= op && op <= 33);
            match idx {
                Some(i) => match f.local(i as usize) {
                    Some(v) => {
                        if wide {
                            push_l(&mut f, v);
                        } else {
                            f.push(v);
                        }
                        f.pc = pc + len;
                        Ok(())
                    },
                    None => Err(ExceptionKind::VerifyError),
                },
                None => Err(ExceptionKind::VerifyError),
            }
        } else if op == 54 || op == 58 || op == 55 || (59 <= op && op <= 66) || (75 <= op && op <= 78) {
            let (idx, len): (Option<u8>, usize) = if op == 54 || op == 58 || op == 55 {
                (b1, 2)
            } else if op <= 62 {
                (Some(op - 59), 1)
            } else if op <= 66 {
                (Some(op - 63), 1)
            } else {
                (Some(op - 75), 1)
            };
            let wide = op == 55 || (63 <= op && op <= 66);
            match idx {
                Some(i) => {
                    let v = if wide {
                        pop_l(&mut f)
                    } else {
                        pop_a(&mut f)
                    };
                    match v {
                        Ok(v) => {
                            if f.set_local(i as usize, v) && (!wide || f.set_local(i as usize + 1, 0)) {
                                f.pc = pc + len;
                                Ok(())
                            } else {
                                Err(ExceptionKind::VerifyError)
                            }
                        },
                        Err(e) => Err(e),
                    }
                },
                None => Err(ExceptionKind::VerifyError),
            }
        } else if op == 47 || op == 80 {
            let v = if op == 80 {
                pop_l(&mut f)
            } else {
                Ok(0)
            };
            let i = pop_i(&mut f);
            let a = pop_a(&mut f);
            match (v, i, a) {
                (Ok(v), Ok(i), Ok(a)) => {
                    if a == 0 {
                        Err(ExceptionKind::NullPointerException)
                    } else if a < 0 || (a - 1) as u64 >= self.heap.len() as u64 {
                        Err(ExceptionKind::VerifyError)
                    } else {
                        match &mut self.heap[(a - 1) as usize] {
                            HeapObj::Array { arr, .. } => {
                                if op == 47 {
                                    match arr.get(i) {
                                        Some(x) => {
                                            push_l(&mut f, x);
                                            f.pc = pc + 1;
                                            Ok(())
                                        },
                                        None => Err(ExceptionKind::ArrayIndexOutOfBoundsException),
                                    }
                                } else if arr.set(i, v) {
                                    f.pc = pc + 1;
                                    Ok(())
                                } else {
                                    Err(ExceptionKind::ArrayIndexOutOfBoundsException)
                                }
                            },
                            _ => Err(ExceptionKind::VerifyError),
                        }
                    }
                },
                _ => Err(ExceptionKind::VerifyError),
            }
        } else if op == 196 {
            match (b1, u16v_at2(b2, b3)) {
                (Some(inner), Some(idx)) => {
                    let i = idx as usize;
                    if inner == 21 || inner == 25 {
                        match f.local(i) {
                            Some(v) => {
                                f.push(v);
                                f.pc = pc + 4;
                                Ok(())
                            },
                            None => Err(ExceptionKind::VerifyError),
                        }
                    } else if inner == 22 {
                        match f.local(i) {
                            Some(v) => {
                                push_l(&mut f, v);
                                f.pc = pc + 4;
                                Ok(())
                            },
                            None => Err(ExceptionKind::VerifyError),
                        }
                    } else if inner == 54 || inner == 58 || inner == 55 {
                        let v = if inner == 55 {
                            pop_l(&mut f)
                        } else {
                            pop_a(&mut f)
                        };
                        match v {
                            Ok(v) => {
                                if f.set_local(i, v) && (inner != 55 || (i < usize::MAX && f.set_local(i + 1, 0))) {
                                    f.pc = pc + 4;
                                    Ok(())
                                } else {
                                    Err(ExceptionKind::VerifyError)
                                }
                            },
                            Err(e) => Err(e),
                        }
                    } else if inner == 132 {
                        match (wide_inc, f.local(i)) {
                            (Some(inc), Some(v)) => {
                                f.set_local(i, (v as i32).wrapping_add(inc) as i64);
                                f.pc = pc + 6;
                                Ok(())
                            },
                            _ => Err(ExceptionKind::VerifyError),
                        }
                    } else {
                        Err(ExceptionKind::UnsupportedOperation)
                    }
                },
                _ => Err(ExceptionKind::VerifyError),
            }
        } else if op == 91 || op == 93 || op == 94 {
            let v1 = f.pop();
            let v2 = f.pop();
            let v3 = f.pop();
            match (v1, v2, v3) {
                (Some(v1), Some(v2), Some(v3)) => {
                    if op == 91 {
                        f.push(v1);
                        f.push(v3);
                        f.push(v2);
                        f.push(v1);
                        f.pc = pc + 1;
                        Ok(())
                    } else if op == 93 {
                        f.push(v2);
                        f.push(v1);
                        f.push(v3);
                        f.push(v2);
                        f.push(v1);
                        f.pc = pc + 1;
                        Ok(())
                    } else {
                        match f.pop() {
                            Some(v4) => {
                                f.push(v2);
                                f.push(v1);
                                f.push(v4);
                                f.push(v3);
                                f.push(v2);
                                f.push(v1);
                                f.pc = pc + 1;
                                Ok(())
                            },
                            None => Err(ExceptionKind::VerifyError),
                        }
                    }
                },
                _ => Err(ExceptionKind::VerifyError),
            }
        } else if op == 46 || op == 50 || op == 51 || op == 52 || op == 53 {
            let i = pop_i(&mut f);
            let a = pop_a(&mut f);
            match (i, a) {
                (Ok(i), Ok(a)) => {
                    if a == 0 {
                        Err(ExceptionKind::NullPointerException)
                    } else if a < 0 || (a - 1) as u64 >= self.heap.len() as u64 {
                        Err(ExceptionKind::VerifyError)
                    } else {
                        match &self.heap[(a - 1) as usize] {
                            HeapObj::Array { arr, .. } => match arr.get(i) {
                                Some(v) => {
                                    f.push(v);
                                    f.pc = pc + 1;
                                    Ok(())
                                },
                                None => Err(ExceptionKind::ArrayIndexOutOfBoundsException),
                            },
                            _ => Err(ExceptionKind::VerifyError),
                        }
                    }
                },
                _ => Err(ExceptionKind::VerifyError),
            }
        } else if op == 79 || op == 83 || op == 84 || op == 85 || op == 86 {
            let v = pop_a(&mut f);
            let i = pop_i(&mut f);
            let a = pop_a(&mut f);
            match (v, i, a) {
                (Ok(v), Ok(i), Ok(a)) => {
                    if a == 0 {
                        Err(ExceptionKind::NullPointerException)
                    } else if a < 0 || (a - 1) as u64 >= self.heap.len() as u64 {
                        Err(ExceptionKind::VerifyError)
                    } else {
                        let ai = (a - 1) as usize;
                        let ok_store = if op == 83 {
                            self.store_check(ai, v)
                        } else {
                            Ok(())
                        };
                        match ok_store {
                            Err(e) => Err(e),
                            Ok(()) => match &mut self.heap[ai] {
                                HeapObj::Array { arr, .. } => {
                                    if arr.set(i, v) {
                                        f.pc = pc + 1;
                                        Ok(())
                                    } else {
                                        Err(ExceptionKind::ArrayIndexOutOfBoundsException)
                                    }
                                },
                                _ => Err(ExceptionKind::VerifyError),
                            },
                        }
                    }
                },
                _ => Err(ExceptionKind::VerifyError),
            }
        } else if op == 87 {
            match f.pop() {
                Some(_) => {
                    f.pc = pc + 1;
                    Ok(())
                },
                None => Err(ExceptionKind::VerifyError),
            }
        } else if op == 88 {
            match pop_l(&mut f) {
                Ok(_) => {
                    f.pc = pc + 1;
                    Ok(())
                },
                Err(e) => Err(e),
            }
        } else if op == 89 {
            match f.pop() {
                Some(v) => {
                    f.push(v);
                    f.push(v);
                    f.pc = pc + 1;
                    Ok(())
                },
                None => Err(ExceptionKind::VerifyError),
            }
        } else if op == 90 || op == 95 {
            let v1 = f.pop();
            let v2 = f.pop();
            match (v1, v2) {
                (Some(v1), Some(v2)) => {
                    if op == 90 {
                        f.push(v1);
                        f.push(v2);
                        f.push(v1);
                    } else {
                        f.push(v1);
                        f.push(v2);
                    }
                    f.pc = pc + 1;
                    Ok(())
                },
                _ => Err(ExceptionKind::VerifyError),
            }
        } else if op == 92 {
            let v1 = f.pop();
            let v2 = f.pop();
            match (v1, v2) {
                (Some(v1), Some(v2)) => {
                    f.push(v2);
                    f.push(v1);
                    f.push(v2);
                    f.push(v1);
                    f.pc = pc + 1;
                    Ok(())
                },
                _ => Err(ExceptionKind::VerifyError),
            }
        } else if op == 96 || op == 100 || op == 104 || op == 108 || op == 112 || op == 120 || op == 122
            || op == 124 || op == 126 || op == 128 || op == 130 {
            match int_binop(&mut f, op) {
                Ok(()) => {
                    f.pc = pc + 1;
                    Ok(())
                },
                Err(e) => Err(e),
            }
        } else if op == 97 || op == 101 || op == 105 || op == 109 || op == 113 || op == 121 || op == 123
            || op == 125 || op == 127 || op == 129 || op == 131 || op == 148 {
            match long_binop(&mut f, op) {
                Ok(()) => {
                    f.pc = pc + 1;
                    Ok(())
                },
                Err(e) => Err(e),
            }
        } else if op == 116 {
            match pop_i(&mut f) {
                Ok(a) => {
                    f.push((0i32).wrapping_sub(a) as i64);
                    f.pc = pc + 1;
                    Ok(())
                },
                Err(e) => Err(e),
            }
        } else if op == 117 {
            match pop_l(&mut f) {
                Ok(a) => {
                    push_l(&mut f, (0i64).wrapping_sub(a));
                    f.pc = pc + 1;
                    Ok(())
                },
                Err(e) => Err(e),
            }
        } else if op == 132 {
            match (b1, b2) {
                (Some(i), Some(d)) => match f.local(i as usize) {
                    Some(v) => {
                        let inc: i32 = if d >= 128 {
                            d as i32 - 256
                        } else {
                            d as i32
                        };
                        f.set_local(i as usize, (v as i32).wrapping_add(inc) as i64);
                        f.pc = pc + 3;
                        Ok(())
                    },
                    None => Err(ExceptionKind::VerifyError),
                },
                _ => Err(ExceptionKind::VerifyError),
            }
        } else if op == 133 {
            match pop_i(&mut f) {
                Ok(a) => {
                    push_l(&mut f, a as i64);
                    f.pc = pc + 1;
                    Ok(())
                },
                Err(e) => Err(e),
            }
        } else if op == 136 {
            match pop_l(&mut f) {
                Ok(a) => {
                    f.push((a as i32) as i64);
                    f.pc = pc + 1;
                    Ok(())
                },
                Err(e) => Err(e),
            }
        } else if op == 145 || op == 146 || op == 147 {
            match pop_i(&mut f) {
                Ok(a) => {
                    let v: i64 = if op == 145 {
                        (a as i8) as i64
                    } else if op == 146 {
                        (a as u16) as i64
                    } else {
                        (a as i16) as i64
                    };
                    f.push(v);
                    f.pc = pc + 1;
                    Ok(())
                },
                Err(e) => Err(e),
            }
        } else if 153 <= op && op <= 166 || op == 198 || op == 199 {
            let (a, b): (Result<i64, ExceptionKind>, Result<i64, ExceptionKind>) = if op <= 158 || op >= 198 {
                (pop_a(&mut f), Ok(0))
            } else {
                let b = pop_a(&mut f);
                let a = pop_a(&mut f);
                (a, b)
            };
            match (a, b, s16) {
                (Ok(a), Ok(b), Some(off)) => {
                    let taken = if op == 165 || op == 198 {
                        a == b
                    } else if op == 166 || op == 199 {
                        a != b
                    } else {
                        int_cond(op, a as i32, b as i32)
                    };
                    if taken {
                        branch(&mut f, pc, off, code_len)
                    } else {
                        f.pc = pc + 3;
                        Ok(())
                    }
                },
                _ => Err(ExceptionKind::VerifyError),
            }
        } else if op == 170 || op == 171 {
            match pop_i(&mut f) {
                Ok(key) => {
                    let off = {
                        let cd = self.registry.class_data(c);
                        if m < cd.methods.len() && cd.methods[m].code.len() == code_len {
                            switch_offset(&cd.methods[m].code, pc, key, op == 170)
                        } else {
                            None
                        }
                    };
                    match off {
                        Some(off) => branch(&mut f, pc, off, code_len),
                        None => Err(ExceptionKind::VerifyError),
                    }
                },
                Err(e) => Err(e),
            }
        } else if op == 167 {
            match s16 {
                Some(off) => branch(&mut f, pc, off, code_len),
                None => Err(ExceptionKind::VerifyError),
            }
        } else if op == 200 {
            match s32 {
                Some(off) => branch(&mut f, pc, off, code_len),
                None => Err(ExceptionKind::VerifyError),
            }
        } else if op == 168 || op == 201 {
            let off = if op == 168 {
                s16
            } else {
                s32
            };
            match off {
                Some(off) => {
                    let ret_at = if op == 168 {
                        pc + 3
                    } else {
                        pc + 5
                    };
                    f.push(ret_at as i64);
                    branch(&mut f, pc, off, code_len)
                },
                None => Err(ExceptionKind::VerifyError),
            }
        } else if op == 169 {
            match b1 {
                Some(i) => match f.local(i as usize) {
                    Some(t) => {
                        if 0 <= t && (t as u64) < code_len as u64 {
                            f.pc = t as usize;
                            Ok(())
                        } else {
                            Err(ExceptionKind::VerifyError)
                        }
                    },
                    None => Err(ExceptionKind::VerifyError),
                },
                None => Err(ExceptionKind::VerifyError),
            }
        } else if op == 172 || op == 176 {
            match pop_a(&mut f) {
                Ok(v) => {
                    let v = if op == 172 {
                        (v as i32) as i64
                    } else {
                        v
                    };
                    return self.do_return(f, Some((v, false)));
                },
                Err(e) => Err(e),
            }
        } else if op == 173 {
            match pop_l(&mut f) {
                Ok(v) => {
                    return self.do_return(f, Some((v, true)));
                },
                Err(e) => Err(e),
            }
        } else if op == 177 {
            return self.do_return(f, None);
        } else if 178 <= op && op <= 181 {
            match u16v {
                Some(idx) => {
                    return self.field_access(f, op, idx, pc + 3);
                },
                None => Err(ExceptionKind::VerifyError),
            }
        } else if 182 <= op && op <= 185 {
            match u16v {
                Some(idx) => {
                    let next = if op == 185 {
                        pc + 5
                    } else {
                        pc + 3
                    };
                    return self.invoke_op(f, op, idx, next);
                },
                None => Err(ExceptionKind::VerifyError),
            }
        } else if op == 187 || op == 189 || op == 192 || op == 193 {
            match u16v {
                Some(idx) => {
                    return self.class_op(f, op, idx, pc + 3);
                },
                None => Err(ExceptionKind::VerifyError),
            }
        } else if op == 197 {
            match (u16v, b3) {
                (Some(idx), Some(dims)) => {
                    return self.multi_new_array(f, idx, dims, pc + 4);
                },
                _ => Err(ExceptionKind::VerifyError),
            }
        } else if op == 188 {
            match (b1, pop_i(&mut f)) {
                (Some(t), Ok(n)) => {
                    if n < 0 {
                        Err(ExceptionKind::NegativeArraySizeException)
                    } else if self.heap.len() >= MAX_OBJECTS {
                        Err(ExceptionKind::OutOfMemoryError)
                    } else {
                        let r = (self.heap.len() as i64) + 1;
                        self.heap.push(HeapObj::Array { cls: c, arr: JArray::new(Component::Prim(t), n as usize) });
                        f.push(r);
                        f.pc = pc + 2;
                        Ok(())
                    }
                },
                _ => Err(ExceptionKind::VerifyError),
            }
        } else if op == 190 {
            match pop_a(&mut f) {
                Ok(a) => {
                    if a == 0 {
                        Err(ExceptionKind::NullPointerException)
                    } else if a < 0 || (a - 1) as u64 >= self.heap.len() as u64 {
                        Err(ExceptionKind::VerifyError)
                    } else {
                        match &self.heap[(a - 1) as usize] {
                            HeapObj::Array { arr, .. } => {
                                let n = arr.length();
                                if n > i32::MAX as usize {
                                    Err(ExceptionKind::VerifyError)
                                } else {
                                    f.push(n as i64);
                                    f.pc = pc + 1;
                                    Ok(())
                                }
                            },
                            _ => Err(ExceptionKind::VerifyError),
                        }
                    }
                },
                Err(e) => Err(e),
            }
        } else if op == 191 {
            match pop_a(&mut f) {
                Ok(a) => {
                    if a == 0 {
                        Err(ExceptionKind::NullPointerException)
                    } else {
                        return self.throw_ref(f, a);
                    }
                },
                Err(e) => Err(e),
            }
        } else if op == 194 || op == 195 {
            match pop_a(&mut f) {
                Ok(a) => {
                    if a == 0 {
                        Err(ExceptionKind::NullPointerException)
                    } else {
                        f.pc = pc + 1;
                        Ok(())
                    }
                },
                Err(e) => Err(e),
            }
        } else {
            Err(ExceptionKind::UnsupportedOperation)
        };
        match res {
            Ok(()) => {
                self.frames.push(f);
                Step::Next
            },
            Err(e) => self.raise(f, e),
        }
    }

    /// The array-store check of `aastore`: a non-null value must be
    /// assignable to the array's element class.
    pub fn store_check(&self, ai: usize, v: i64) -> (r: Result<(), ExceptionKind>)
        requires
            self.wf(),
            ai < self.heap@.len(),
        ensures
            v == 0 ==> r is Ok,
            self.array_store_ok(ai as int, v) ==> r is Ok,
            v != 0 && r is Ok ==> 0 < v <= self.heap@.len() && match self.heap@[ai as int] {
                HeapObj::Array { arr, .. } => match arr.component {
                    Component::Class(ec) => crate::registry::assignable(
                        self.registry.spec_classes(),
                        ec,
                        self.heap@[v - 1].spec_cls(),
                        self.spec_object_class(),
                    ),
                    _ => false,
                },
                _ => false,
            },
            v != 0 && 0 < v <= self.heap@.len() && (match self.heap@[ai as int] {
                HeapObj::Array { arr, .. } => match arr.component {
                    Component::Class(ec) => ec < self.registry@.len() && self.heap@[v - 1].spec_cls() < self.registry@.len()
                        && !crate::registry::assignable(
                        self.registry.spec_classes(),
                        ec,
                        self.heap@[v - 1].spec_cls(),
                        self.spec_object_class(),
                    ),
                    Component::Prim(_) => true,
                },
                _ => false,
            }) ==> r == Err::<(), ExceptionKind>(ExceptionKind::ArrayStoreException),
    {
        if v == 0 {
            return Ok(());
        }
        if v < 0 || (v - 1) as u64 >= self.heap.len() as u64 {
            return Err(ExceptionKind::VerifyError);
        }
        let vc = self.heap[(v - 1) as usize].jclass();
        match &self.heap[ai] {
            HeapObj::Array { arr, .. } => match arr.component {
                Component::Class(ec) => {
                    if ec >= self.registry.len() || vc >= self.registry.len() {
                        Err(ExceptionKind::VerifyError)
                    } else if self.registry.is_assignable_from(ec, vc, self.object_class()) {
                        Ok(())
                    } else {
                        Err(ExceptionKind::ArrayStoreException)
                    }
                },
                Component::Prim(_) => Err(ExceptionKind::ArrayStoreException),
            },
            _ => Err(ExceptionKind::VerifyError),
        }
    }

    /// The root class `java/lang/Object` when defined (else an index no
    /// class has).
    fn object_class(&self) -> (r: usize)
        requires
            self.wf(),
        ensures
            r == self.spec_object_class(),
    {
        let name: Vec<u8> = vec![106u8, 97u8, 118u8, 97u8, 47u8, 108u8, 97u8, 110u8, 103u8, 47u8, 79u8, 98u8, 106u8, 101u8, 99u8, 116u8];
        assert(name@ =~= seq![106u8, 97u8, 118u8, 97u8, 47u8, 108u8, 97u8, 110u8, 103u8, 47u8, 79u8, 98u8, 106u8, 101u8, 99u8, 116u8]);
        match self.registry.find_class(name.as_slice()) {
            Some(c) => c,
            None => usize::MAX,
        }
    }


    /// The method `name`/`desc` of `c` or of its nearest ancestor that
    /// declares it.
    pub fn find_method_up(&self, c: usize, name: usize, desc: usize) -> (r: Option<(usize, usize)>)
        requires
            self.wf(),
            c < self.registry@.len(),
        ensures
            r matches Some((a, k)) ==> a < self.registry@.len() && k < self.registry.spec_classes()[a as int].methods@.len()
                && self.registry.spec_classes()[a as int].methods@[k as int].name == name
                && self.registry.spec_classes()[a as int].methods@[k as int].descriptor == desc
                && crate::registry::subclass_of(self.registry.spec_classes(), c as int, a as int),
            r is None ==> forall|a: int, k: int|
                crate::registry::subclass_of(self.registry.spec_classes(), c as int, a) && 0 <= a < self.registry@.len()
                    && 0 <= k < self.registry.spec_classes()[a].methods@.len() ==> (#[trigger] self.registry.spec_classes()[a].methods@[k]).name
                    != name || self.registry.spec_classes()[a].methods@[k].descriptor != desc,
        decreases c,
    {
        match self.registry.resolve_local_method(c, name, desc) {
            Some(k) => Some((c, k)),
            None => match self.registry.class_data(c).super_class {
                Some(p) => {
                    if p < c {
                        let r = self.find_method_up(p, name, desc);
                        proof {
                            assert forall|a: int, k: int|
                                crate::registry::subclass_of(self.registry.spec_classes(), c as int, a) && 0 <= a < self.registry@.len()
                                    && 0 <= k < self.registry.spec_classes()[a].methods@.len() && r is None implies (#[trigger] self.registry.spec_classes()[a].methods@[k]).name
                                    != name || self.registry.spec_classes()[a].methods@[k].descriptor != desc by {
                                if a != c {
                                    assert(crate::registry::subclass_of(self.registry.spec_classes(), p as int, a));
                                }
                            }
                            self.registry.lemma_len();
                            if r is Some {
                                let a = r.unwrap().0 as int;
                                if a != c {
                                    assert(crate::registry::subclass_of(self.registry.spec_classes(), c as int, a)
                                        == crate::registry::subclass_of(self.registry.spec_classes(), p as int, a));
                                }
                            }
                        }
                        r
                    } else {
                        None
                    }
                },
                None => None,
            },
        }
    }

    /// Resolves the class named by `sym` for frame `f`; when it must be
    /// loaded first, `f` goes back on the stack and the run stops.
    fn resolve_for(&mut self, f: Frame, sym: usize) -> (r: Result<(Frame, usize), Step>)
        requires
            old(self).wf(),
        ensures
            final(self).wf(),
            r matches Ok((_, c)) ==> c < final(self).registry@.len(),
            old(self).registered_symbol(sym) ==> (r matches Ok((g, c)) && g == f && final(self).registry == old(self).registry
                && final(self).symbols == old(self).symbols && final(self).frames == old(self).frames
                && final(self).registry@[c as int] == final(self).symbols@[sym as int]),
    {
        match self.class_of_symbol(sym) {
            Ok(c) => Ok((f, c)),
            Err(Outcome::NeedClass(n)) => {
                if n.len() > 0 && n[0] == 91u8 {
                    match self.define_array_class(n.as_slice()) {
                        DefineOutcome::Defined(c) => {
                            if c < self.registry.len() {
                                return Ok((f, c));
                            }
                            return Err(self.fail(ExceptionKind::VerifyError));
                        },
                        DefineOutcome::NeedClass(m) => {
                            self.frames.push(f);
                            return Err(Step::Done(Outcome::NeedClass(m)));
                        },
                        DefineOutcome::Failed(_) => {
                            return Err(self.fail(ExceptionKind::LinkageError));
                        },
                    }
                }
                self.frames.push(f);
                Err(Step::Done(Outcome::NeedClass(n)))
            },
            Err(_) => Err(self.fail(ExceptionKind::VerifyError)),
        }
    }

    /// Synthesizes and registers the array class `name` (`[` followed by
    /// a field descriptor). Its superclass is `java/lang/Object`; for an
    /// array of references the component class must be defined (else it is
    /// named), for an array of primitives the element width is recorded as
    /// the instance size.
    pub fn define_array_class(&mut self, name: &[u8]) -> (r: DefineOutcome)
        requires
            old(self).wf(),
        ensures
            final(self).wf(),
            final(self).spec_depth() == old(self).spec_depth(),
            !(name@.len() > 0 && name@[0] == 91u8 && crate::descriptor::valid_field_descriptor(name@)) ==> r
                == DefineOutcome::Failed(ClassLoadErr::InvalidFormat),
            r matches DefineOutcome::Defined(c) ==> c < final(self).registry@.len() && final(self).registry@[c as int] == name@,
            r matches DefineOutcome::NeedClass(n) ==> !final(self).registry@.contains(n@),
        decreases name@.len(),
    {
        if name.len() == 0 || name[0] != 91u8 {
            return DefineOutcome::Failed(ClassLoadErr::InvalidFormat);
        }
        let mut whole = crate::descriptor::DescriptorParser::from_bytes(name);
        let t = whole.next();
        if !t.is_field() || whole.offset != name.len() {
            proof {
                crate::descriptor::lemma_token_at(name@, 0);
                if crate::descriptor::valid_field_descriptor(name@) {
                    assert(name@.subrange(0, name@.len() as int) =~= name@);
                }
            }
            return DefineOutcome::Failed(ClassLoadErr::InvalidFormat);
        }
        if let Some(c) = self.registry.find_class(name) {
            return DefineOutcome::Defined(c);
        }
        let mut comp_parser = crate::descriptor::DescriptorParser::from_bytes(name);
        comp_parser.offset = 1;
        let (component, elem_size): (Option<usize>, u16) = match comp_parser.next() {
            crate::descriptor::Descriptor::ResolvedClass(_, w) => {
                if w == 0 || w > 8 {
                    return DefineOutcome::Failed(ClassLoadErr::InvalidFormat);
                }
                (None, w as u16)
            },
            crate::descriptor::Descriptor::Symbol(cn, _) => match self.registry.find_class(cn.as_slice()) {
                Some(cc) => (Some(cc), 8),
                None => {
                    if cn.len() > 0 && cn[0] == 91u8 {
                        proof {
                            crate::descriptor::lemma_field_end_bounds(name@, 1);
                        }
                        match self.define_array_class(cn.as_slice()) {
                            DefineOutcome::Defined(cc) => (Some(cc), 8),
                            other => {
                                return other;
                            },
                        }
                    } else {
                        return DefineOutcome::NeedClass(cn);
                    }
                },
            },
            _ => {
                return DefineOutcome::Failed(ClassLoadErr::InvalidFormat);
            },
        };
        let name_sym = match self.get_symbol(name) {
            Some(s) => s,
            None => {
                return DefineOutcome::Failed(ClassLoadErr::InvalidFormat);
            },
        };
        let object = self.object_class();
        let super_class = if object < self.registry.len() {
            Some(object)
        } else {
            None
        };
        let data = ClassData {
            name: name_sym,
            access_flags: 0x0411,
            super_class,
            interfaces: Vec::new(),
            fields: Vec::new(),
            methods: Vec::new(),
            component_type: component,
            inst_size: elem_size,
            static_size: 0,
            cp: crate::constant_pool::ConstantPool::new(0),
            init_method: None,
        };
        proof {
            self.registry.lemma_names_distinct();
            crate::symbol::lemma_intern_spec(self.registry@, name@);
        }
        match self.define_class(name, data) {
            Ok(c) => DefineOutcome::Defined(c),
            Err(e) => DefineOutcome::Failed(e),
        }
    }

    /// The receiver of a call whose arguments take `n` slots: its heap
    /// index and class.
    fn receiver(&self, f: &Frame, n: usize) -> (r: Result<(usize, usize), ExceptionKind>)
        requires
            self.wf(),
        ensures
            r matches Ok((_, rc)) ==> rc < self.registry@.len(),
    {
        let len = f.stack.len();
        if n >= len {
            return Err(ExceptionKind::VerifyError);
        }
        let v = f.stack[len - 1 - n];
        if v == 0 {
            return Err(ExceptionKind::NullPointerException);
        }
        if v < 0 || (v - 1) as u64 >= self.heap.len() as u64 {
            return Err(ExceptionKind::VerifyError);
        }
        let rc = self.heap[(v - 1) as usize].jclass();
        if rc >= self.registry.len() {
            return Err(ExceptionKind::VerifyError);
        }
        Ok(((v - 1) as usize, rc))
    }

    /// `getstatic`, `putstatic`, `getfield`, `putfield`.
    fn field_access(&mut self, f: Frame, op: u8, idx: u16, next: usize) -> (r: Step)
        requires
            old(self).wf(),
        ensures
            final(self).wf(),
            ({
                let cls = old(self).registry.spec_classes();
                let fr = cls[f.class as int].cp.spec_member_ref(idx as int, crate::constant_pool::TAG_FIELDREF);
                forall|tc: int, a: int|
                    (op == 178 || op == 179) && f.class < old(self).registry@.len() && fr is Some && fr.unwrap().class_name < old(self).symbols@.len()
                        && 0 <= tc < old(self).registry@.len() && old(self).registry@[tc] == old(self).symbols@[fr.unwrap().class_name as int]
                        && (#[trigger] crate::registry::field_lookup(cls, tc, fr.unwrap().member_name)) is Some
                        && crate::registry::field_lookup(cls, tc, fr.unwrap().member_name).unwrap().0 == a
                        && cls[a].fields@[crate::registry::field_lookup(cls, tc, fr.unwrap().member_name).unwrap().1 as int].descriptor
                        < old(self).symbols@.len() && #[trigger] needs_clinit(old(self).registry, a) ==> r is Next && final(self).clinit_started(
                        old(self).frames@.len() as int,
                        f,
                        a,
                    )
            }),
    {
        let c = f.class;
        if c >= self.registry.len() {
            return self.fail(ExceptionKind::VerifyError);
        }
        let fr = match self.registry.class_data(c).cp.get_field_ref(idx) {
            Some(fr) => fr,
            None => {
                return self.fail(ExceptionKind::VerifyError);
            },
        };
        proof {
            self.registry.lemma_names_distinct();
            if exists|t: int| 0 <= t < self.registry@.len() && self.registry@[t] == self.symbols@[fr.class_name as int] {
                let t = choose|t: int| 0 <= t < self.registry@.len() && self.registry@[t] == self.symbols@[fr.class_name as int];
                assert(self.registry@.contains(self.symbols@[fr.class_name as int]));
            }
        }
        let ghost o = *self;
        let (mut f, tc) = match self.resolve_for(f, fr.class_name) {
            Ok(x) => x,
            Err(st) => {
                return st;
            },
        };
        proof {
            if o.registered_symbol(fr.class_name) {
                assert forall|t: int| 0 <= t < o.registry@.len() && o.registry@[t] == o.symbols@[fr.class_name as int] implies t == tc by {
                    if t != tc {
                        assert(o.registry@[t] == o.registry@[tc as int]);
                    }
                }
            }
        }
        let (a, k) = match self.registry.get_field_with_name(tc, fr.member_name) {
            Some(x) => x,
            None => {
                return self.fail(ExceptionKind::NoSuchFieldError);
            },
        };
        let (offset, dsym) = {
            let fd = &self.registry.class_data(a).fields[k];
            (fd.layout_offset as usize, fd.descriptor)
        };
        if dsym >= self.symbols.len() {
            return self.fail(ExceptionKind::VerifyError);
        }
        let wide = is_wide(self.symbols.as_bytes(dsym));
        if op == 178 || op == 179 {
            f = match self.ensure_init(f, a) {
                Ok(f) => f,
                Err(st) => {
                    return st;
                },
            };
            let b = self.static_base[a];
            if offset >= self.statics.len() - b {
                return self.fail(ExceptionKind::VerifyError);
            }
            let slot = b + offset;
            if op == 178 {
                let v = self.statics[slot];
                if wide {
                    push_l(&mut f, v);
                } else {
                    f.push(v);
                }
            } else {
                let v = if wide {
                    pop_l(&mut f)
                } else {
                    pop_a(&mut f)
                };
                match v {
                    Ok(v) => {
                        self.statics.set(slot, v);
                    },
                    Err(e) => {
                        return self.fail(e);
                    },
                }
            }
        } else {
            let val = if op == 181 {
                let v = if wide {
                    pop_l(&mut f)
                } else {
                    pop_a(&mut f)
                };
                match v {
                    Ok(v) => v,
                    Err(e) => {
                        return self.fail(e);
                    },
                }
            } else {
                0
            };
            let obj = match pop_a(&mut f) {
                Ok(o) => o,
                Err(e) => {
                    return self.fail(e);
                },
            };
            if obj == 0 {
                return self.fail(ExceptionKind::NullPointerException);
            }
            if obj < 0 || (obj - 1) as u64 >= self.heap.len() as u64 {
                return self.fail(ExceptionKind::VerifyError);
            }
            let base = self.registry.base(a) as usize;
            if base > usize::MAX - 65536 {
                return self.fail(ExceptionKind::VerifyError);
            }
            let slot = base + offset;
            let oi = (obj - 1) as usize;
            let got: Result<Option<i64>, ExceptionKind> = match &mut self.heap[oi] {
                HeapObj::Instance { fields, .. } => {
                    if slot < fields.len() {
                        if op == 180 {
                            Ok(Some(fields[slot]))
                        } else {
                            fields.set(slot, val);
                            Ok(None)
                        }
                    } else {
                        Err(ExceptionKind::NoSuchFieldError)
                    }
                },
                _ => Err(ExceptionKind::VerifyError),
            };
            match got {
                Ok(Some(v)) => {
                    if wide {
                        push_l(&mut f, v);
                    } else {
                        f.push(v);
                    }
                },
                Ok(None) => {},
                Err(e) => {
                    return self.fail(e);
                },
            }
        }
        f.pc = next;
        self.frames.push(f);
        Step::Next
    }

    /// `invokevirtual`, `invokespecial`, `invokestatic`, `invokeinterface`.
    fn invoke_op(&mut self, f: Frame, op: u8, idx: u16, next: usize) -> (r: Step)
        requires
            old(self).wf(),
        ensures
            final(self).wf(),
            ({
                let mr = old(self).registry.spec_classes()[f.class as int].cp.spec_member_ref(
                    idx as int,
                    crate::constant_pool::TAG_METHODREF,
                );
                (op == 184 && f.class < old(self).registry@.len() && mr is Some && old(self).registered_symbol(mr.unwrap().class_name)
                    && r is Next && final(self).frames@.len() == old(self).frames@.len() + 2
                    && final(self).frames@.last().init_of.is_none()) ==> final(self).static_call_ok(mr.unwrap(), old(self).frames@.len() as int, next)
            }),
            ({
                let mr = old(self).registry.spec_classes()[f.class as int].cp.spec_member_ref(
                    idx as int,
                    crate::constant_pool::TAG_METHODREF,
                );
                forall|tc: int|
                    op == 184 && f.class < old(self).registry@.len() && mr is Some && mr.unwrap().class_name < old(self).symbols@.len()
                        && 0 <= tc < old(self).registry@.len() && old(self).registry@[tc] == old(self).symbols@[mr.unwrap().class_name as int]
                        && #[trigger] needs_clinit(old(self).registry, tc) ==> r is Next && final(self).clinit_started(old(self).frames@.len() as int, f, tc)
            }),
    {
        let c = f.class;
        if c >= self.registry.len() {
            return self.fail(ExceptionKind::VerifyError);
        }
        let mr = {
            let cp = &self.registry.class_data(c).cp;
            if op == 185 {
                cp.get_interface_method_ref(idx)
            } else {
                match cp.get_method_ref(idx) {
                    Some(r) => Some(r),
                    None => cp.get_interface_method_ref(idx),
                }
            }
        };
        let mr = match mr {
            Some(mr) => mr,
            None => {
                return self.fail(ExceptionKind::VerifyError);
            },
        };
        proof {
            self.registry.lemma_names_distinct();
            if exists|t: int| 0 <= t < self.registry@.len() && self.registry@[t] == self.symbols@[mr.class_name as int] {
                let t = choose|t: int| 0 <= t < self.registry@.len() && self.registry@[t] == self.symbols@[mr.class_name as int];
                assert(self.registry@.contains(self.symbols@[mr.class_name as int]));
            }
        }
        let ghost o = *self;
        let (mut f, tc) = match self.resolve_for(f, mr.class_name) {
            Ok(x) => x,
            Err(st) => {
                return st;
            },
        };
        proof {
            if o.registered_symbol(mr.class_name) {
                assert forall|t: int| 0 <= t < o.registry@.len() && o.registry@[t] == o.symbols@[mr.class_name as int] implies t == tc by {
                    if t != tc {
                        assert(o.registry@[t] == o.registry@[tc as int]);
                    }
                }
            }
        }
        if op == 184 || op == 183 {
            if op == 184 {
                f = match self.ensure_init(f, tc) {
                    Ok(f) => f,
                    Err(st) => {
                        return st;
                    },
                };
            }
            match self.find_method_up(tc, mr.member_name, mr.member_desc) {
                Some((a, k)) => {
                    f.pc = next;
                    self.invoke(f, a, k, op == 183)
                },
                None => self.fail(ExceptionKind::NoSuchMethodError),
            }
        } else {
            if self.registry.link(tc).is_err() {
                return self.fail(ExceptionKind::LinkageError);
            }
            let (e, slot) = if op == 182 {
                match self.registry.resolve_class_method(tc, mr.member_name, mr.member_desc) {
                    Ok((e, slot)) => (e, slot),
                    Err(_) => match self.find_method_up(tc, mr.member_name, mr.member_desc) {
                        Some((a, k)) => {
                            f.pc = next;
                            return self.invoke(f, a, k, true);
                        },
                        None => {
                            return self.fail(ExceptionKind::NoSuchMethodError);
                        },
                    },
                }
            } else {
                match self.find_method_up(tc, mr.member_name, mr.member_desc) {
                    Some((a, k)) => (crate::class::VEntry { cls: a, idx: k, name: mr.member_name, desc: mr.member_desc }, 0),
                    None => {
                        return self.fail(ExceptionKind::NoSuchMethodError);
                    },
                }
            };
            if e.cls >= self.registry.len() || e.idx >= self.registry.class_data(e.cls).methods.len() {
                return self.fail(ExceptionKind::VerifyError);
            }
            let n = self.registry.class_data(e.cls).methods[e.idx].arg_slots;
            let rc = match self.receiver(&f, n) {
                Ok((_, rc)) => rc,
                Err(err) => {
                    return self.fail(err);
                },
            };
            if self.registry.link(rc).is_err() {
                return self.fail(ExceptionKind::LinkageError);
            }
            let target = if op == 182 {
                self.registry.resolve_virtual_with_index(rc, mr.member_name, mr.member_desc, slot)
            } else {
                self.registry.resolve_interface_method(rc, tc, mr.member_name, mr.member_desc)
            };
            match target {
                Ok(t) => {
                    f.pc = next;
                    self.invoke(f, t.cls, t.idx, true)
                },
                Err(crate::registry::MethodResolutionError::AbstractMethod) => self.fail(ExceptionKind::AbstractMethodError),
                Err(crate::registry::MethodResolutionError::NoSuchMethod) => self.fail(ExceptionKind::NoSuchMethodError),
                Err(_) => self.fail(ExceptionKind::IncompatibleClassChangeError),
            }
        }
    }

    /// `new`, `anewarray`, `checkcast`, `instanceof`.
    fn class_op(&mut self, f: Frame, op: u8, idx: u16, next: usize) -> (r: Step)
        requires
            old(self).wf(),
        ensures
            final(self).wf(),
            ({
                let sym = old(self).registry.spec_classes()[f.class as int].cp.spec_class_name(idx as int);
                forall|tc: int|
                    op == 187 && f.class < old(self).registry@.len() && sym is Some && sym.unwrap() < old(self).symbols@.len()
                        && 0 <= tc < old(self).registry@.len() && old(self).registry@[tc] == old(self).symbols@[sym.unwrap() as int]
                        && #[trigger] needs_clinit(old(self).registry, tc) ==> r is Next && final(self).clinit_started(old(self).frames@.len() as int, f, tc)
            }),
    {
        let c = f.class;
        if c >= self.registry.len() {
            return self.fail(ExceptionKind::VerifyError);
        }
        let sym = match self.registry.class_data(c).cp.get_class_name(idx) {
            Some(s) => s,
            None => {
                return self.fail(ExceptionKind::VerifyError);
            },
        };
        proof {
            self.registry.lemma_names_distinct();
            if exists|t: int| 0 <= t < self.registry@.len() && self.registry@[t] == self.symbols@[sym as int] {
                let t = choose|t: int| 0 <= t < self.registry@.len() && self.registry@[t] == self.symbols@[sym as int];
                assert(self.registry@.contains(self.symbols@[sym as int]));
            }
        }
        let ghost o = *self;
        let (mut f, tc) = match self.resolve_for(f, sym) {
            Ok(x) => x,
            Err(st) => {
                return st;
            },
        };
        proof {
            if o.registered_symbol(sym) {
                assert forall|t: int| 0 <= t < o.registry@.len() && o.registry@[t] == o.symbols@[sym as int] implies t == tc by {
                    if t != tc {
                        assert(o.registry@[t] == o.registry@[tc as int]);
                    }
                }
            }
        }
        if op == 187 {
            f = match self.ensure_init(f, tc) {
                Ok(f) => f,
                Err(st) => {
                    return st;
                },
            };
            if self.heap.len() >= MAX_OBJECTS {
                return self.fail(ExceptionKind::OutOfMemoryError);
            }
            let bs = self.registry.base(tc) as usize;
            if bs > usize::MAX - 65536 {
                return self.fail(ExceptionKind::VerifyError);
            }
            let n = bs + self.registry.class_data(tc).inst_size as usize;
            let arr = JArray::new(Component::Class(tc), n);
            let r = (self.heap.len() as i64) + 1;
            self.heap.push(HeapObj::Instance { cls: tc, fields: arr.data });
            f.push(r);
        } else if op == 189 {
            let n = match pop_i(&mut f) {
                Ok(n) => n,
                Err(e) => {
                    return self.fail(e);
                },
            };
            if n < 0 {
                return self.fail(ExceptionKind::NegativeArraySizeException);
            }
            if self.heap.len() >= MAX_OBJECTS {
                return self.fail(ExceptionKind::OutOfMemoryError);
            }
            let r = (self.heap.len() as i64) + 1;
            self.heap.push(HeapObj::Array { cls: tc, arr: JArray::new(Component::Class(tc), n as usize) });
            f.push(r);
        } else {
            let v = match pop_a(&mut f) {
                Ok(v) => v,
                Err(e) => {
                    return self.fail(e);
                },
            };
            let ok = if v == 0 {
                op == 192
            } else if v < 0 || (v - 1) as u64 >= self.heap.len() as u64 {
                return self.fail(ExceptionKind::VerifyError);
            } else {
                let vc = self.heap[(v - 1) as usize].jclass();
                vc < self.registry.len() && self.registry.is_assignable_from(tc, vc, self.object_class())
            };
            if op == 192 {
                if !ok {
                    return self.fail(ExceptionKind::ClassCastException);
                }
                f.push(v);
            } else {
                f.push(if ok {
                    1
                } else {
                    0
                });
            }
        }
        f.pc = next;
        self.frames.push(f);
        Step::Next
    }


    /// Defines a parsed class: its superclass and interfaces must be
    /// defined already (else the first missing one is named).
    pub fn define_parsed(&mut self, parsed: crate::parser::ParsedClass) -> (r: DefineOutcome)
        requires
            old(self).wf(),
        ensures
            final(self).wf(),
            final(self).spec_depth() == old(self).spec_depth(),
            final(self).symbols == old(self).symbols,
            r matches DefineOutcome::Defined(c) ==> c < final(self).registry@.len() && parsed.this_name < final(self).symbols@.len()
                && final(self).registry@[c as int] == final(self).symbols@[parsed.this_name as int],
            r matches DefineOutcome::NeedClass(n) ==> !final(self).registry@.contains(n@) && final(self).registry@ == old(self).registry@
                && ((parsed.super_name matches Some(sn) && sn < old(self).symbols@.len() && n@ == old(self).symbols@[sn as int])
                || exists|k: int| 0 <= k < parsed.interfaces@.len() && (#[trigger] parsed.interfaces@[k]) < old(self).symbols@.len()
                    && n@ == old(self).symbols@[parsed.interfaces@[k] as int]),
            (parsed.super_name matches Some(sn) && sn < old(self).symbols@.len() && !old(self).registered_symbol(sn)) ==> (
            r matches DefineOutcome::NeedClass(n) && n@ == old(self).symbols@[parsed.super_name.unwrap() as int]),
            (match parsed.super_name {
                Some(sn) => old(self).registered_symbol(sn),
                None => true,
            } && (forall|k: int| 0 <= k < parsed.interfaces@.len() ==> (#[trigger] parsed.interfaces@[k]) < old(self).symbols@.len())
                && exists|k: int| 0 <= k < parsed.interfaces@.len() && !old(self).registered_symbol(#[trigger] parsed.interfaces@[k]))
                ==> r is NeedClass,
            (match parsed.super_name {
                Some(sn) => old(self).registered_symbol(sn),
                None => true,
            } && (forall|k: int| 0 <= k < parsed.interfaces@.len() ==> old(self).registered_symbol(#[trigger] parsed.interfaces@[k]))
                && parsed.this_name < old(self).symbols@.len() && parsed.cp.wf() && own_sigs_distinct(
                parsed.methods@,
                old(self).registry.spec_ctor(),
            ) && old(self).registry@.len() < MAX_CAPACITY / 16 && old(self).statics@.len() <= usize::MAX - 65536) ==> r is Defined,
    {
        let ghost pm = parsed.methods@;
        let super_class = match parsed.super_name {
            Some(sn) => match self.class_of_symbol(sn) {
                Ok(c) => {
                    assert(self.registry@.contains(self.symbols@[sn as int]));
                    Some(c)
                },
                Err(Outcome::NeedClass(n)) => {
                    return DefineOutcome::NeedClass(n);
                },
                Err(_) => {
                    return DefineOutcome::Failed(ClassLoadErr::InvalidFormat);
                },
            },
            None => None,
        };
        let mut interfaces: Vec<usize> = Vec::new();
        let mut j: usize = 0;
        while j < parsed.interfaces.len()
            invariant
                self.wf(),
                self.frames == old(self).frames,
                self.symbols == old(self).symbols,
                self.registry == old(self).registry,
                0 <= j <= parsed.interfaces@.len(),
                interfaces@.len() == j,
                super_class matches Some(sc) ==> sc < self.registry@.len(),
                match parsed.super_name {
                    Some(sn) => self.registered_symbol(sn),
                    None => true,
                },
                forall|t: int| 0 <= t < j ==> (#[trigger] interfaces@[t]) < self.registry@.len(),
                forall|t: int| 0 <= t < j ==> self.registered_symbol(#[trigger] parsed.interfaces@[t]),
            decreases parsed.interfaces@.len() - j,
        {
            match self.class_of_symbol(parsed.interfaces[j]) {
                Ok(c) => interfaces.push(c),
                Err(Outcome::NeedClass(n)) => {
                    return DefineOutcome::NeedClass(n);
                },
                Err(_) => {
                    return DefineOutcome::Failed(ClassLoadErr::InvalidFormat);
                },
            }
            j = j + 1;
        }
        if parsed.this_name >= self.symbols.len() {
            return DefineOutcome::Failed(ClassLoadErr::InvalidFormat);
        }
        let name = bytes_range(self.symbols.as_bytes(parsed.this_name), 0, self.symbols.as_bytes(parsed.this_name).len());
        assert(name@ =~= self.symbols@[parsed.this_name as int]);
        if let Some(c) = self.registry.find_class(name.as_slice()) {
            return DefineOutcome::Defined(c);
        }
        let id = self.registry.len();
        let mut methods = parsed.methods;
        let mut k: usize = 0;
        while k < methods.len()
            invariant
                0 <= k <= methods@.len(),
                methods@.len() == pm.len(),
                forall|q: int| 0 <= q < pm.len() ==> (#[trigger] methods@[q]).name == pm[q].name
                    && methods@[q].descriptor == pm[q].descriptor && methods@[q].access_flags == pm[q].access_flags,
                forall|q: int| 0 <= q < k ==> (#[trigger] methods@[q]).decl_cls == id,
            decreases methods@.len() - k,
        {
            methods[k].decl_cls = id;
            k = k + 1;
        }
        proof {
            if own_sigs_distinct(pm, self.registry.spec_ctor()) {
                assert forall|i: int, j: int|
                    0 <= i < methods@.len() && 0 <= j < methods@.len() && i != j && is_member(#[trigger] methods@[i], self.registry.spec_ctor())
                        && is_member(#[trigger] methods@[j], self.registry.spec_ctor()) implies methods@[i].name != methods@[j].name
                        || methods@[i].descriptor != methods@[j].descriptor by {
                    assert(is_member(pm[i], self.registry.spec_ctor()));
                    assert(is_member(pm[j], self.registry.spec_ctor()));
                }
            }
        }
        let data = ClassData {
            name: parsed.this_name,
            access_flags: parsed.access_flags,
            super_class,
            interfaces,
            fields: parsed.fields,
            methods,
            component_type: None,
            inst_size: parsed.inst_size,
            static_size: parsed.static_size,
            cp: parsed.cp,
            init_method: parsed.init_method,
        };
        proof {
            self.registry.lemma_names_distinct();
            crate::symbol::lemma_intern_spec(self.registry@, name@);
        }
        match self.define_class(name.as_slice(), data) {
            Ok(c) => DefineOutcome::Defined(c),
            Err(e) => DefineOutcome::Failed(e),
        }
    }

    /// Parses class-file bytes and defines the class.
    pub fn load_class_bytes(&mut self, bytes: Vec<u8>) -> (r: DefineOutcome)
        requires
            old(self).wf(),
        ensures
            final(self).wf(),
            final(self).spec_depth() == old(self).spec_depth(),
            r matches DefineOutcome::Defined(c) ==> c < final(self).registry@.len(),
            r matches DefineOutcome::NeedClass(n) ==> !final(self).registry@.contains(n@),
            !(bytes@.len() >= 8 && crate::reader::be32(bytes@, 0) == crate::parser::CLASS_FILE_MAGIC
                && 45 <= crate::reader::be16(bytes@, 6) <= 57) ==> r is Failed,
    {
        if self.symbols.len() >= MAX_CAPACITY / 16 - 65600 {
            return DefineOutcome::Failed(ClassLoadErr::InvalidFormat);
        }
        let mut p = crate::parser::ClassParser::new(bytes);
        match p.parse_class(&mut self.symbols) {
            Ok(parsed) => self.define_parsed(parsed),
            Err(e) => DefineOutcome::Failed(e),
        }
    }

    /// The static method `name`/`desc` of class `c` (or of an ancestor).
    pub fn get_static_method(&mut self, c: usize, name: &[u8], desc: &[u8]) -> (r: Option<(usize, usize)>)
        requires
            old(self).wf(),
        ensures
            final(self).wf(),
            final(self).spec_depth() == old(self).spec_depth(),
            final(self).registry == old(self).registry,
            r matches Some((a, k)) ==> a < final(self).registry@.len() && k < final(self).registry.spec_classes()[a as int].methods@.len()
                && final(self).symbols@[final(self).registry.spec_classes()[a as int].methods@[k as int].name as int] == name@
                && final(self).symbols@[final(self).registry.spec_classes()[a as int].methods@[k as int].descriptor as int] == desc@,
            forall|a: int, k: int|
                c < old(self).registry@.len() && old(self).symbols@.len() + 2 < MAX_CAPACITY / 16
                    && crate::registry::subclass_of(old(self).registry.spec_classes(), c as int, a) && 0 <= a < old(self).registry@.len()
                    && 0 <= k < old(self).registry.spec_classes()[a].methods@.len()
                    && (#[trigger] old(self).registry.spec_classes()[a].methods@[k]).name < old(self).symbols@.len()
                    && old(self).registry.spec_classes()[a].methods@[k].descriptor < old(self).symbols@.len()
                    && old(self).symbols@[old(self).registry.spec_classes()[a].methods@[k].name as int] == name@
                    && old(self).symbols@[old(self).registry.spec_classes()[a].methods@[k].descriptor as int] == desc@
                    ==> r is Some,
    {
        if c >= self.registry.len() {
            return None;
        }
        let n = match self.get_symbol(name) {
            Some(n) => n,
            None => {
                return None;
            },
        };
        let d = match self.get_symbol(desc) {
            Some(d) => d,
            None => {
                return None;
            },
        };
        let r = self.find_method_up(c, n, d);
        proof {
            self.symbols.lemma_distinct();
            assert forall|a: int, k: int|
                crate::registry::subclass_of(old(self).registry.spec_classes(), c as int, a) && 0 <= a < old(self).registry@.len()
                    && 0 <= k < old(self).registry.spec_classes()[a].methods@.len()
                    && (#[trigger] old(self).registry.spec_classes()[a].methods@[k]).name < old(self).symbols@.len()
                    && old(self).registry.spec_classes()[a].methods@[k].descriptor < old(self).symbols@.len()
                    && old(self).symbols@[old(self).registry.spec_classes()[a].methods@[k].name as int] == name@
                    && old(self).symbols@[old(self).registry.spec_classes()[a].methods@[k].descriptor as int] == desc@
                    implies r is Some by {
                let m = old(self).registry.spec_classes()[a].methods@[k];
                assert(self.symbols@[m.name as int] == name@);
                assert(self.symbols@[m.descriptor as int] == desc@);
                if m.name != n {
                    assert(self.symbols@[n as int] == self.symbols@[m.name as int]);
                }
                if m.descriptor != d {
                    assert(self.symbols@[d as int] == self.symbols@[m.descriptor as int]);
                }
            }
        }
        r
    }


    /// The handler in method `m` of class `c` for an exception of class
    /// `ec` thrown at `pc`: the first exception-table entry whose range
    /// holds `pc` and whose catch type is empty or an ancestor of `ec`.
    pub fn find_handler(&self, c: usize, m: usize, pc: usize, ec: usize) -> (r: Option<usize>)
        requires
            self.wf(),
        ensures
            ({
                let tab = self.registry.spec_classes()[c as int].methods@[m as int].ex_tab@;
                (c < self.registry@.len() && ec < self.registry@.len() && m < self.registry.spec_classes()[c as int].methods@.len()) ==> {
                    &&& r matches Some(h) ==> exists|k: int|
                        0 <= k < tab.len() && #[trigger] self.handler_matches(c as int, tab[k], pc as int, ec as int)
                            && h == tab[k].handler_pc && forall|q: int| 0 <= q < k ==> !(#[trigger] self.handler_matches(c as int, tab[q], pc as int, ec as int))
                    &&& r is None ==> forall|k: int| 0 <= k < tab.len() ==> !(#[trigger] self.handler_matches(c as int, tab[k], pc as int, ec as int))
                }
            }),
    {
        if c >= self.registry.len() || ec >= self.registry.len() {
            return None;
        }
        let cd = self.registry.class_data(c);
        if m >= cd.methods.len() {
            return None;
        }
        let tab = &cd.methods[m].ex_tab;
        let mut k: usize = 0;
        while k < tab.len()
            invariant
                self.wf(),
                ec < self.registry@.len(),
                c < self.registry@.len(),
                m < self.registry.spec_classes()[c as int].methods@.len(),
                *cd == self.registry.spec_classes()[c as int],
                tab@ == self.registry.spec_classes()[c as int].methods@[m as int].ex_tab@,
                cd.cp.wf(),
                0 <= k <= tab@.len(),
                forall|q: int| 0 <= q < k ==> !(#[trigger] self.handler_matches(c as int, tab@[q], pc as int, ec as int)),
            decreases tab@.len() - k,
        {
            let e = tab[k];
            if e.start_pc as usize <= pc && pc < e.end_pc as usize {
                if e.catch_type == 0 {
                    assert(tab@[k as int] == e);
                    assert(self.handler_matches(c as int, tab@[k as int], pc as int, ec as int));
                    return Some(e.handler_pc as usize);
                }
                match cd.cp.get_class_name(e.catch_type) {
                    Some(sym) => {
                        if sym < self.symbols.len() {
                            let found = self.registry.find_class(self.symbols.as_bytes(sym));
                            proof {
                                assert(tab@[k as int] == e);
                                self.registry.lemma_len();
                                if self.registry@.contains(self.symbols@[sym as int]) {
                                    let ix = self.registry@.index_of(self.symbols@[sym as int]);
                                    assert(0 <= ix < self.registry@.len());
                                    assert(found == Some(ix as usize));
                                }
                            }
                            match found {
                                Some(catch_cls) => {
                                    proof {
                                        assert(self.registry@[catch_cls as int] == self.symbols@[sym as int]);
                                        assert(self.registry@.contains(self.symbols@[sym as int]));
                                        self.registry.lemma_len();
                                        let ix = self.registry@.index_of(self.symbols@[sym as int]);
                                        assert(0 <= ix < self.registry@.len());
                                        assert(catch_cls as int == ix);
                                    }
                                    if self.registry.is_subclass_of(ec, catch_cls) {
                                        assert(self.handler_matches(c as int, tab@[k as int], pc as int, ec as int));
                                        return Some(e.handler_pc as usize);
                                    }
                                },
                                None => {},
                            }
                        }
                    },
                    None => {},
                }
            }
            k = k + 1;
        }
        None
    }

    /// Throws object `ex` (a non-null reference) from frame `f`: the
    /// nearest frame with a matching handler continues there with only the
    /// exception on its operand stack; without one the run ends with it.
    fn throw_ref(&mut self, f: Frame, ex: i64) -> (r: Step)
        requires
            old(self).wf(),
        ensures
            final(self).wf(),
            0 < ex <= old(self).heap@.len() ==> (r is Next || r == Step::Done(Outcome::Threw(ExceptionKind::Thrown(ex)))),
            r is Next ==> final(self).frames@.len() > 0 && final(self).frames@.last().stack@ == seq![ex],
    {
        if ex <= 0 || (ex - 1) as u64 >= self.heap.len() as u64 {
            return self.fail(ExceptionKind::VerifyError);
        }
        let ec = self.heap[(ex - 1) as usize].jclass();
        let mut cur = f;
        let mut at = cur.pc;
        loop
            invariant
                self.wf(),
            decreases self.frames@.len(),
        {
            match self.find_handler(cur.class, cur.method, at, ec) {
                Some(h) => {
                    cur.stack = Vec::new();
                    cur.push(ex);
                    assert(cur.stack@ =~= seq![ex]);
                    cur.pc = h;
                    self.frames.push(cur);
                    return Step::Next;
                },
                None => {},
            }
            if cur.is_java_top {
                return self.fail(ExceptionKind::Thrown(ex));
            }
            match self.frames.pop() {
                Some(caller) => {
                    at = if caller.pc > 0 {
                        caller.pc - 1
                    } else {
                        0
                    };
                    cur = caller;
                },
                None => {
                    return self.fail(ExceptionKind::Thrown(ex));
                },
            }
        }
    }


    /// Allocates a `counts.len() - level`-dimensional array: the outer
    /// array has `counts[level]` elements, each (but at the innermost
    /// level) a new array of the next dimension; innermost elements are of
    /// type `inner`.
    fn alloc_multi(&mut self, counts: &Vec<i32>, level: usize, inner: Component) -> (r: Result<i64, ExceptionKind>)
        requires
            old(self).wf(),
            level < counts@.len(),
        ensures
            final(self).wf(),
            final(self).frames == old(self).frames,
        decreases counts@.len() - level,
    {
        let n = counts[level];
        if n < 0 {
            return Err(ExceptionKind::NegativeArraySizeException);
        }
        let len = counts.len();
        let last = len - level == 1;
        let comp = if last {
            inner
        } else {
            Component::Prim(91u8)
        };
        let mut arr = JArray::new(comp, n as usize);
        if !last {
            let mut i: i32 = 0;
            while i < n
                invariant
                    self.wf(),
                    self.frames == old(self).frames,
                    level + 1 < counts@.len(),
                    len == counts@.len(),
                    0 <= i <= n,
                    arr.data@.len() == n,
                decreases n - i,
            {
                let sub = self.alloc_multi(counts, level + 1, inner);
                match sub {
                    Ok(r) => {
                        arr.set(i, r);
                    },
                    Err(e) => {
                        return Err(e);
                    },
                }
                i = i + 1;
            }
        }
        if self.heap.len() >= MAX_OBJECTS {
            return Err(ExceptionKind::OutOfMemoryError);
        }
        let r = (self.heap.len() as i64) + 1;
        let cls = match self.string_class {
            Some(c) => c,
            None => 0,
        };
        self.heap.push(HeapObj::Array { cls, arr });
        Ok(r)
    }

    /// `multianewarray`: pops one length per dimension (the innermost on
    /// top) and allocates the nested arrays.
    fn multi_new_array(&mut self, mut f: Frame, idx: u16, dims: u8, next: usize) -> (r: Step)
        requires
            old(self).wf(),
        ensures
            final(self).wf(),
    {
        let c = f.class;
        if c >= self.registry.len() || dims == 0 {
            return self.fail(ExceptionKind::VerifyError);
        }
        let sym = match self.registry.class_data(c).cp.get_class_name(idx) {
            Some(s) => s,
            None => {
                return self.fail(ExceptionKind::VerifyError);
            },
        };
        if sym >= self.symbols.len() {
            return self.fail(ExceptionKind::VerifyError);
        }
        let name = self.symbols.as_bytes(sym);
        let mut k: usize = 0;
        while k < name.len() && name[k] == 91u8
            invariant
                0 <= k <= name@.len(),
            decreases name@.len() - k,
        {
            k = k + 1;
        }
        if k < dims as usize || k >= name.len() {
            return self.fail(ExceptionKind::VerifyError);
        }
        let elem = name[k];
        let inner = if k > dims as usize {
            Component::Prim(91u8)
        } else if elem == 76u8 {
            if name.len() < k + 2 {
                return self.fail(ExceptionKind::VerifyError);
            }
            let cname = bytes_range(name, k + 1, name.len() - 1);
            match self.registry.find_class(cname.as_slice()) {
                Some(ec) => Component::Class(ec),
                None => {
                    self.frames.push(f);
                    return Step::Done(Outcome::NeedClass(cname));
                },
            }
        } else {
            Component::Prim(elem)
        };
        let mut counts: Vec<i32> = Vec::new();
        let mut d: u8 = 0;
        while d < dims
            invariant
                self.wf(),
                d <= dims,
                counts@.len() == d,
            decreases dims - d,
        {
            counts.push(0);
            d = d + 1;
        }
        let mut left: usize = dims as usize;
        while left > 0
            invariant
                self.wf(),
                left <= counts@.len(),
                counts@.len() == dims,
                dims > 0,
            decreases left,
        {
            match pop_i(&mut f) {
                Ok(n) => counts.set(left - 1, n),
                Err(e) => {
                    return self.fail(e);
                },
            }
            left = left - 1;
        }
        match self.alloc_multi(&counts, 0, inner) {
            Ok(r) => {
                f.push(r);
                f.pc = next;
                self.frames.push(f);
                Step::Next
            },
            Err(e) => self.fail(e),
        }
    }


    /// Stops the run at a call of native method `m` of class `c`: pops its
    /// arguments from `f` (which is already past the call) and hands them
    /// out with the symbol to look up.
    fn native_call(&mut self, mut f: Frame, c: usize, m: usize, with_receiver: bool) -> (r: Step)
        requires
            old(self).wf(),
            c < old(self).registry@.len(),
        ensures
            final(self).wf(),
            r is Done,
            final(self).registry == old(self).registry,
            final(self).symbols == old(self).symbols,
    {
        let cd = self.registry.class_data(c);
        if m >= cd.methods.len() || cd.name >= self.symbols.len() || cd.methods[m].name >= self.symbols.len() {
            return self.fail(ExceptionKind::VerifyError);
        }
        let meth = &cd.methods[m];
        let cname = self.symbols.as_bytes(cd.name);
        let mname = self.symbols.as_bytes(meth.name);
        if cname.len() > 65536 || mname.len() > 65536 {
            return self.fail(ExceptionKind::VerifyError);
        }
        let symbol = ClassData::get_native_fn_name(cname, mname);
        let n = meth.arg_slots;
        if f.stack.len() < n || (with_receiver && f.stack.len() == n) {
            return self.fail(ExceptionKind::VerifyError);
        }
        let ret = &meth.ret_descriptor;
        let wide_result = ret.len() > 0 && (ret[0] == 74u8 || ret[0] == 68u8);
        let void_result = ret.len() > 0 && ret[0] == 86u8;
        let params = &meth.arg_descs;
        let mut vals: Vec<i64> = Vec::new();
        let mut i: usize = params.len();
        while i > 0
            invariant
                self.wf(),
                self.registry == old(self).registry,
                self.symbols == old(self).symbols,
                i <= params@.len(),
            decreases i,
        {
            let wide = match &params[i - 1] {
                crate::descriptor::Descriptor::ResolvedClass(_, 8) => true,
                _ => false,
            };
            let v = if wide {
                pop_l(&mut f)
            } else {
                pop_a(&mut f)
            };
            match v {
                Ok(v) => vals.push(v),
                Err(e) => {
                    return self.fail(e);
                },
            }
            i = i - 1;
        }
        let slots = vals;
        let target: i64 = if with_receiver {
            match f.pop() {
                Some(v) => v,
                None => 0,
            }
        } else if c < 0x7fff_ffff {
            c as i64
        } else {
            return self.fail(ExceptionKind::VerifyError);
        };
        let mut args: Vec<i64> = Vec::new();
        args.push(target);
        let mut k: usize = slots.len();
        while k > 0
            invariant
                self.wf(),
                self.registry == old(self).registry,
                self.symbols == old(self).symbols,
                k <= slots@.len(),
            decreases k,
        {
            args.push(slots[k - 1]);
            k = k - 1;
        }
        self.frames.push(f);
        Step::Done(Outcome::NativeCall { symbol, args, wide_result, void_result })
    }

    /// Resumes after a native call: its result, if any, goes on the
    /// caller's operand stack (two slots when `wide`).
    pub fn native_return(&mut self, result: Option<i64>, wide: bool)
        requires
            old(self).wf(),
        ensures
            final(self).wf(),
            final(self).spec_depth() == old(self).spec_depth(),
    {
        match self.frames.pop() {
            Some(mut f) => {
                match result {
                    Some(v) => {
                        if wide {
                            push_l(&mut f, v);
                        } else {
                            f.push(v);
                        }
                    },
                    None => {},
                }
                self.frames.push(f);
            },
            None => {},
        }
    }


    /// The preloaded classes, as far as they are defined.
    pub fn preloaded_classes(&self) -> (r: PreloadedClasses)
        requires
            self.wf(),
        ensures
            r.jclass matches Some(c) ==> c < self.registry@.len() && self.registry@[c as int] == seq![106u8, 97u8, 118u8, 97u8, 47u8, 108u8, 97u8, 110u8, 103u8, 47u8, 67u8, 108u8, 97u8, 115u8, 115u8],
            r.jobject matches Some(c) ==> c < self.registry@.len(),
            r.jclass_arr matches Some(c) ==> c < self.registry@.len(),
            r.jobject_arr matches Some(c) ==> c < self.registry@.len(),
    {
        let class_name: Vec<u8> = vec![106u8, 97u8, 118u8, 97u8, 47u8, 108u8, 97u8, 110u8, 103u8, 47u8, 67u8, 108u8, 97u8, 115u8, 115u8];
        let object_name: Vec<u8> = vec![106u8, 97u8, 118u8, 97u8, 47u8, 108u8, 97u8, 110u8, 103u8, 47u8, 79u8, 98u8, 106u8, 101u8, 99u8, 116u8];
        let class_arr: Vec<u8> = vec![91u8, 76u8, 106u8, 97u8, 118u8, 97u8, 47u8, 108u8, 97u8, 110u8, 103u8, 47u8, 67u8, 108u8, 97u8, 115u8, 115u8, 59u8];
        let object_arr: Vec<u8> = vec![91u8, 76u8, 106u8, 97u8, 118u8, 97u8, 47u8, 108u8, 97u8, 110u8, 103u8, 47u8, 79u8, 98u8, 106u8, 101u8, 99u8, 116u8, 59u8];
        let r = PreloadedClasses {
            jclass: self.registry.find_class(class_name.as_slice()),
            jobject: self.registry.find_class(object_name.as_slice()),
            jclass_arr: self.registry.find_class(class_arr.as_slice()),
            jobject_arr: self.registry.find_class(object_arr.as_slice()),
        };
        assert(class_name@ =~= seq![106u8, 97u8, 118u8, 97u8, 47u8, 108u8, 97u8, 110u8, 103u8, 47u8, 67u8, 108u8, 97u8, 115u8, 115u8]);
        r
    }


    /// Raises exception `e` in frame `f`: when its class is registered an
    /// instance is thrown through the exception tables (see `throw_ref`);
    /// otherwise the run ends with `e`.
    fn raise(&mut self, f: Frame, e: ExceptionKind) -> (r: Step)
        requires
            old(self).wf(),
        ensures
            final(self).wf(),
            raised(r, e),
            (match exception_class_spec(e) {
                Some(n) => !old(self).registry@.contains(n),
                None => true,
            }) ==> final(self).heap == old(self).heap,
            (match exception_class_spec(e) {
                Some(n) => !old(self).registry@.contains(n),
                None => true,
            }) ==> r == Step::Done(Outcome::Threw(e)),
    {
        let name = match exception_class(e) {
            Some(n) => n,
            None => {
                return self.fail(e);
            },
        };
        let c = match self.registry.find_class(name.as_slice()) {
            Some(c) => c,
            None => {
                return self.fail(e);
            },
        };
        if self.heap.len() >= MAX_OBJECTS {
            return self.fail(e);
        }
        let bs = self.registry.base(c) as usize;
        if bs > usize::MAX - 65536 {
            return self.fail(e);
        }
        let n = bs + self.registry.class_data(c).inst_size as usize;
        let arr = JArray::new(Component::Class(c), n);
        let r = (self.heap.len() as i64) + 1;
        self.heap.push(HeapObj::Instance { cls: c, fields: arr.data });
        self.throw_ref(f, r)
    }


    /// Starts initializing class `c` as a run of its own: `Ok(true)` when
    /// its initializer is now the only frame (run it to completion),
    /// `Ok(false)` when there is nothing to run.
    pub fn start_initialize(&mut self, c: usize) -> (r: Result<bool, VMError>)
        requires
            old(self).wf(),
        ensures
            final(self).wf(),
            c >= old(self).registry@.len() ==> r is Err,
            r == Ok::<bool, VMError>(true) ==> final(self).frames@.len() == 1 && final(self).frames@[0].init_of == Some(c),
    {
        if c >= self.registry.len() {
            return Err(VMError::NoSuchMethod);
        }
        match self.registry.begin_initialize(c) {
            Ok(InitAction::RunClinit(k)) => {
                let cd = self.registry.class_data(c);
                if k >= cd.methods.len() {
                    return Err(VMError::NoSuchMethod);
                }
                let ml = cd.methods[k].max_locals as usize;
                let mut g = Frame::new(c, k, ml, None, true);
                g.init_of = Some(c);
                self.frames = Vec::new();
                self.frames.push(g);
                Ok(true)
            },
            Ok(InitAction::Done) => Ok(false),
            Err(_) => Err(VMError::InitError),
        }
    }

    /// A new array of `n` null references whose elements are of class
    /// `component`; its reference.
    pub fn new_reference_array(&mut self, component: usize, n: usize) -> (r: Option<i64>)
        requires
            old(self).wf(),
        ensures
            final(self).wf(),
            final(self).frames == old(self).frames,
            r matches Some(x) ==> x == old(self).heap@.len() + 1 && final(self).heap@.len() == x,
    {
        if self.heap.len() >= MAX_OBJECTS {
            return None;
        }
        let r = (self.heap.len() as i64) + 1;
        self.heap.push(HeapObj::Array { cls: component, arr: JArray::new(Component::Class(component), n) });
        Some(r)
    }


    /// The class object of class `c`, made on first use; the same
    /// reference every time after.
    pub fn class_mirror(&mut self, c: usize) -> (r: Option<i64>)
        requires
            old(self).wf(),
            c < old(self).registry@.len(),
        ensures
            final(self).wf(),
            final(self).frames == old(self).frames,
            final(self).registry == old(self).registry,
            r matches Some(x) ==> c < final(self).mirrors@.len() && final(self).mirrors@[c as int] == x && x > 0,
            c < old(self).mirrors@.len() && old(self).mirrors@[c as int] > 0 ==> r == Some(old(self).mirrors@[c as int]),
    {
        if c < self.mirrors.len() && self.mirrors[c] > 0 {
            return Some(self.mirrors[c]);
        }
        if self.heap.len() >= MAX_OBJECTS {
            return None;
        }
        while self.mirrors.len() <= c
            invariant
                self.wf(),
                self.frames == old(self).frames,
                self.registry == old(self).registry,
                self.heap == old(self).heap,
                self.heap@.len() < MAX_OBJECTS,
                c < self.registry@.len(),
            decreases c + 1 - self.mirrors@.len(),
        {
            self.mirrors.push(0);
        }
        let name: Vec<u8> = vec![106u8, 97u8, 118u8, 97u8, 47u8, 108u8, 97u8, 110u8, 103u8, 47u8, 67u8, 108u8, 97u8, 115u8, 115u8];
        let cls = match self.registry.find_class(name.as_slice()) {
            Some(k) => k,
            None => c,
        };
        let r = (self.heap.len() as i64) + 1;
        self.heap.push(HeapObj::Instance { cls, fields: Vec::new() });
        self.mirrors.set(c, r);
        Some(r)
    }

    /// `ldc` of a `Class` constant: pushes the class object of the named
    /// class (which may first have to be loaded).
    fn ldc_class(&mut self, f: Frame, idx: u16, next: usize) -> (r: Step)
        requires
            old(self).wf(),
        ensures
            final(self).wf(),
    {
        let c = f.class;
        if c >= self.registry.len() {
            return self.fail(ExceptionKind::VerifyError);
        }
        let sym = match self.registry.class_data(c).cp.get_class_name(idx) {
            Some(s) => s,
            None => {
                return self.fail(ExceptionKind::VerifyError);
            },
        };
        let (mut f, tc) = match self.resolve_for(f, sym) {
            Ok(x) => x,
            Err(st) => {
                return st;
            },
        };
        match self.class_mirror(tc) {
            Some(m) => {
                f.push(m);
                f.pc = next;
                self.frames.push(f);
                Step::Next
            },
            None => self.fail(ExceptionKind::OutOfMemoryError),
        }
    }

    /// The heap reference of an interned string, made on first use.
    fn string_ref(&mut self, units: &[u16]) -> (r: Option<i64>)
        requires
            old(self).wf(),
        ensures
            final(self).wf(),
            final(self).spec_depth() == old(self).spec_depth(),
    {
        if self.strings.len() >= MAX_CAPACITY / 16 || units.len() > usize::MAX / 2 || self.heap.len() >= MAX_OBJECTS {
            return None;
        }
        let before = self.strings.len();
        let id = self.strings.intern(units);
        if id < before {
            return Some(self.string_refs[id]);
        }
        let cls = match self.string_class {
            Some(c) => c,
            None => 0,
        };
        let r = (self.heap.len() as i64) + 1;
        self.heap.push(HeapObj::Str { cls, id });
        self.string_refs.push(r);
        Some(r)
    }
}

} // verus!
