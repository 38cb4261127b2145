//! Readers over the bytes of a class file: big-endian reads that fail,
//! rather than panic, past the end.
use vstd::prelude::*;
use crate::registry::ClassLoadErr;

verus! {

/// The big-endian 16-bit value at `i`.
pub open spec fn be16(s: Seq<u8>, i: int) -> int {
    s[i] * 256 + s[i + 1]
}

/// The big-endian 32-bit value at `i`.
pub open spec fn be32(s: Seq<u8>, i: int) -> int {
    s[i] * 16777216 + s[i + 1] * 65536 + s[i + 2] * 256 + s[i + 3]
}

/// What every class reader offers: its bytes and where it stands.
pub trait ClassReader {
    fn offset(&self) -> usize;

    fn class_bytes(&self) -> &[u8];
}

/// A reader that owns the class bytes.
pub struct OwnedBytesClassReader {
    pub class_bytes: Vec<u8>,
    pub offset: usize,
}

/// A reader over borrowed class bytes.
pub struct ExternalBytesClassReader<'a> {
    pub class_bytes: &'a [u8],
    pub offset: usize,
}

impl<'a> ExternalBytesClassReader<'a> {
    pub fn new(class_bytes: &'a [u8]) -> (r: Self)
        ensures
            r.class_bytes@ == class_bytes@,
            r.offset == 0,
    {
        ExternalBytesClassReader { class_bytes, offset: 0 }
    }

    /// An owning reader over a copy of the bytes, at the same offset.
    pub fn to_owned(&self) -> (r: OwnedBytesClassReader)
        ensures
            r.class_bytes@ == self.class_bytes@,
            r.offset == self.offset,
    {
        let b = crate::util::bytes_range(self.class_bytes, 0, self.class_bytes.len());
        assert(b@ =~= self.class_bytes@);
        OwnedBytesClassReader { class_bytes: b, offset: self.offset }
    }
}

impl<'a> ClassReader for ExternalBytesClassReader<'a> {
    fn offset(&self) -> usize {
        self.offset
    }

    fn class_bytes(&self) -> &[u8] {
        self.class_bytes
    }
}

impl ClassReader for OwnedBytesClassReader {
    fn offset(&self) -> usize {
        self.offset
    }

    fn class_bytes(&self) -> &[u8] {
        self.class_bytes.as_slice()
    }
}

impl OwnedBytesClassReader {
    pub open spec fn wf(&self) -> bool {
        self.offset <= self.class_bytes@.len()
    }

    pub open spec fn spec_available(&self) -> int {
        self.class_bytes@.len() - self.offset
    }

    pub fn new(class_bytes: Vec<u8>) -> (r: Self)
        ensures
            r.wf(),
            r.class_bytes == class_bytes,
            r.offset == 0,
    {
        OwnedBytesClassReader { class_bytes, offset: 0 }
    }

    /// Bytes left to read.
    pub fn available(&self) -> (r: usize)
        requires
            self.wf(),
        ensures
            r == self.spec_available(),
    {
        self.class_bytes.len() - self.offset
    }

    pub fn readable_length(&self) -> (r: usize)
        ensures
            r == self.class_bytes@.len(),
    {
        self.class_bytes.len()
    }

    /// Moves `size` bytes on; fails (and stays) past the end.
    pub fn skip(&mut self, size: usize) -> (r: Result<(), ClassLoadErr>)
        requires
            old(self).wf(),
        ensures
            final(self).wf(),
            final(self).class_bytes == old(self).class_bytes,
            r is Ok <==> size <= old(self).spec_available(),
            r is Ok ==> final(self).offset == old(self).offset + size,
            r is Err ==> final(self).offset == old(self).offset && r == Err::<(), ClassLoadErr>(ClassLoadErr::Truncated),
    {
        if size > self.class_bytes.len() - self.offset {
            return Err(ClassLoadErr::Truncated);
        }
        self.offset = self.offset + size;
        Ok(())
    }

    pub fn read_ubyte1(&mut self) -> (r: Result<u8, ClassLoadErr>)
        requires
            old(self).wf(),
        ensures
            final(self).wf(),
            final(self).class_bytes == old(self).class_bytes,
            r is Ok <==> 1 <= old(self).spec_available(),
            r matches Ok(v) ==> v == old(self).class_bytes@[old(self).offset as int] && final(self).offset == old(self).offset + 1,
            r is Err ==> final(self).offset == old(self).offset && r == Err::<u8, ClassLoadErr>(ClassLoadErr::Truncated),
    {
        if self.offset >= self.class_bytes.len() {
            return Err(ClassLoadErr::Truncated);
        }
        let v = self.class_bytes[self.offset];
        self.offset = self.offset + 1;
        Ok(v)
    }

    pub fn read_ubyte2(&mut self) -> (r: Result<u16, ClassLoadErr>)
        requires
            old(self).wf(),
        ensures
            final(self).wf(),
            final(self).class_bytes == old(self).class_bytes,
            r is Ok <==> 2 <= old(self).spec_available(),
            r matches Ok(v) ==> v == be16(old(self).class_bytes@, old(self).offset as int) && final(self).offset == old(self).offset + 2,
            r is Err ==> final(self).offset == old(self).offset && r == Err::<u16, ClassLoadErr>(ClassLoadErr::Truncated),
    {
        if self.class_bytes.len() - self.offset < 2 {
            return Err(ClassLoadErr::Truncated);
        }
        let o = self.offset;
        let v = (self.class_bytes[o] as u16) * 256 + self.class_bytes[o + 1] as u16;
        self.offset = o + 2;
        Ok(v)
    }

    pub fn read_ubyte4(&mut self) -> (r: Result<u32, ClassLoadErr>)
        requires
            old(self).wf(),
        ensures
            final(self).wf(),
            final(self).class_bytes == old(self).class_bytes,
            r is Ok <==> 4 <= old(self).spec_available(),
            r matches Ok(v) ==> v == be32(old(self).class_bytes@, old(self).offset as int) && final(self).offset == old(self).offset + 4,
            r is Err ==> final(self).offset == old(self).offset && r == Err::<u32, ClassLoadErr>(ClassLoadErr::Truncated),
    {
        if self.class_bytes.len() - self.offset < 4 {
            return Err(ClassLoadErr::Truncated);
        }
        let o = self.offset;
        let v = (self.class_bytes[o] as u32) * 16777216 + (self.class_bytes[o + 1] as u32) * 65536
            + (self.class_bytes[o + 2] as u32) * 256 + self.class_bytes[o + 3] as u32;
        self.offset = o + 4;
        Ok(v)
    }

    /// A copy of the next `n` bytes, without moving on.
    pub fn peek_nbytes(&self, n: usize) -> (r: Result<Vec<u8>, ClassLoadErr>)
        requires
            self.wf(),
        ensures
            r is Ok <==> n <= self.spec_available(),
            r matches Ok(v) ==> v@ == self.class_bytes@.subrange(self.offset as int, self.offset + n),
            r is Err ==> r == Err::<Vec<u8>, ClassLoadErr>(ClassLoadErr::Truncated),
    {
        if n > self.class_bytes.len() - self.offset {
            return Err(ClassLoadErr::Truncated);
        }
        Ok(crate::util::bytes_range(self.class_bytes.as_slice(), self.offset, self.offset + n))
    }
}

} // verus!
