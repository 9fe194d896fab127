//! The byte image of a cache file.
//!
//! Byte `i` of the logical file lives at byte `i` of the image, and a region
//! that was never written reads as zero. The spec functions of this module
//! say what resizing, writing and reading do to the image; [`CacheFile`] is an
//! in-memory image that follows them.

use vstd::prelude::*;

verus! {

/// The image after its length is set to `len`: cut, or extended with zeros.
pub open spec fn resized(content: Seq<u8>, len: nat) -> Seq<u8> {
    Seq::new(len, |i: int| if i < content.len() { content[i] } else { 0u8 })
}

/// The image after `data` is written at `offset`. The image grows as far as
/// the write reaches; a gap between the old end and `offset` is zero. A write
/// of no bytes changes nothing.
pub open spec fn written(content: Seq<u8>, offset: nat, data: Seq<u8>) -> Seq<u8> {
    let end = offset + data.len();
    let len = if data.len() > 0 && content.len() < end { end } else { content.len() };
    Seq::new(
        len,
        |i: int|
            if offset <= i < end {
                data[i - offset]
            } else if i < content.len() {
                content[i]
            } else {
                0u8
            },
    )
}

/// The `len` bytes of the image that start at `offset`.
pub open spec fn read_range(content: Seq<u8>, offset: nat, len: nat) -> Seq<u8> {
    content.subrange(offset as int, (offset + len) as int)
}

/// An in-memory cache file image.
pub struct CacheFile {
    bytes: Vec<u8>,
}

impl View for CacheFile {
    type V = Seq<u8>;

    closed spec fn view(&self) -> Seq<u8> {
        self.bytes@
    }
}

impl CacheFile {
    /// An image of `len` zero bytes.
    pub fn new(len: usize) -> (file: CacheFile)
        ensures
            file@ == resized(Seq::empty(), len as nat),
    {
        let mut bytes: Vec<u8> = Vec::new();
        let mut i: usize = 0;
        while i < len
            invariant
                i <= len,
                bytes@.len() == i,
                forall|j: int| 0 <= j < i ==> bytes@[j] == 0u8,
            decreases len - i,
        {
            bytes.push(0u8);
            i += 1;
        }
        assert(bytes@ =~= resized(Seq::empty(), len as nat));
        CacheFile { bytes }
    }

    /// The length of the image.
    pub fn len(&self) -> (n: usize)
        ensures
            n == self@.len(),
    {
        self.bytes.len()
    }

    /// Sets the length of the image to `len`.
    pub fn set_len(&mut self, len: usize)
        ensures
            final(self)@ == resized(old(self)@, len as nat),
    {
        let ghost before = self.bytes@;
        self.bytes.truncate(len);
        while self.bytes.len() < len
            invariant
                self.bytes@.len() <= len,
                self.bytes@.len() >= if before.len() < len { before.len() } else { len as nat },
                forall|j: int| 0 <= j < self.bytes@.len()
                    ==> self.bytes@[j] == resized(before, len as nat)[j],
            decreases len - self.bytes@.len(),
        {
            self.bytes.push(0u8);
        }
        assert(self.bytes@ =~= resized(before, len as nat));
    }

    /// Writes `data` at `offset`, growing the image where the write goes
    /// beyond its end.
    pub fn write_at(&mut self, offset: usize, data: &[u8])
        requires
            offset + data@.len() <= usize::MAX,
        ensures
            final(self)@ == written(old(self)@, offset as nat, data@),
    {
        let ghost before = self.bytes@;
        let end: usize = offset + data.len();
        if data.len() > 0 && self.bytes.len() < end {
            self.set_len(end);
        }
        let mut i: usize = 0;
        while i < data.len()
            invariant
                i <= data@.len(),
                end == offset + data@.len(),
                self.bytes@.len() == written(before, offset as nat, data@).len(),
                forall|j: int|
                    0 <= j < self.bytes@.len() ==> self.bytes@[j] == (if offset <= j < offset + i {
                        data@[j - offset]
                    } else if j < before.len() {
                        before[j]
                    } else {
                        0u8
                    }),
            decreases data@.len() - i,
        {
            self.bytes.set(offset + i, data[i]);
            i += 1;
        }
        assert(self.bytes@ =~= written(before, offset as nat, data@));
    }

    /// Reads `len` bytes at `offset`.
    pub fn read_at(&self, offset: usize, len: usize) -> (out: Vec<u8>)
        requires
            offset + len <= self@.len(),
        ensures
            out@ == read_range(self@, offset as nat, len as nat),
    {
        let mut out: Vec<u8> = Vec::new();
        let total: usize = self.bytes.len();
        let mut i: usize = 0;
        while i < len
            invariant
                i <= len,
                offset + len <= self.bytes@.len() == total,
                out@.len() == i,
                forall|j: int| 0 <= j < i ==> out@[j] == self.bytes@[offset + j],
            decreases len - i,
        {
            out.push(self.bytes[offset + i]);
            i += 1;
        }
        assert(out@ =~= read_range(self@, offset as nat, len as nat));
        out
    }
}

/// Reading back what was just written gives the written bytes.
pub proof fn lemma_read_after_write(content: Seq<u8>, offset: nat, data: Seq<u8>)
    requires
        data.len() > 0 || offset <= content.len(),
    ensures
        read_range(written(content, offset, data), offset, data.len()) == data,
{
    assert(read_range(written(content, offset, data), offset, data.len()) =~= data);
}

/// Setting the length to the current length changes nothing.
pub proof fn lemma_resize_to_same_len(content: Seq<u8>)
    ensures
        resized(content, content.len()) == content,
{
    assert(resized(content, content.len()) =~= content);
}

} // verus!
