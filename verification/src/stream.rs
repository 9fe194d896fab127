//! Sequential reads straight from a download, without a cache slot.
//!
//! A stream serves a file that is not cached. It can only be read from front
//! to back: each read has to start where the last one ended. The chunks of
//! the download arrive in pieces of any size, so a read collects chunks until
//! it has the bytes it was asked for and keeps what is left of the last chunk
//! for the next read.

use vstd::prelude::*;
use bytes::Bytes;
use std::collections::VecDeque;
use crate::chunk::{chunk_as_slice, chunk_bytes, chunk_len, chunk_slice_from};
use crate::error::Error;

verus! {

/// The bytes of a sequence of chunks, one after the other.
pub open spec fn concat_chunks(chunks: Seq<Bytes>) -> Seq<u8>
    decreases chunks.len(),
{
    if chunks.len() == 0 {
        Seq::empty()
    } else {
        chunk_bytes(chunks[0]) + concat_chunks(chunks.drop_first())
    }
}

/// The read side of a download that is served without caching.
#[derive(Debug)]
pub struct StreamState {
    current_pos: u64,
    buffer: Option<Bytes>,
}

/// A read in progress: the bytes collected so far and how many are wanted.
#[derive(Debug)]
pub struct StreamRead {
    buf: Vec<u8>,
    size: usize,
}

impl StreamRead {
    /// The bytes collected so far.
    pub closed spec fn collected(self) -> Seq<u8> {
        self.buf@
    }

    /// How many bytes the read was asked for.
    pub closed spec fn wanted(self) -> nat {
        self.size as nat
    }
}

impl StreamState {
    /// The offset at which the next read has to start.
    pub closed spec fn pos(self) -> u64 {
        self.current_pos
    }

    /// The bytes that an earlier read left over from its last chunk.
    pub closed spec fn pending(self) -> Seq<u8> {
        match self.buffer {
            Some(chunk) => chunk_bytes(chunk),
            None => Seq::empty(),
        }
    }

    /// Whether a left-over chunk is held, be it empty.
    pub closed spec fn has_buffer(self) -> bool {
        self.buffer is Some
    }

    /// A stream at the start of the file.
    pub fn new() -> (state: StreamState)
        ensures
            state.pos() == 0,
            state.pending() == Seq::<u8>::empty(),
            !state.has_buffer(),
    {
        StreamState { current_pos: 0, buffer: None }
    }

    /// The offset at which the next read has to start.
    pub fn current_pos(&self) -> (pos: u64)
        ensures
            pos == self.pos(),
    {
        self.current_pos
    }

    /// Starts a read of `size` bytes at `offset`. It is refused unless
    /// `offset` is the position of the stream.
    pub fn start_read(&self, offset: u64, size: usize) -> (res: Result<StreamRead, Error>)
        ensures
            offset != self.pos() ==> res == Err::<StreamRead, Error>(
                Error::NonsequentialRead { current_pos: self.pos(), try_offset: offset },
            ),
            offset == self.pos() ==> (res matches Ok(read) && read.collected() == Seq::<u8>::empty()
                && read.wanted() == size),
    {
        if offset != self.current_pos {
            return Err(Error::NonsequentialRead { current_pos: self.current_pos, try_offset: offset });
        }
        Ok(StreamRead { buf: Vec::new(), size })
    }

    /// Hands out the chunk that an earlier read left over, if there is one.
    /// A read takes it before it asks the download for more.
    pub fn take_buffered(&mut self) -> (chunk: Option<Bytes>)
        ensures
            final(self).pos() == old(self).pos(),
            !final(self).has_buffer(),
            final(self).pending() == Seq::<u8>::empty(),
            chunk is Some == old(self).has_buffer(),
            chunk matches Some(c) ==> chunk_bytes(c) == old(self).pending(),
    {
        self.buffer.take()
    }

    /// Gives the next chunk to a read in progress. The read takes what it
    /// still wants; if the chunk holds more, the rest is kept for the next
    /// read. The answer is `true` when the read has all its bytes, also when
    /// it wanted none.
    pub fn push_chunk(&mut self, read: &mut StreamRead, chunk: Bytes) -> (full: bool)
        requires
            !old(self).has_buffer(),
            old(read).collected().len() <= old(read).wanted(),
        ensures
            final(self).pos() == old(self).pos(),
            final(read).wanted() == old(read).wanted(),
            final(read).collected().len() <= final(read).wanted(),
            final(read).collected() + final(self).pending() == old(read).collected() + chunk_bytes(
                chunk,
            ),
            full == (final(read).collected().len() == final(read).wanted()),
            final(self).has_buffer() ==> full,
            !full ==> final(self).pending() == Seq::<u8>::empty(),
    {
        let rest: usize = read.size - read.buf.len();
        let len: usize = chunk_len(&chunk);
        let bytes = chunk_as_slice(&chunk);
        let take: usize = if rest < len {
            rest
        } else {
            len
        };
        let ghost before = read.buf@;
        let mut i: usize = 0;
        while i < take
            invariant
                i <= take <= bytes@.len(),
                read.size == old(read).size,
                read.buf@ == before + bytes@.take(i as int),
            decreases take - i,
        {
            read.buf.push(bytes[i]);
            i += 1;
            assert(read.buf@ =~= before + bytes@.take(i as int));
        }
        if rest < len {
            let left = chunk_slice_from(&chunk, rest);
            assert(before + bytes@.take(rest as int) + chunk_bytes(left) =~= before + bytes@);
            self.buffer = Some(left);
            true
        } else {
            assert(bytes@.take(len as int) =~= bytes@);
            assert(read.buf@ + Seq::<u8>::empty() =~= read.buf@);
            read.buf.len() == read.size
        }
    }

    /// Ends a read. The stream moves on by the bytes collected. The read
    /// yields them if it has all that it wanted; if the download ended
    /// before, it fails with `DownloadFailed`.
    pub fn finish_read(&mut self, read: StreamRead) -> (res: Result<Vec<u8>, Error>)
        requires
            read.collected().len() <= read.wanted(),
            old(self).pos() + read.collected().len() <= u64::MAX,
        ensures
            final(self).pos() == old(self).pos() + read.collected().len(),
            final(self).pending() == old(self).pending(),
            final(self).has_buffer() == old(self).has_buffer(),
            read.collected().len() == read.wanted() ==> (res matches Ok(data) && data@
                == read.collected()),
            read.collected().len() != read.wanted() ==> res == Err::<Vec<u8>, Error>(
                Error::DownloadFailed,
            ),
    {
        self.current_pos = self.current_pos + read.buf.len() as u64;
        if read.buf.len() == read.size {
            Ok(read.buf)
        } else {
            Err(Error::DownloadFailed)
        }
    }

    /// Reads `size` bytes at `offset` from a download whose chunks wait in
    /// `incoming`; the download delivers nothing after them.
    ///
    /// The read is refused with `NonsequentialRead`, and nothing changes,
    /// unless `offset` is the position of the stream. Otherwise the bytes
    /// come from what an earlier read left over and then from the chunks, in
    /// order. If they hold `size` bytes, the read returns the first `size` of
    /// them and the rest stays for later reads. If they hold fewer, the read
    /// uses them up and fails with `DownloadFailed`. In both cases the
    /// stream moves on by the bytes taken.
    pub fn read(&mut self, offset: u64, size: usize, incoming: &mut VecDeque<Bytes>) -> (res: Result<
        Vec<u8>,
        Error,
    >)
        requires
            offset == old(self).pos() ==> offset + size <= u64::MAX,
        ensures
            offset != old(self).pos() ==> res == Err::<Vec<u8>, Error>(
                Error::NonsequentialRead { current_pos: old(self).pos(), try_offset: offset },
            ) && *final(self) == *old(self) && final(incoming)@ == old(incoming)@,
            offset == old(self).pos() ==> ({
                let stream = old(self).pending() + concat_chunks(old(incoming)@);
                let left = final(self).pending() + concat_chunks(final(incoming)@);
                if size <= stream.len() {
                    &&& res matches Ok(data) && data@ == stream.take(size as int)
                    &&& final(self).pos() == offset + size
                    &&& left == stream.skip(size as int)
                } else {
                    &&& res == Err::<Vec<u8>, Error>(Error::DownloadFailed)
                    &&& final(self).pos() == offset + stream.len()
                    &&& left == Seq::<u8>::empty()
                }
            }),
    {
        let mut read = match self.start_read(offset, size) {
            Ok(read) => read,
            Err(e) => {
                return Err(e);
            },
        };
        let ghost stream = self.pending() + concat_chunks(incoming@);
        let mut full: bool = false;
        let mut dry: bool = false;
        assert(read.collected() + self.pending() + concat_chunks(incoming@) =~= stream);
        while !full && !dry
            invariant
                self.pos() == offset,
                read.wanted() == size,
                read.collected().len() <= size,
                read.collected() + self.pending() + concat_chunks(incoming@) == stream,
                full ==> read.collected().len() == size,
                dry ==> !full && incoming@.len() == 0 && self.pending() == Seq::<u8>::empty(),
            decreases
                    if full || dry {
                        0
                    } else {
                        1 + incoming@.len() + if self.has_buffer() {
                            1nat
                        } else {
                            0nat
                        }
                    },
        {
            let ghost collected = read.collected();
            let ghost queued = incoming@;
            let chunk = match self.take_buffered() {
                Some(chunk) => Some(chunk),
                None => incoming.pop_front(),
            };
            match chunk {
                Some(chunk) => {
                    assert(collected + chunk_bytes(chunk) + concat_chunks(incoming@) == stream) by {
                        if incoming@ != queued {
                            assert(incoming@ =~= queued.drop_first());
                            assert(collected + Seq::<u8>::empty() + (chunk_bytes(chunk) + concat_chunks(
                                incoming@,
                            )) =~= collected + chunk_bytes(chunk) + concat_chunks(incoming@));
                        }
                    }
                    full = self.push_chunk(&mut read, chunk);
                    assert(read.collected() + self.pending() + concat_chunks(incoming@) =~= (
                    read.collected() + self.pending()) + concat_chunks(incoming@));
                },
                None => {
                    dry = true;
                },
            }
        }
        proof {
            if dry {
                assert(concat_chunks(incoming@) =~= Seq::<u8>::empty());
                assert(read.collected() =~= stream);
            } else {
                assert(stream.take(size as int) =~= read.collected());
                assert(stream.skip(size as int) =~= self.pending() + concat_chunks(incoming@));
            }
        }
        self.finish_read(read)
    }
}

} // verus!
