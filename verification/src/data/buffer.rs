//! An in-memory byte buffer: bytes are appended at its end and read in order
//! from a read position that only moves forward.

use vstd::prelude::*;
use vstd::slice::slice_subrange;
use super::reader::{Reader, Source};
use super::writer::{Sink, Writer};

verus! {

/// Appends `bytes` to `out`.
pub fn push_all(out: &mut Vec<u8>, bytes: &[u8])
    ensures
        final(out)@ == old(out)@ + bytes@,
{
    let mut i: usize = 0;
    while i < bytes.len()
        invariant
            i <= bytes@.len(),
            out@ == old(out)@ + bytes@.take(i as int),
        decreases bytes@.len() - i,
    {
        out.push(bytes[i]);
        i = i + 1;
        assert(out@ =~= old(out)@ + bytes@.take(i as int));
    }
    assert(bytes@.take(i as int) =~= bytes@);
}

/// What a [`Buffer`] is: all the bytes it holds, and how many of them have been read.
pub struct BufferView {
    pub data: Seq<u8>,
    pub pos: nat,
}

/// A growable run of bytes with a read position.
#[derive(Debug, Clone)]
pub struct Buffer {
    data: Vec<u8>,
    pos: usize,
}

impl View for Buffer {
    type V = BufferView;

    closed spec fn view(&self) -> BufferView {
        BufferView {
            data: self.data@,
            pos: if self.pos <= self.data@.len() {
                self.pos as nat
            } else {
                self.data@.len()
            },
        }
    }
}

impl Buffer {
    /// The read position never passes the end of the bytes held.
    pub proof fn lemma_position_within(&self)
        ensures
            self@.pos <= self@.data.len(),
    {
    }

    /// A buffer over `data`, with nothing read yet.
    pub fn new(data: Vec<u8>) -> (b: Buffer)
        ensures
            b@ == (BufferView { data: data@, pos: 0 }),
    {
        Buffer { data, pos: 0 }
    }

    /// How many bytes have been read.
    pub fn position(&self) -> (p: usize)
        ensures
            p == self@.pos,
            p <= self@.data.len(),
    {
        if self.pos <= self.data.len() {
            self.pos
        } else {
            self.data.len()
        }
    }

    /// All the bytes held, read or not.
    pub fn get_ref(&self) -> (s: &[u8])
        ensures
            s@ == self@.data,
    {
        self.data.as_slice()
    }

    /// Gives up the bytes held, read or not.
    pub fn into_inner(self) -> (v: Vec<u8>)
        ensures
            v@ == self@.data,
    {
        self.data
    }
}

impl Reader for Buffer {
}

impl Source for Buffer {
    open spec fn unread(&self) -> Seq<u8> {
        self@.data.skip(self@.pos as int)
    }

    open spec fn skipped(&self, before: &Self, n: nat) -> bool {
        self@.data == before@.data && self@.pos == before@.pos + n
    }

    fn peek(&self) -> (s: &[u8]) {
        slice_subrange(self.data.as_slice(), self.position(), self.data.len())
    }

    fn advance(&mut self, n: usize) {
        let start: usize = self.position();
        let len: usize = self.data.len();
        assert(old(self).unread().len() == len - start);
        let count: usize = if n <= len - start {
            n
        } else {
            len - start
        };
        self.pos = start + count;
        assert(self.unread() =~= old(self).unread().skip(count as int));
    }
}

impl Writer for Buffer {
}

impl Sink for Buffer {
    open spec fn written(&self) -> Seq<u8> {
        self@.data
    }

    open spec fn extended(&self, before: &Self, bytes: Seq<u8>) -> bool {
        self@.data == before@.data + bytes && self@.pos == before@.pos
    }

    fn append(&mut self, bytes: &[u8]) {
        self.pos = self.position();
        push_all(&mut self.data, bytes);
    }
}

} // verus!
