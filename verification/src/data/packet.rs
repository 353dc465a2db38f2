//! A packet: an id and a payload that is written at its end and read in order.

use vstd::prelude::*;
use super::DataError;
use super::buffer::Buffer;
use super::reader::{Reader, Source};
use super::writer::{Sink, Writer};

verus! {

/// What a [`Packet`] is: its id, the bytes of its payload, and how many of
/// them have been read.
pub struct PacketView {
    pub id: u8,
    pub data: Seq<u8>,
    pub pos: nat,
}

/// One packet of the protocol, as built for sending or as taken out of a frame.
#[derive(Debug, Clone)]
pub struct Packet {
    id: u8,
    cursor: Buffer,
}

impl View for Packet {
    type V = PacketView;

    open spec fn view(&self) -> PacketView {
        PacketView { id: self.spec_id(), data: self.buffer()@.data, pos: self.buffer()@.pos }
    }
}

/// The view of a packet with id `id` and no payload.
pub open spec fn empty_packet(id: u8) -> PacketView {
    PacketView { id, data: Seq::empty(), pos: 0 }
}

impl Packet {
    /// The packet's id.
    pub closed spec fn spec_id(&self) -> u8 {
        self.id
    }

    /// The buffer that holds the payload.
    pub closed spec fn buffer(&self) -> Buffer {
        self.cursor
    }

    /// A packet with the id `id` and the payload and read position of `cursor`.
    pub fn new(id: u8, cursor: Buffer) -> (p: Packet)
        ensures
            p.spec_id() == id,
            p.buffer() == cursor,
    {
        Packet { id, cursor }
    }

    /// A packet with the id `id` and no payload.
    pub fn empty(id: u8) -> (p: Packet)
        ensures
            p@ == empty_packet(id),
    {
        Packet { id, cursor: Buffer::new(Vec::new()) }
    }

    /// Hands an empty packet with the id `id` to `builder` and returns what
    /// `builder` made of it, or the fault `builder` reported.
    pub fn build<F>(id: u8, builder: F) -> (r: Result<Packet, DataError>) where
        F: FnOnce(&mut Packet) -> Result<(), DataError>,

        requires
            forall|p: &mut Packet| (*p)@ == empty_packet(id) ==> #[trigger] call_requires(
                builder,
                (p,),
            ),
        ensures
            exists|p: &mut Packet, out: Result<(), DataError>|
                {
                    &&& #[trigger] call_ensures(builder, (p,), out)
                    &&& (*p)@ == empty_packet(id)
                    &&& match out {
                        Ok(_) => r == Ok::<Packet, DataError>(*final(p)),
                        Err(e) => r == Err::<Packet, DataError>(e),
                    }
                },
    {
        let mut packet = Self::empty(id);
        match builder(&mut packet) {
            Ok(()) => Ok(packet),
            Err(e) => Err(e),
        }
    }

    /// The packet's id.
    pub fn id(&self) -> (id: u8)
        ensures
            id == self@.id,
    {
        self.id
    }

    /// Replaces the id and keeps the payload.
    pub fn set_id(&mut self, id: u8)
        ensures
            final(self).spec_id() == id,
            final(self).buffer() == old(self).buffer(),
    {
        self.id = id;
    }

    /// Replaces the payload and its read position and keeps the id.
    pub fn set_cursor(&mut self, cursor: Buffer)
        ensures
            final(self).spec_id() == old(self).spec_id(),
            final(self).buffer() == cursor,
    {
        self.cursor = cursor;
    }

    /// How many bytes of the payload have not been read yet.
    pub fn len(&self) -> (n: usize)
        ensures
            n == self.unread().len(),
            n == self@.data.len() - self@.pos,
    {
        proof {
            self.cursor.lemma_position_within();
        }
        self.cursor.peek().len()
    }

    /// Whether every byte of the payload has been read.
    pub fn is_empty(&self) -> (b: bool)
        ensures
            b == (self.unread().len() == 0),
    {
        self.len() == 0
    }

    /// The whole payload, read or not.
    pub fn get_bytes(&self) -> (s: &[u8])
        ensures
            s@ == self@.data,
    {
        self.cursor.get_ref()
    }

    /// The buffer that holds the payload, to change it in place.
    pub fn get_mut(&mut self) -> (r: &mut Buffer)
        ensures
            *r == old(self).buffer(),
            final(self).buffer() == *final(r),
            final(self).spec_id() == old(self).spec_id(),
    {
        &mut self.cursor
    }

    /// The buffer that holds the payload.
    pub fn get_ref(&self) -> (r: &Buffer)
        ensures
            *r == self.buffer(),
    {
        &self.cursor
    }

    /// Gives up the buffer that holds the payload.
    pub fn into_inner(self) -> (r: Buffer)
        ensures
            r == self.buffer(),
    {
        self.cursor
    }
}

impl From<Packet> for Buffer {
    fn from(val: Packet) -> (r: Buffer)
        ensures
            r == val.buffer(),
    {
        val.into_inner()
    }
}

impl vstd::std_specs::convert::FromSpecImpl<Packet> for Buffer {
    open spec fn obeys_from_spec() -> bool {
        true
    }

    open spec fn from_spec(val: Packet) -> Buffer {
        val.buffer()
    }
}

impl Source for Packet {
    open spec fn unread(&self) -> Seq<u8> {
        self.buffer().unread()
    }

    open spec fn skipped(&self, before: &Self, n: nat) -> bool {
        self.spec_id() == before.spec_id() && self.buffer().skipped(&before.buffer(), n)
    }

    fn peek(&self) -> (s: &[u8]) {
        self.cursor.peek()
    }

    fn advance(&mut self, n: usize) {
        self.cursor.advance(n)
    }
}

impl Reader for Packet {

}

impl Sink for Packet {
    open spec fn written(&self) -> Seq<u8> {
        self.buffer().written()
    }

    open spec fn extended(&self, before: &Self, bytes: Seq<u8>) -> bool {
        self.spec_id() == before.spec_id() && self.buffer().extended(&before.buffer(), bytes)
    }

    fn append(&mut self, bytes: &[u8]) {
        self.cursor.append(bytes)
    }
}

impl Writer for Packet {

}

} // verus!
