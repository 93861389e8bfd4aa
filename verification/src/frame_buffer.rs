//! The bounded buffer that a framer fills. The store is a `heapless::Vec` of
//! sixteen bytes, reached through four calls whose contracts are taken on
//! trust; everything else is proved from them.

use vstd::prelude::*;

verus! {

/// The most bytes that a frame buffer holds, the closing zero included.
pub const FRAME_CAPACITY: usize = 16;

/// `heapless::Vec`, a vector in a store of fixed size. Nothing is known of a
/// value of it but what the calls below say.
#[verifier::external_type_specification]
#[verifier::external_body]
#[verifier::reject_recursive_types(T)]
pub struct ExFixedVec<T, const N: usize>(heapless::Vec<T, N>);

/// The bytes that a buffer holds, oldest first.
pub uninterp spec fn held(buf: heapless::Vec<u8, FRAME_CAPACITY>) -> Seq<u8>;

/// `heapless::Vec::new`. Trusted: the new buffer holds nothing.
#[verifier::external_body]
fn buffer_new() -> (buf: heapless::Vec<u8, FRAME_CAPACITY>)
    ensures
        held(buf) == Seq::<u8>::empty(),
{
    heapless::Vec::new()
}

/// `heapless::Vec::push`. Trusted: where fewer than sixteen bytes are held the
/// byte is appended and the call says `true`; a full buffer is left as it was
/// and the call says `false`.
#[verifier::external_body]
fn buffer_push(buf: &mut heapless::Vec<u8, FRAME_CAPACITY>, byte: u8) -> (stored: bool)
    ensures
        stored == (held(*old(buf)).len() < FRAME_CAPACITY),
        stored ==> held(*final(buf)) == held(*old(buf)).push(byte),
        !stored ==> held(*final(buf)) == held(*old(buf)),
{
    buf.push(byte).is_ok()
}

/// `heapless::Vec::clear`. Trusted: afterwards the buffer holds nothing.
#[verifier::external_body]
fn buffer_clear(buf: &mut heapless::Vec<u8, FRAME_CAPACITY>)
    ensures
        held(*final(buf)) == Seq::<u8>::empty(),
{
    buf.clear()
}

/// `heapless::Vec::as_slice`. Trusted: the slice is what the buffer holds.
#[verifier::external_body]
fn buffer_bytes(buf: &heapless::Vec<u8, FRAME_CAPACITY>) -> (bytes: &[u8])
    ensures
        bytes@ == held(*buf),
{
    buf.as_slice()
}

/// The bytes of the frame that is being received, in a store of fixed size.
pub struct FrameBuffer {
    store: heapless::Vec<u8, FRAME_CAPACITY>,
}

impl FrameBuffer {
    /// The bytes in the buffer, oldest first.
    pub closed spec fn view(&self) -> Seq<u8> {
        held(self.store)
    }

    /// A buffer that holds nothing.
    pub fn new() -> (r: FrameBuffer)
        ensures
            r@ == Seq::<u8>::empty(),
    {
        FrameBuffer { store: buffer_new() }
    }

    /// Appends a byte where there is room, and says whether there was.
    pub fn push(&mut self, byte: u8) -> (stored: bool)
        ensures
            stored == (old(self)@.len() < FRAME_CAPACITY),
            final(self)@ == if stored {
                old(self)@.push(byte)
            } else {
                old(self)@
            },
    {
        buffer_push(&mut self.store, byte)
    }

    /// Drops every byte.
    pub fn clear(&mut self)
        ensures
            final(self)@ == Seq::<u8>::empty(),
    {
        buffer_clear(&mut self.store)
    }

    /// The bytes in the buffer.
    pub fn as_slice(&self) -> (bytes: &[u8])
        ensures
            bytes@ == self@,
    {
        buffer_bytes(&self.store)
    }

    /// How many bytes are in the buffer: the place of the next write.
    pub fn len(&self) -> (n: usize)
        ensures
            n == self@.len(),
    {
        buffer_bytes(&self.store).len()
    }

    /// Whether the buffer holds nothing.
    pub fn is_empty(&self) -> (r: bool)
        ensures
            r == (self@.len() == 0),
    {
        buffer_bytes(&self.store).len() == 0
    }
}

} // verus!
