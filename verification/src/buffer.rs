//! Fixed-capacity byte and text buffers.
//!
//! The storage is `heapless`; [`ByteBuf`] and [`TextBuf`] hold it behind its unsized view so that one type serves
//! every capacity. What a buffer holds and how much it can hold are named by [`bytes_of`] / [`byte_capacity`] and
//! [`chars_of`] / [`text_capacity`].

use vstd::prelude::*;
use vstd::string::*;
use vstd::utf8::*;

verus! {

/// `heapless::CapacityError`: a fixed-capacity container was asked to hold more than it can.
#[verifier::external_type_specification]
#[verifier::external_body]
pub struct ExCapacityError(heapless::CapacityError);

/// A byte vector whose capacity is fixed when it is made: a `heapless::Vec<u8, N>`.
#[verifier::external_body]
pub struct ByteBuf {
    inner: Box<heapless::VecView<u8>>,
}

/// The bytes that a buffer holds, in order.
pub uninterp spec fn bytes_of(buf: ByteBuf) -> Seq<u8>;

/// The most bytes that a buffer can hold.
pub uninterp spec fn byte_capacity(buf: ByteBuf) -> nat;

/// `heapless::Vec::new`: an empty vector with room for `N` bytes.
#[verifier::external_body]
fn vec_new<const N: usize>() -> (buf: ByteBuf)
    ensures
        bytes_of(buf) == Seq::<u8>::empty(),
        byte_capacity(buf) == N,
{
    ByteBuf { inner: Box::new(heapless::Vec::<u8, N>::new()) }
}

/// `heapless::Vec::as_slice`: everything the vector holds, never more than its capacity.
#[verifier::external_body]
fn vec_as_slice(buf: &ByteBuf) -> (bytes: &[u8])
    ensures
        bytes@ == bytes_of(*buf),
        bytes@.len() <= byte_capacity(*buf),
{
    buf.inner.as_slice()
}

/// `heapless::Vec::clear`: empties the vector and keeps its capacity.
#[verifier::external_body]
fn vec_clear(buf: &mut ByteBuf)
    ensures
        bytes_of(*final(buf)) == Seq::<u8>::empty(),
        byte_capacity(*final(buf)) == byte_capacity(*old(buf)),
{
    buf.inner.clear()
}

/// `heapless::Vec::push`: appends one byte, or hands it back and changes nothing when the vector is full.
#[verifier::external_body]
fn vec_push(buf: &mut ByteBuf, byte: u8) -> (pushed: Result<(), u8>)
    ensures
        byte_capacity(*final(buf)) == byte_capacity(*old(buf)),
        pushed is Ok <==> bytes_of(*old(buf)).len() < byte_capacity(*old(buf)),
        pushed is Ok ==> bytes_of(*final(buf)) == bytes_of(*old(buf)).push(byte),
        pushed matches Err(back) ==> back == byte && bytes_of(*final(buf)) == bytes_of(*old(buf)),
{
    buf.inner.push(byte)
}

/// `heapless::Vec::extend_from_slice`: appends all of `bytes`, or fails and changes nothing when they do not fit.
#[verifier::external_body]
fn vec_extend(buf: &mut ByteBuf, bytes: &[u8]) -> (extended: Result<(), heapless::CapacityError>)
    ensures
        byte_capacity(*final(buf)) == byte_capacity(*old(buf)),
        extended is Ok <==> bytes_of(*old(buf)).len() + bytes@.len() <= byte_capacity(*old(buf)),
        extended is Ok ==> bytes_of(*final(buf)) == bytes_of(*old(buf)) + bytes@,
        extended is Err ==> bytes_of(*final(buf)) == bytes_of(*old(buf)),
{
    buf.inner.extend_from_slice(bytes)
}

impl View for ByteBuf {
    type V = Seq<u8>;

    open spec fn view(&self) -> Seq<u8> {
        bytes_of(*self)
    }
}

impl ByteBuf {
    /// The most bytes this buffer can hold.
    pub open spec fn spec_capacity(&self) -> nat {
        byte_capacity(*self)
    }

    /// An empty buffer with room for `N` bytes.
    pub fn new<const N: usize>() -> (buf: Self)
        ensures
            buf@ == Seq::<u8>::empty(),
            buf.spec_capacity() == N,
    {
        vec_new::<N>()
    }

    /// The bytes held.
    pub fn as_slice(&self) -> (bytes: &[u8])
        ensures
            bytes@ == self@,
            bytes@.len() <= self.spec_capacity(),
    {
        vec_as_slice(self)
    }

    /// How many bytes are held.
    pub fn len(&self) -> (len: usize)
        ensures
            len == self@.len(),
            len <= self.spec_capacity(),
    {
        vec_as_slice(self).len()
    }

    /// Whether nothing is held.
    pub fn is_empty(&self) -> (empty: bool)
        ensures
            empty == (self@.len() == 0),
    {
        vec_as_slice(self).is_empty()
    }

    /// Drops everything held.
    pub fn clear(&mut self)
        ensures
            final(self)@ == Seq::<u8>::empty(),
            final(self).spec_capacity() == old(self).spec_capacity(),
    {
        vec_clear(self)
    }

    /// Appends one byte; a full buffer keeps what it has and hands the byte back.
    pub fn push(&mut self, byte: u8) -> (pushed: Result<(), u8>)
        ensures
            final(self).spec_capacity() == old(self).spec_capacity(),
            pushed is Ok <==> old(self)@.len() < old(self).spec_capacity(),
            pushed is Ok ==> final(self)@ == old(self)@.push(byte),
            pushed matches Err(back) ==> back == byte && final(self)@ == old(self)@,
    {
        vec_push(self, byte)
    }

    /// Appends every byte of `bytes`, or none of them when they do not all fit.
    pub fn extend_from_slice(&mut self, bytes: &[u8]) -> (extended: Result<(), ()>)
        ensures
            final(self).spec_capacity() == old(self).spec_capacity(),
            extended is Ok <==> old(self)@.len() + bytes@.len() <= old(self).spec_capacity(),
            extended is Ok ==> final(self)@ == old(self)@ + bytes@,
            extended is Err ==> final(self)@ == old(self)@,
    {
        match vec_extend(self, bytes) {
            Ok(()) => Ok(()),
            Err(_) => Err(()),
        }
    }
}

/// A string whose capacity in bytes is fixed when it is made: a `heapless::String<N>`.
#[verifier::external_body]
pub struct TextBuf {
    inner: Box<heapless::string::StringView>,
}

/// The characters that a text buffer holds, in order.
pub uninterp spec fn chars_of(buf: TextBuf) -> Seq<char>;

/// The most bytes of UTF-8 that a text buffer can hold.
pub uninterp spec fn text_capacity(buf: TextBuf) -> nat;

/// `heapless::String::new`: an empty string with room for `N` bytes.
#[verifier::external_body]
fn string_new<const N: usize>() -> (buf: TextBuf)
    ensures
        chars_of(buf) == Seq::<char>::empty(),
        text_capacity(buf) == N,
{
    TextBuf { inner: Box::new(heapless::String::<N>::new()) }
}

/// `heapless::String::as_str`: everything the string holds.
#[verifier::external_body]
fn string_as_str(buf: &TextBuf) -> (text: &str)
    ensures
        text@ == chars_of(*buf),
{
    buf.inner.as_str()
}

/// `heapless::String::push_str`: appends all of `text`, or fails and changes nothing when its UTF-8 does not fit.
#[verifier::external_body]
fn string_push_str(buf: &mut TextBuf, text: &str) -> (pushed: Result<(), heapless::CapacityError>)
    ensures
        text_capacity(*final(buf)) == text_capacity(*old(buf)),
        pushed is Ok <==> encode_utf8(chars_of(*old(buf))).len() + encode_utf8(text@).len() <= text_capacity(*old(buf)),
        pushed is Ok ==> chars_of(*final(buf)) == chars_of(*old(buf)) + text@,
        pushed is Err ==> chars_of(*final(buf)) == chars_of(*old(buf)),
{
    buf.inner.push_str(text)
}

impl View for TextBuf {
    type V = Seq<char>;

    open spec fn view(&self) -> Seq<char> {
        chars_of(*self)
    }
}

impl TextBuf {
    /// The most bytes of UTF-8 this buffer can hold.
    pub open spec fn spec_capacity(&self) -> nat {
        text_capacity(*self)
    }

    /// An empty buffer with room for `N` bytes.
    pub fn new<const N: usize>() -> (buf: Self)
        ensures
            buf@ == Seq::<char>::empty(),
            buf.spec_capacity() == N,
    {
        string_new::<N>()
    }

    /// The text held.
    pub fn as_str(&self) -> (text: &str)
        ensures
            text@ == self@,
    {
        string_as_str(self)
    }

    /// Appends all of `text`, or nothing when it does not fit.
    pub fn push_str(&mut self, text: &str) -> (pushed: Result<(), ()>)
        ensures
            final(self).spec_capacity() == old(self).spec_capacity(),
            pushed is Ok <==> encode_utf8(old(self)@).len() + encode_utf8(text@).len() <= old(self).spec_capacity(),
            pushed is Ok ==> final(self)@ == old(self)@ + text@,
            pushed is Err ==> final(self)@ == old(self)@,
    {
        match string_push_str(self, text) {
            Ok(()) => Ok(()),
            Err(_) => Err(()),
        }
    }

    /// How many characters are held.
    pub fn char_len(&self) -> (len: usize)
        ensures
            len == self@.len(),
    {
        string_as_str(self).unicode_len()
    }

    /// Appends ASCII text for which there is room.
    pub fn put(&mut self, text: &str)
        requires
            is_ascii_chars(old(self)@),
            is_ascii_chars(text@),
            old(self)@.len() + text@.len() <= old(self).spec_capacity(),
        ensures
            final(self).spec_capacity() == old(self).spec_capacity(),
            final(self)@ == old(self)@ + text@,
            is_ascii_chars(final(self)@),
    {
        proof {
            is_ascii_chars_encode_utf8(self@);
            is_ascii_chars_encode_utf8(text@);
            is_ascii_chars_concat(self@ + text@, self@, text@);
        }
        let _ = self.push_str(text);
    }
}

} // verus!
