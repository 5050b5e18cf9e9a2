//! Frames of the Redis serialization protocol.

use vstd::prelude::*;
use vstd::utf8::*;
use bytes::Bytes;
use crate::buf::bytes_contents;

verus! {

/// A frame of the protocol.
#[derive(Debug)]
pub enum Frame {
    Simple(String),
    Error(String),
    Integer(u64),
    Bulk(Bytes),
    Null,
    Array(Vec<Frame>),
}

/// The text a frame carries when read as a string: a simple frame's string,
/// or a bulk frame's bytes when they are valid UTF-8.
pub open spec fn frame_text(f: Frame) -> Option<Seq<char>> {
    match f {
        Frame::Simple(s) => Some(s@),
        Frame::Bulk(b) => if valid_utf8(bytes_contents(b)) {
            Some(decode_utf8(bytes_contents(b)))
        } else {
            None
        },
        _ => None,
    }
}

/// `f` is a bulk frame whose bytes are the UTF-8 encoding of `text`.
pub open spec fn is_bulk_text(f: Frame, text: Seq<char>) -> bool {
    &&& f is Bulk
    &&& bytes_contents(f->Bulk_0) == encode_utf8(text)
}

/// A simple frame reads as its whole string, unchanged, whatever its length.
pub proof fn lemma_simple_frame_reads_as_its_string(s: String)
    ensures
        frame_text(Frame::Simple(s)) == Some(s@),
{
}

/// A bulk frame reads as a string exactly when its bytes are valid UTF-8,
/// and then the text read encodes back to exactly those bytes.
pub proof fn lemma_bulk_frame_reads_as_its_bytes(b: Bytes)
    ensures
        frame_text(Frame::Bulk(b)) is Some <==> valid_utf8(bytes_contents(b)),
        frame_text(Frame::Bulk(b)) matches Some(t) ==> encode_utf8(t) == bytes_contents(b),
{
    if valid_utf8(bytes_contents(b)) {
        decode_utf8_encode_utf8(bytes_contents(b));
    }
}

/// The bulk frame of a text's encoding reads back as exactly that text.
pub proof fn lemma_bulk_of_text_reads_back(b: Bytes, t: Seq<char>)
    requires
        bytes_contents(b) == encode_utf8(t),
    ensures
        frame_text(Frame::Bulk(b)) == Some(t),
{
    encode_utf8_valid_utf8(t);
    encode_utf8_decode_utf8(t);
}

/// Error, integer, null and array frames never read as strings.
pub proof fn lemma_other_frames_read_as_nothing(s: String, n: u64, parts: Vec<Frame>)
    ensures
        frame_text(Frame::Error(s)) is None,
        frame_text(Frame::Integer(n)) is None,
        frame_text(Frame::Null) is None,
        frame_text(Frame::Array(parts)) is None,
{
}

impl Frame {
    /// The parts of an array frame.
    pub open spec fn parts(self) -> Seq<Frame>
        recommends
            self is Array,
    {
        self->Array_0@
    }

    /// An empty array frame.
    pub fn array() -> (f: Frame)
        ensures
            f is Array,
            f.parts() == Seq::<Frame>::empty(),
    {
        Frame::Array(Vec::new())
    }

    /// Appends a bulk frame holding `bytes` to an array frame.
    pub fn push_bulk(&mut self, bytes: Bytes)
        requires
            *old(self) is Array,
        ensures
            *final(self) is Array,
            final(self).parts() == old(self).parts().push(Frame::Bulk(bytes)),
    {
        match self {
            Frame::Array(vec) => {
                vec.push(Frame::Bulk(bytes));
            },
            _ => {},
        }
    }
}

} // verus!
