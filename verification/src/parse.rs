//! A cursor over the parts of an array frame, read one by one.

use vstd::prelude::*;
use vstd::utf8::*;
use crate::buf::{bytes_as_slice, str_from_utf8};
use crate::frame::{frame_text, Frame};

verus! {

/// Why reading from a `Parse` failed.
#[derive(Debug, PartialEq, Eq, Structural)]
pub enum ParseError {
    /// No part is left.
    EndOfStream,
    /// The frame given to `Parse::new` is not an array.
    ExpectedArray,
    /// A bulk part does not hold valid UTF-8.
    InvalidString,
    /// A part read as a string is neither a simple nor a bulk frame.
    ExpectedString,
}

/// The parts of an array frame that are still to be read.
pub struct Parse {
    /// The parts still to be read, the next one last.
    rest: Vec<Frame>,
}

/// `stack` read from its end to its start.
spec fn reversed(stack: Seq<Frame>) -> Seq<Frame> {
    Seq::new(stack.len(), |i: int| stack[stack.len() - 1 - i])
}

/// What reading `f` as a string gives.
pub open spec fn read_text(f: Frame) -> Result<Seq<char>, ParseError> {
    match frame_text(f) {
        Some(t) => Ok(t),
        None => if f is Bulk {
            Err(ParseError::InvalidString)
        } else {
            Err(ParseError::ExpectedString)
        },
    }
}

/// A string result taken by its text.
pub open spec fn text_result(r: Result<String, ParseError>) -> Result<Seq<char>, ParseError> {
    match r {
        Ok(s) => Ok(s@),
        Err(e) => Err(e),
    }
}

/// Reading a simple frame as a string gives its whole string; reading a
/// frame that is neither simple nor bulk gives `ExpectedString`; reading a
/// bulk frame gives its bytes decoded when they are valid UTF-8, and
/// `InvalidString` when they are not.
pub proof fn lemma_read_text_by_kind(f: Frame)
    ensures
        f matches Frame::Simple(s) ==> read_text(f) == Ok::<Seq<char>, ParseError>(s@),
        !(f is Simple) && !(f is Bulk) ==> read_text(f) == Err::<Seq<char>, ParseError>(
            ParseError::ExpectedString,
        ),
        f matches Frame::Bulk(b) ==> (read_text(f) is Ok <==> valid_utf8(
            crate::buf::bytes_contents(b),
        )),
        f matches Frame::Bulk(b) ==> (read_text(f) is Err ==> read_text(f) == Err::<
            Seq<char>,
            ParseError,
        >(ParseError::InvalidString)),
        f matches Frame::Bulk(b) ==> (read_text(f) matches Ok(t) ==> encode_utf8(t)
            == crate::buf::bytes_contents(b)),
{
    if f is Bulk {
        crate::frame::lemma_bulk_frame_reads_as_its_bytes(f->Bulk_0);
    }
}

impl View for Parse {
    type V = Seq<Frame>;

    /// The parts still to be read, the next one first.
    closed spec fn view(&self) -> Seq<Frame> {
        reversed(self.rest@)
    }
}

impl Parse {
    /// Starts reading the parts of `frame`, which must be an array.
    pub fn new(frame: Frame) -> (r: Result<Parse, ParseError>)
        ensures
            frame is Array <==> r is Ok,
            r matches Ok(p) ==> p@ == frame.parts(),
            r matches Err(e) ==> e == ParseError::ExpectedArray,
    {
        let mut parts = match frame {
            Frame::Array(array) => array,
            _ => return Err(ParseError::ExpectedArray),
        };
        let ghost all = parts@;
        let mut rest: Vec<Frame> = Vec::new();
        while parts.len() > 0
            invariant
                parts@.len() + rest@.len() == all.len(),
                parts@ == all.subrange(0, parts@.len() as int),
                forall|j: int| 0 <= j < rest@.len() ==> rest@[j] == all[all.len() - 1 - j],
            decreases parts@.len(),
        {
            let f = parts.pop().unwrap();
            rest.push(f);
        }
        let p = Parse { rest };
        assert(p@ =~= all);
        Ok(p)
    }

    /// Takes the next part.
    pub fn next(&mut self) -> (r: Result<Frame, ParseError>)
        ensures
            old(self)@.len() == 0 ==> r == Err::<Frame, ParseError>(ParseError::EndOfStream)
                && final(self)@ == old(self)@,
            old(self)@.len() > 0 ==> r == Ok::<Frame, ParseError>(old(self)@[0])
                && final(self)@ == old(self)@.drop_first(),
    {
        match self.rest.pop() {
            Some(f) => {
                assert(self@ =~= old(self)@.drop_first());
                Ok(f)
            },
            None => Err(ParseError::EndOfStream),
        }
    }

    /// Takes the next part and reads it as a string: a simple frame gives its
    /// string, a bulk frame its bytes decoded as UTF-8. The part is taken
    /// whether or not it can be read so.
    pub fn next_string(&mut self) -> (r: Result<String, ParseError>)
        ensures
            old(self)@.len() == 0 ==> text_result(r) == Err::<Seq<char>, ParseError>(
                ParseError::EndOfStream,
            ) && final(self)@ == old(self)@,
            old(self)@.len() > 0 ==> text_result(r) == read_text(old(self)@[0]) && final(self)@
                == old(self)@.drop_first(),
            old(self)@.len() > 0 && old(self)@[0] is Simple ==> r == Ok::<String, ParseError>(
                old(self)@[0]->Simple_0,
            ),
    {
        let frame = self.next()?;
        match frame {
            Frame::Simple(s) => Ok(s),
            Frame::Bulk(data) => {
                match str_from_utf8(bytes_as_slice(&data)) {
                    Some(s) => {
                        proof {
                            encode_utf8_decode_utf8(s@);
                        }
                        Ok(s.to_owned())
                    },
                    None => Err(ParseError::InvalidString),
                }
            },
            _ => Err(ParseError::ExpectedString),
        }
    }
}

} // verus!
