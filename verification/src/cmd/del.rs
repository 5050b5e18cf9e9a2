//! The `DEL` command: removes the given keys.

use vstd::prelude::*;
use vstd::utf8::*;
use crate::buf::{bytes_contents, bytes_from_static, bytes_from_string};
use crate::frame::{frame_text, is_bulk_text, Frame};
use crate::parse::{read_text, Parse, ParseError};

verus! {

/// Removes one or more keys; the reply counts the keys that were removed.
#[derive(Debug)]
pub struct Del {
    keys: Vec<String>,
}

/// The name under which the command travels: `del`.
pub open spec fn command_name() -> Seq<char> {
    seq!['d', 'e', 'l']
}

/// The texts of the leading parts of `parts` that read as strings, up to the
/// first part that does not.
pub open spec fn leading_texts(parts: Seq<Frame>) -> Seq<Seq<char>>
    decreases parts.len(),
{
    if parts.len() == 0 {
        Seq::empty()
    } else {
        match frame_text(parts[0]) {
            Some(t) => seq![t] + leading_texts(parts.drop_first()),
            None => Seq::empty(),
        }
    }
}

/// How many parts reading keys takes from `parts`: the leading parts that
/// read as strings and, when one follows them, the part that does not.
pub open spec fn parts_taken(parts: Seq<Frame>) -> nat {
    let n = leading_texts(parts).len();
    if n < parts.len() {
        n + 1
    } else {
        n
    }
}

/// `f` is the frame that sends `DEL` for `keys`: an array of bulk frames
/// holding the command name and then each key, UTF-8 encoded.
pub open spec fn is_del_frame(keys: Seq<Seq<char>>, f: Frame) -> bool {
    &&& f is Array
    &&& f.parts().len() == keys.len() + 1
    &&& is_bulk_text(f.parts()[0], command_name())
    &&& forall|i: int| 0 <= i < keys.len() ==> is_bulk_text(#[trigger] f.parts()[i + 1], keys[i])
}

/// Strings taken by their texts.
pub open spec fn texts(keys: Seq<String>) -> Seq<Seq<char>> {
    keys.map_values(|k: String| k@)
}

impl View for Del {
    type V = Seq<Seq<char>>;

    /// The keys to remove, in order.
    closed spec fn view(&self) -> Seq<Seq<char>> {
        texts(self.keys@)
    }
}

/// At most all parts lead with strings, and the part after the leading
/// strings, when there is one, does not read as a string.
pub proof fn lemma_leading_texts_stop(parts: Seq<Frame>)
    ensures
        leading_texts(parts).len() <= parts.len(),
        leading_texts(parts).len() < parts.len() ==> frame_text(
            parts[leading_texts(parts).len() as int],
        ) is None,
        forall|i: int|
            0 <= i < leading_texts(parts).len() ==> frame_text(parts[i]) == Some(
                #[trigger] leading_texts(parts)[i],
            ),
    decreases parts.len(),
{
    if parts.len() > 0 {
        lemma_leading_texts_stop(parts.drop_first());
        if frame_text(parts[0]) is Some {
            let rest = parts.drop_first();
            assert forall|i: int| 0 <= i < leading_texts(parts).len() implies frame_text(parts[i])
                == Some(#[trigger] leading_texts(parts)[i]) by {
                if i > 0 {
                    assert(parts[i] == rest[i - 1]);
                }
            }
        }
    }
}

/// `texts` takes each string to its own text, one for one, in order.
pub proof fn lemma_texts_are_the_strings(keys: Seq<String>)
    ensures
        texts(keys).len() == keys.len(),
        forall|i: int| 0 <= i < keys.len() ==> #[trigger] texts(keys)[i] == keys[i]@,
{
}

/// The command name is sent as the three bytes `d`, `e`, `l`.
pub proof fn lemma_command_name_bytes()
    ensures
        encode_utf8(command_name()) == seq![100u8, 101u8, 108u8],
{
    assert(is_ascii_chars(command_name()));
    is_ascii_chars_encode_utf8(command_name());
    assert(encode_utf8(command_name()) =~= seq![100u8, 101u8, 108u8]);
}

/// Parts that are all simple frames are all read as keys, each the whole
/// string of its frame, in order, and all of them are taken.
pub proof fn lemma_simple_parts_are_all_keys(strs: Seq<String>, parts: Seq<Frame>)
    requires
        parts.len() == strs.len(),
        forall|i: int| 0 <= i < strs.len() ==> #[trigger] parts[i] == Frame::Simple(strs[i]),
    ensures
        leading_texts(parts).len() == strs.len(),
        forall|i: int| 0 <= i < strs.len() ==> #[trigger] leading_texts(parts)[i] == strs[i]@,
        parts_taken(parts) == parts.len(),
    decreases parts.len(),
{
    if parts.len() > 0 {
        let rest = parts.drop_first();
        let srest = strs.drop_first();
        assert forall|i: int| 0 <= i < srest.len() implies #[trigger] rest[i] == Frame::Simple(
            srest[i],
        ) by {
            assert(parts[i + 1] == Frame::Simple(strs[i + 1]));
        }
        lemma_simple_parts_are_all_keys(srest, rest);
        assert(parts[0] == Frame::Simple(strs[0]));
        assert forall|i: int| 0 <= i < strs.len() implies #[trigger] leading_texts(parts)[i]
            == strs[i]@ by {
            if i > 0 {
                assert(leading_texts(parts)[i] == leading_texts(rest)[i - 1]);
            }
        }
    }
}

/// Keys are read exactly from the leading parts that read as strings: each
/// key is the text of the part at its position, and the part after the last
/// key, when there is one, does not read as a string.
pub proof fn lemma_keys_are_texts_of_leading_parts(parts: Seq<Frame>)
    ensures
        leading_texts(parts).len() <= parts.len(),
        forall|i: int|
            0 <= i < leading_texts(parts).len() ==> frame_text(parts[i]) == Some(
                #[trigger] leading_texts(parts)[i],
            ),
        leading_texts(parts).len() < parts.len() ==> frame_text(
            parts[leading_texts(parts).len() as int],
        ) is None,
        parts_taken(parts) as int == if leading_texts(parts).len() < parts.len() {
            leading_texts(parts).len() + 1 as int
        } else {
            parts.len() as int
        },
{
    lemma_leading_texts_stop(parts);
}

/// The frame that sends `DEL` for some strings: the bytes `del`, then each
/// string's own UTF-8 bytes, in order, and nothing else.
pub proof fn lemma_del_frame_sends_each_key(keys: Seq<String>, f: Frame)
    requires
        is_del_frame(texts(keys), f),
    ensures
        f is Array,
        f.parts().len() == keys.len() + 1,
        f.parts()[0] is Bulk && bytes_contents(f.parts()[0]->Bulk_0) == seq![100u8, 101u8, 108u8],
        forall|i: int|
            0 <= i < keys.len() ==> #[trigger] f.parts()[i + 1] is Bulk && bytes_contents(
                f.parts()[i + 1]->Bulk_0,
            ) == encode_utf8(keys[i]@),
{
    lemma_command_name_bytes();
    assert forall|i: int| 0 <= i < keys.len() implies #[trigger] f.parts()[i + 1] is Bulk
        && bytes_contents(f.parts()[i + 1]->Bulk_0) == encode_utf8(keys[i]@) by {
        assert(is_bulk_text(f.parts()[i + 1], texts(keys)[i]));
    }
}

/// A bulk frame holding the UTF-8 encoding of a text reads back as that text.
pub proof fn lemma_bulk_text_reads_back(f: Frame, t: Seq<char>)
    requires
        is_bulk_text(f, t),
    ensures
        frame_text(f) == Some(t),
        read_text(f) == Ok::<Seq<char>, ParseError>(t),
{
    encode_utf8_valid_utf8(t);
    encode_utf8_decode_utf8(t);
}

/// Bulk frames holding the encodings of `keys`, one for each key, read back
/// as exactly `keys`.
pub proof fn lemma_bulk_texts_read_back(keys: Seq<Seq<char>>, parts: Seq<Frame>)
    requires
        parts.len() == keys.len(),
        forall|i: int| 0 <= i < keys.len() ==> is_bulk_text(#[trigger] parts[i], keys[i]),
    ensures
        leading_texts(parts) == keys,
        parts_taken(parts) == parts.len(),
    decreases parts.len(),
{
    if parts.len() > 0 {
        assert(is_bulk_text(parts[0], keys[0]));
        lemma_bulk_text_reads_back(parts[0], keys[0]);
        let rest = parts.drop_first();
        assert forall|i: int| 0 <= i < keys.drop_first().len() implies is_bulk_text(
            #[trigger] rest[i],
            keys.drop_first()[i],
        ) by {
            assert(is_bulk_text(parts[i + 1], keys[i + 1]));
        }
        lemma_bulk_texts_read_back(keys.drop_first(), rest);
        assert(leading_texts(parts) =~= keys);
    } else {
        assert(leading_texts(parts) =~= keys);
    }
}

/// Reading back the frame that sends `DEL` for some keys: its first part
/// reads as the command name, and reading keys from the parts after it gives
/// back exactly those keys and takes every part.
pub proof fn lemma_del_frame_round_trip(keys: Seq<Seq<char>>, f: Frame)
    requires
        is_del_frame(keys, f),
    ensures
        read_text(f.parts()[0]) == Ok::<Seq<char>, ParseError>(command_name()),
        leading_texts(f.parts().drop_first()) == keys,
        parts_taken(f.parts().drop_first()) == keys.len(),
{
    lemma_bulk_text_reads_back(f.parts()[0], command_name());
    let rest = f.parts().drop_first();
    assert forall|i: int| 0 <= i < keys.len() implies is_bulk_text(#[trigger] rest[i], keys[i]) by {
        assert(is_bulk_text(f.parts()[i + 1], keys[i]));
    }
    lemma_bulk_texts_read_back(keys, rest);
}

impl Del {
    /// A command that removes `keys`, in the order given.
    pub fn new(keys: Vec<String>) -> (d: Del)
        ensures
            d@ == texts(keys@),
            d@.len() == keys@.len(),
            forall|i: int| 0 <= i < keys@.len() ==> #[trigger] d@[i] == keys@[i]@,
    {
        Del { keys }
    }

    /// Reads the keys of a `DEL` command whose name was already read: every
    /// part up to the first one that does not read as a string. That part,
    /// when there is one, is taken too; the rest stay. Never fails.
    pub fn parse_frames(parse: &mut Parse) -> (r: Result<Del, ParseError>)
        ensures
            r is Ok,
            r matches Ok(d) ==> d@ == leading_texts(old(parse)@),
            r matches Ok(d) ==> forall|i: int|
                0 <= i < d@.len() ==> frame_text(old(parse)@[i]) == Some(#[trigger] d@[i]),
            r matches Ok(d) ==> d@.len() <= old(parse)@.len(),
            r matches Ok(d) ==> (d@.len() < old(parse)@.len() ==> frame_text(
                old(parse)@[d@.len() as int],
            ) is None),
            final(parse)@ == old(parse)@.skip(parts_taken(old(parse)@) as int),
    {
        let ghost start = parse@;
        proof {
            lemma_leading_texts_stop(start);
        }
        let mut keys: Vec<String> = Vec::new();
        proof {
            lemma_leading_texts_stop(start);
            assert(start.skip(0) =~= start);
        }
        loop
            invariant_except_break
                texts(keys@) + leading_texts(parse@) == leading_texts(start),
                keys@.len() <= start.len(),
                parse@ == start.skip(keys@.len() as int),
            ensures
                texts(keys@) == leading_texts(start),
                parse@ == start.skip(parts_taken(start) as int),
            decreases parse@.len(),
        {
            let ghost before = parse@;
            proof {
                lemma_leading_texts_stop(before);
            }
            match parse.next_string() {
                Ok(key) => {
                    let ghost old_keys = keys@;
                    keys.push(key);
                    proof {
                        assert(texts(keys@) =~= texts(old_keys).push(key@));
                        assert(before.drop_first() =~= start.skip(keys@.len() as int));
                        assert(texts(keys@) + leading_texts(parse@) =~= texts(old_keys) + (seq![
                            key@,
                        ] + leading_texts(before.drop_first())));
                    }
                },
                Err(_) => {
                    proof {
                        assert(texts(keys@) =~= texts(keys@) + leading_texts(before));
                        if before.len() > 0 {
                            assert(before.drop_first() =~= start.skip(keys@.len() + 1 as int));
                        }
                    }
                    break ;
                },
            }
        }
        Ok(Del { keys })
    }

    /// The frame that sends this command: an array of bulk frames, the
    /// command name first and then each key, in order.
    pub fn into_frame(self) -> (f: Frame)
        ensures
            is_del_frame(self@, f),
            f is Array,
            f.parts().len() == self@.len() + 1,
            f.parts()[0] is Bulk && bytes_contents(f.parts()[0]->Bulk_0) == seq![
                100u8,
                101u8,
                108u8,
            ],
            forall|i: int|
                0 <= i < self@.len() ==> #[trigger] f.parts()[i + 1] is Bulk && bytes_contents(
                    f.parts()[i + 1]->Bulk_0,
                ) == encode_utf8(self@[i]),
    {
        let mut frame = Frame::array();
        proof {
            reveal_strlit("del");
            assert("del"@ =~= command_name());
        }
        frame.push_bulk(bytes_from_static("del".as_bytes()));
        let ghost keys = self@;
        for key in iter: self.keys
            invariant
                frame is Array,
                keys == texts(iter.seq()),
                frame.parts().len() == iter.index() + 1,
                is_bulk_text(frame.parts()[0], command_name()),
                forall|i: int|
                    0 <= i < iter.index() ==> is_bulk_text(
                        #[trigger] frame.parts()[i + 1],
                        keys[i],
                    ),
        {
            frame.push_bulk(bytes_from_string(key));
        }
        proof {
            lemma_command_name_bytes();
            assert forall|i: int| 0 <= i < keys.len() implies #[trigger] frame.parts()[i + 1] is Bulk
                && bytes_contents(frame.parts()[i + 1]->Bulk_0) == encode_utf8(keys[i]) by {
                assert(is_bulk_text(frame.parts()[i + 1], keys[i]));
            }
        }
        frame
    }

    /// The reply to this command once `removed` keys were removed: that
    /// count, as an integer frame.
    pub fn response(removed: usize) -> (f: Frame)
        ensures
            f == Frame::Integer(removed as u64),
    {
        Frame::Integer(removed as u64)
    }
}

} // verus!
