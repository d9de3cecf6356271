use vstd::prelude::*;
use vstd::string::*;
use vstd::utf8::*;
use super::parsing_error::{NameFault, ParseError};
use super::wrapped_buffer::{
    lemma_then_associative, lemma_written_then, write_outcome, Emission, WrappedBuffer,
    BUFFER_SIZE,
};

verus! {

broadcast use WrappedBuffer::lemma_shape;

/// The number of compression pointers that a name may make the reader
/// follow.
pub const MAX_JUMPS: usize = 5;

/// The longest label that a length byte can announce.
pub const MAX_LABEL_LENGTH: usize = 63;

/// The byte that parts the labels of a written name.
pub const DOT: u8 = 0x2E;

/// The text that `String::from_utf8_lossy` makes of bytes that are not valid
/// UTF-8.
pub uninterp spec fn utf8_lossy(bytes: Seq<u8>) -> Seq<char>;

/// The text of raw label bytes: their decoding where they are valid UTF-8,
/// and the lossy conversion otherwise.
pub open spec fn lossy_text(bytes: Seq<u8>) -> Seq<char> {
    if valid_utf8(bytes) {
        decode_utf8(bytes)
    } else {
        utf8_lossy(bytes)
    }
}

/// The ASCII lower case of `c`: `A` to `Z` become `a` to `z`, every other
/// character stays.
pub open spec fn lower_char(c: char) -> char {
    if 'A' <= c <= 'Z' {
        ((c as u8 + 32) as u8) as char
    } else {
        c
    }
}

/// `text` with each character in ASCII lower case.
pub open spec fn lowercase(text: Seq<char>) -> Seq<char> {
    Seq::new(text.len(), |i: int| lower_char(text[i]))
}

/// The text that a decoded label adds to a name.
pub open spec fn label_text(label: Seq<u8>) -> Seq<char> {
    lowercase(lossy_text(label))
}

/// The dotted name that `labels` spell.
pub open spec fn name_text(labels: Seq<Seq<u8>>) -> Seq<char>
    decreases labels.len(),
{
    if labels.len() == 0 {
        Seq::empty()
    } else if labels.len() == 1 {
        label_text(labels[0])
    } else {
        name_text(labels.drop_last()) + seq!['.'] + label_text(labels.last())
    }
}

/// Whether a length byte is the first byte of a compression pointer: its two
/// highest bits are set.
pub open spec fn is_pointer(byte: u8) -> bool {
    byte & 0xC0 == 0xC0
}

/// The offset that the two bytes of a compression pointer name: the low six
/// bits of the first byte, then the second byte.
pub open spec fn pointer_target(first: u8, second: u8) -> int {
    ((((first & 0x3F) as u16) << 8) | (second as u16)) as int
}

/// `labels` in front of the labels of `rest`, or the fault of `rest`.
pub open spec fn with_prefix(
    labels: Seq<Seq<u8>>,
    rest: Result<Seq<Seq<u8>>, ParseError>,
) -> Result<Seq<Seq<u8>>, ParseError> {
    match rest {
        Ok(more) => Ok(labels + more),
        Err(fault) => Err(fault),
    }
}

/// The labels of the name that starts at `pos`, read after `jumps` pointers
/// were followed: labels are taken in place, a pointer continues the name at
/// its target, a zero length ends it. The name is malformed once more than
/// five pointers were followed, and any byte outside the buffer ends the
/// reading.
pub open spec fn name_labels(bytes: Seq<u8>, pos: int, jumps: int) -> Result<
    Seq<Seq<u8>>,
    ParseError,
>
    decreases MAX_JUMPS + 1 - jumps, BUFFER_SIZE - pos,
{
    if jumps > MAX_JUMPS {
        Err(ParseError::MalformedName(NameFault::TooManyJumps))
    } else if pos < 0 || pos >= BUFFER_SIZE {
        Err(ParseError::EndOfBuffer)
    } else if is_pointer(bytes[pos]) {
        if pos + 1 >= BUFFER_SIZE {
            Err(ParseError::EndOfBuffer)
        } else {
            name_labels(bytes, pointer_target(bytes[pos], bytes[pos + 1]), jumps + 1)
        }
    } else if bytes[pos] == 0 {
        Ok(Seq::empty())
    } else if pos + 1 + bytes[pos] > BUFFER_SIZE {
        Err(ParseError::EndOfBuffer)
    } else {
        with_prefix(
            seq![bytes.subrange(pos + 1, pos + 1 + bytes[pos])],
            name_labels(bytes, pos + 1 + bytes[pos], jumps),
        )
    }
}

/// The index behind the part of a name that stands in place at `pos`: behind
/// its zero length byte, or behind its first pointer.
pub open spec fn name_end(bytes: Seq<u8>, pos: int) -> int
    decreases BUFFER_SIZE - pos,
{
    if pos < 0 || pos >= BUFFER_SIZE {
        pos
    } else if is_pointer(bytes[pos]) {
        pos + 2
    } else if bytes[pos] == 0 {
        pos + 1
    } else if pos + 1 + bytes[pos] > BUFFER_SIZE {
        pos
    } else {
        name_end(bytes, pos + 1 + bytes[pos])
    }
}

/// The index of the first dot in `bytes`, or their length where there is
/// none.
pub open spec fn first_dot(bytes: Seq<u8>) -> int
    decreases bytes.len(),
{
    if bytes.len() == 0 || bytes[0] == DOT {
        0
    } else {
        1 + first_dot(bytes.skip(1))
    }
}

/// The parts into which the dots cut `bytes`; between two dots, before a
/// leading dot and behind a trailing one the part is empty.
pub open spec fn split_labels(bytes: Seq<u8>) -> Seq<Seq<u8>>
    decreases bytes.len(),
{
    let dot = first_dot(bytes);
    if 0 <= dot < bytes.len() {
        seq![bytes.take(dot)] + split_labels(bytes.skip(dot + 1))
    } else {
        seq![bytes]
    }
}

/// What one label sends to the buffer: nothing where it is empty, its length
/// and its bytes where it has up to 63 bytes, and a fault where it is longer.
pub open spec fn label_emission(label: Seq<u8>) -> Emission {
    if label.len() == 0 {
        Emission::of(Seq::empty())
    } else if label.len() > MAX_LABEL_LENGTH {
        Emission {
            bytes: Seq::empty(),
            fault: Some(ParseError::MalformedName(NameFault::LabelTooLong)),
        }
    } else {
        Emission::of(seq![label.len() as u8] + label)
    }
}

/// What `labels` send to the buffer, one after the other.
pub open spec fn labels_emission(labels: Seq<Seq<u8>>) -> Emission
    decreases labels.len(),
{
    if labels.len() == 0 {
        Emission::of(Seq::empty())
    } else {
        label_emission(labels[0]).followed_by(labels_emission(labels.skip(1)))
    }
}

/// What a name sends to the buffer: the labels between the dots of its
/// UTF-8 bytes, then a zero byte.
pub open spec fn name_emission(name: Seq<char>) -> Emission {
    labels_emission(split_labels(encode_utf8(name))).followed_by(Emission::of(seq![0u8]))
}

/// An index with no dot before it, which is a dot or the end, is the first
/// dot.
pub proof fn lemma_first_dot(bytes: Seq<u8>, index: int)
    requires
        0 <= index <= bytes.len(),
        forall|j: int| 0 <= j < index ==> bytes[j] != DOT,
        index == bytes.len() || bytes[index] == DOT,
    ensures
        first_dot(bytes) == index,
    decreases bytes.len(),
{
    if index > 0 {
        assert(bytes[0] != DOT);
        let rest = bytes.skip(1);
        assert forall|j: int| 0 <= j < index - 1 implies rest[j] != DOT by {
            assert(rest[j] == bytes[j + 1]);
        }
        lemma_first_dot(rest, index - 1);
    }
}

/// `String::from_utf8_lossy`: bytes that are valid UTF-8 become the text
/// that they encode, and of other bytes the result is only named.
#[verifier::external_body]
fn lossy_string(bytes: &[u8]) -> (text: String)
    ensures
        valid_utf8(bytes@) ==> text@ == decode_utf8(bytes@),
        !valid_utf8(bytes@) ==> text@ == utf8_lossy(bytes@),
{
    String::from_utf8_lossy(bytes).into_owned()
}

/// `str::to_ascii_lowercase`: a copy in which `A` to `Z` are replaced by
/// `a` to `z` and every other character is kept.
#[verifier::external_body]
fn ascii_lowercase(text: &str) -> (lower: String)
    ensures
        lower@ == lowercase(text@),
{
    text.to_ascii_lowercase()
}

/// Appends a label to a dotted name: a dot unless the label is the first
/// one, then `text` in ASCII lower case.
pub fn push_label(name: &mut String, first: bool, text: &str)
    ensures
        final(name)@ == old(name)@ + (if first {
            Seq::<char>::empty()
        } else {
            seq!['.']
        }) + lowercase(text@),
{
    if !first {
        proof {
            reveal_strlit(".");
        }
        name.append(".");
        assert(name@ =~= old(name)@ + seq!['.']);
    } else {
        assert(name@ =~= old(name)@ + Seq::<char>::empty());
    }
    let lower = ascii_lowercase(text);
    name.append(lower.as_str());
}

/// Writes one label: nothing for an empty one, else its length and its
/// bytes.
fn write_label(buffer: &mut WrappedBuffer, label: &[u8]) -> (r: Result<(), ParseError>)
    ensures
        write_outcome(old(buffer)@, label_emission(label@), r, final(buffer)@),
{
    let ghost start = buffer@;
    let length: usize = label.len();
    if length == 0 {
        assert(buffer@.bytes =~= start.put(Seq::empty()).bytes);
        return Ok(());
    }
    if length > MAX_LABEL_LENGTH {
        return Err(ParseError::MalformedName(NameFault::LabelTooLong));
    }
    buffer.write_u8(length as u8)?;
    assert((seq![length as u8] + label@).take(1) =~= seq![length as u8]);
    let mut i: usize = 0;
    while i < length
        invariant
            0 <= i <= length,
            length == label@.len(),
            0 < length <= MAX_LABEL_LENGTH,
            start == old(buffer)@,
            0 <= start.pos,
            start.bytes.len() == BUFFER_SIZE,
            start.pos + 1 + i <= BUFFER_SIZE,
            buffer@ == start.put((seq![length as u8] + label@).take(i + 1)),
        decreases length - i,
    {
        buffer.write_u8(label[i])?;
        assert(buffer@.bytes =~= start.put((seq![length as u8] + label@).take(i + 2)).bytes);
        i = i + 1;
    }
    assert((seq![length as u8] + label@).take(length + 1) =~= seq![length as u8] + label@);
    Ok(())
}

/// The name codec of a type.
pub trait QueryNameParser {
    /// Reads the name at the buffer's position and appends it, dotted and in
    /// lower case, to `result`. The position moves behind the part of the
    /// name that stands in place.
    fn read(buffer: &mut WrappedBuffer, result: &mut String) -> (r: Result<(), ParseError>)
        ensures
            final(buffer)@.bytes == old(buffer)@.bytes,
            match name_labels(old(buffer)@.bytes, old(buffer)@.pos, 0) {
                Ok(labels) => r is Ok && final(result)@ == old(result)@ + name_text(labels)
                    && final(buffer)@.pos == name_end(old(buffer)@.bytes, old(buffer)@.pos),
                Err(fault) => r == Err::<(), ParseError>(fault),
            },
    {
        let ghost bytes = buffer@.bytes;
        let ghost start = buffer@.pos;
        let ghost mut collected: Seq<Seq<u8>> = Seq::empty();
        let mut local_pos: usize = buffer.pos();
        let mut first: bool = true;
        let mut have_jumped: bool = false;
        let mut num_jumps: usize = 0;
        assert(result@ =~= old(result)@ + name_text(collected));
        assert(with_prefix(collected, name_labels(bytes, local_pos as int, 0)) == name_labels(
            bytes,
            local_pos as int,
            0,
        )) by {
            if let Ok(more) = name_labels(bytes, local_pos as int, 0) {
                assert(collected + more =~= more);
            }
        }

        loop
            invariant_except_break
                name_labels(bytes, start, 0) == with_prefix(
                    collected,
                    name_labels(bytes, local_pos as int, num_jumps as int),
                ),
                !have_jumped ==> name_end(bytes, start) == name_end(bytes, local_pos as int),
            invariant
                bytes == old(buffer)@.bytes,
                start == old(buffer)@.pos,
                buffer@.bytes == bytes,
                bytes.len() == BUFFER_SIZE,
                num_jumps <= MAX_JUMPS + 1,
                result@ == old(result)@ + name_text(collected),
                first <==> collected.len() == 0,
                have_jumped <==> num_jumps > 0,
                !have_jumped ==> buffer@.pos == start,
                have_jumped ==> buffer@.pos == name_end(bytes, start),
            ensures
                name_labels(bytes, start, 0) == Ok::<Seq<Seq<u8>>, ParseError>(collected),
                !have_jumped ==> name_end(bytes, start) == local_pos,
            decreases MAX_JUMPS + 1 - num_jumps, BUFFER_SIZE - local_pos,
        {
            if num_jumps > MAX_JUMPS {
                return Err(ParseError::MalformedName(NameFault::TooManyJumps));
            }
            let label_length_byte: u8 = buffer.peek(local_pos)?;
            let should_jump: bool = label_length_byte & 0xC0 == 0xC0;

            if should_jump {
                if !have_jumped {
                    buffer.seek(local_pos + 2)?;
                }
                let next_byte: u8 = buffer.peek(local_pos + 1)?;
                let jump_destination_pos: usize = ((((label_length_byte & 0x3F) as u16) << 8) | (
                next_byte as u16)) as usize;

                local_pos = jump_destination_pos;
                have_jumped = true;
                num_jumps = num_jumps + 1;
            } else {
                local_pos = local_pos + 1;

                if label_length_byte == 0 {
                    assert(collected + Seq::<Seq<u8>>::empty() =~= collected);
                    break ;
                }
                let char_count: usize = label_length_byte as usize;
                let slice = buffer.get_slice(local_pos, char_count)?;
                let text = lossy_string(slice);
                push_label(result, first, text.as_str());
                proof {
                    let label = bytes.subrange(local_pos as int, local_pos + char_count);
                    let longer = collected.push(label);
                    assert(longer.drop_last() =~= collected);
                    assert(result@ =~= old(result)@ + name_text(longer)) by {
                        if collected.len() == 0 {
                            assert(name_text(collected) =~= Seq::<char>::empty());
                        } else {
                            assert(old(result)@ + name_text(collected) + seq!['.'] + label_text(
                                label,
                            ) =~= old(result)@ + (name_text(collected) + seq!['.'] + label_text(
                                label,
                            )));
                        }
                    }
                    let rest = name_labels(bytes, local_pos + char_count, num_jumps as int);
                    assert(with_prefix(collected, with_prefix(seq![label], rest)) == with_prefix(
                        longer,
                        rest,
                    )) by {
                        if let Ok(more) = rest {
                            assert(collected + (seq![label] + more) =~= longer + more);
                        }
                    }
                    collected = longer;
                }
                first = false;
                local_pos = local_pos + char_count;
            }
        }

        if !have_jumped {
            buffer.seek(local_pos)?;
        }
        Ok(())
    }

    /// Writes `name` at the buffer's position: each non-empty label between
    /// its dots as a length byte and the label's bytes, then a zero byte.
    fn write(buffer: &mut WrappedBuffer, name: &str) -> (r: Result<(), ParseError>)
        ensures
            write_outcome(old(buffer)@, name_emission(name@), r, final(buffer)@),
    {
        let bytes = name.as_bytes();
        let length: usize = bytes.len();
        let ghost end = Emission::of(seq![0u8]);
        let mut start: usize = 0;
        let mut done: bool = false;
        assert(bytes@.skip(0) =~= bytes@);
        while !done
            invariant
                bytes@ == encode_utf8(name@),
                length == bytes@.len(),
                end == Emission::of(seq![0u8]),
                0 <= start <= length,
                0 <= buffer@.pos,
                done ==> old(buffer)@.written(name_emission(name@)) == buffer@.written(end),
                !done ==> old(buffer)@.written(name_emission(name@)) == buffer@.written(
                    labels_emission(split_labels(bytes@.skip(start as int))).followed_by(end),
                ),
            decreases length - start, if done { 0int } else { 1int },
        {
            let ghost rest = bytes@.skip(start as int);
            let mut i: usize = start;
            while i < length && bytes[i] != DOT
                invariant
                    start <= i <= length,
                    length == bytes@.len(),
                    forall|j: int| start <= j < i ==> bytes@[j] != DOT,
                decreases length - i,
            {
                i = i + 1;
            }
            proof {
                assert forall|j: int| 0 <= j < i - start implies rest[j] != DOT by {
                    assert(rest[j] == bytes@[start + j]);
                }
                lemma_first_dot(rest, i - start);
                let labels = split_labels(rest);
                let label = rest.take(i - start);
                assert(label =~= bytes@.subrange(start as int, i as int));
                assert(labels[0] == label);
                if i < length {
                    assert(rest.skip(i - start + 1) =~= bytes@.skip(i + 1));
                    assert(labels.skip(1) =~= split_labels(bytes@.skip(i + 1)));
                } else {
                    assert(label =~= rest);
                    assert(labels.skip(1) =~= Seq::<Seq<u8>>::empty());
                }
                let later = labels_emission(labels.skip(1));
                lemma_then_associative(label_emission(label), later, end);
                lemma_written_then(buffer@, label_emission(label), later.followed_by(end));
                if i >= length {
                    assert(later.followed_by(end) == end) by {
                        assert(later.bytes + end.bytes =~= end.bytes);
                    }
                }
            }
            let label = vstd::slice::slice_subrange(bytes, start, i);
            write_label(buffer, label)?;
            if i < length {
                start = i + 1;
            } else {
                start = length;
                done = true;
            }
        }
        buffer.write_u8(0)
    }
}

/// The name codec of DNS messages.
pub struct QueryName {}

impl QueryNameParser for QueryName {

}

} // verus!
