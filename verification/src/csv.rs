//! The record format: lines of comma-separated fields.
//!
//! A buffer is a run of lines, each ended by a line feed; the last line may
//! do without. A carriage return at the very end of a line belongs to the
//! line ending and is dropped. Every line, an empty one too, is one record,
//! and a record is the run of fields between its commas. There is no
//! quoting and no escaping: a field holds letters, digits and a few
//! punctuation marks, and anything else makes the whole buffer invalid.
//!
//! Nothing here copies or allocates. A [`Record`] is a checked view of one
//! line of the buffer, and its fields are views of parts of that line.

use vstd::prelude::*;
use vstd::slice::slice_subrange;

use crate::generation::{parse_generation, Generation};
use crate::result::Error;
use crate::scan::{first_where, lemma_first_where, lemma_first_where_is};
use crate::text::{
    all_field_bytes, is_allowed_in_field, is_ascii, is_field_byte, AsciiText,
    CARRIAGE_RETURN, COMMA, LINE_FEED,
};

verus! {

/// The test for being the byte `b`.
pub open spec fn is_byte(b: u8) -> spec_fn(u8) -> bool {
    |x: u8| x == b
}

/// The position of the first `b` in `s`, or the length of `s` if there is
/// none.
pub open spec fn first_byte(s: Seq<u8>, b: u8) -> nat {
    first_where(s, is_byte(b))
}

/// The pieces of `s` between the occurrences of `sep`. There is always at
/// least one piece, and a piece may be empty.
pub open spec fn split(s: Seq<u8>, sep: u8) -> Seq<Seq<u8>>
    decreases s.len(),
{
    let n = first_byte(s, sep);
    if n >= s.len() {
        seq![s]
    } else {
        seq![s.take(n as int)] + split(s.skip(n as int + 1), sep)
    }
}

/// `line` without the carriage return at its end, if it has one.
pub open spec fn strip_carriage_return(line: Seq<u8>) -> Seq<u8> {
    if line.len() > 0 && line.last() == CARRIAGE_RETURN {
        line.drop_last()
    } else {
        line
    }
}

/// The lines of a buffer, in order and without their line endings. The
/// empty buffer has no line; a buffer that ends in a line feed has no
/// empty line after it.
pub open spec fn lines(s: Seq<u8>) -> Seq<Seq<u8>>
    decreases s.len(),
{
    if s.len() == 0 {
        Seq::empty()
    } else {
        let n = first_byte(s, LINE_FEED);
        if n >= s.len() {
            seq![strip_carriage_return(s)]
        } else {
            seq![strip_carriage_return(s.take(n as int))] + lines(s.skip(n as int + 1))
        }
    }
}

/// The fields of a line.
pub open spec fn fields(line: Seq<u8>) -> Seq<Seq<u8>> {
    split(line, COMMA)
}

/// The fields that a record of at most `max` fields keeps of a line: the
/// first `max` of them. What follows is dropped without complaint.
pub open spec fn first_fields(line: Seq<u8>, max: nat) -> Seq<Seq<u8>> {
    let all = fields(line);
    if all.len() <= max {
        all
    } else {
        all.take(max as int)
    }
}

/// The test for having no place in a line: being neither a comma nor a
/// byte that a field may hold.
pub open spec fn is_offence() -> spec_fn(u8) -> bool {
    |b: u8| b != COMMA && !is_field_byte(b)
}

/// The position of the first byte of `line` that has no place in a line,
/// or the length of `line` if all is well.
pub open spec fn first_offence(line: Seq<u8>) -> nat {
    first_where(line, is_offence())
}

/// What is wrong with the bytes of a line, if anything: the first byte
/// that has no place in it decides. Above `0x7f` it is
/// [`Error::InvalidAscii`], else it is [`Error::SpecialChar`] with that
/// byte. Fields beyond those a record keeps are held to the same rule.
pub open spec fn line_error(line: Seq<u8>) -> Option<Error> {
    let at = first_offence(line);
    if at >= line.len() {
        None
    } else if !is_ascii(line[at as int]) {
        Some(Error::InvalidAscii)
    } else {
        Some(Error::SpecialChar(line[at as int]))
    }
}

/// The `index`-th field of a record, if the record has that many.
pub open spec fn field_at(record: Seq<Seq<u8>>, index: nat) -> Option<Seq<u8>> {
    if index < record.len() {
        Some(record[index as int])
    } else {
        None
    }
}

/// A line without an error holds field bytes and commas only, so each of
/// its fields holds field bytes only.
pub proof fn lemma_fields_of_clean_line(line: Seq<u8>, index: int)
    requires
        line_error(line) is None,
        0 <= index < fields(line).len(),
    ensures
        all_field_bytes(fields(line)[index]),
    decreases line.len(),
{
    lemma_first_where(line, is_offence());
    lemma_first_where(line, is_byte(COMMA));
    let n = first_byte(line, COMMA);
    if n >= line.len() {
        assert(fields(line) =~= seq![line]);
        assert forall|j: int| 0 <= j < line.len() implies is_field_byte(#[trigger] line[j]) by {
            assert(!is_offence()(line[j]));
            assert(!is_byte(COMMA)(line[j]));
        }
    } else {
        let rest = line.skip(n as int + 1);
        if index == 0 {
            let head = line.take(n as int);
            assert forall|j: int| 0 <= j < head.len() implies is_field_byte(#[trigger] head[j]) by {
                assert(!is_offence()(line[j]));
                assert(!is_byte(COMMA)(line[j]));
            }
        } else {
            assert forall|j: int| 0 <= j < rest.len() implies !is_offence()(#[trigger] rest[j]) by {
                assert(rest[j] == line[j + n + 1]);
                assert(!is_offence()(line[j + n + 1]));
            }
            lemma_first_where_is(rest, is_offence(), rest.len());
            lemma_fields_of_clean_line(rest, index - 1);
        }
    }
}

/// The first `b` in `bytes` at or after `from`, or the end of `bytes`.
fn find_byte(bytes: &[u8], b: u8, from: usize) -> (at: usize)
    requires
        from <= bytes@.len(),
    ensures
        from <= at <= bytes@.len(),
        at - from == first_byte(bytes@.skip(from as int), b),
{
    let mut at: usize = from;
    while at < bytes.len() && bytes[at] != b
        invariant
            from <= at <= bytes@.len(),
            forall|j: int| from <= j < at ==> bytes@[j] != b,
        decreases bytes@.len() - at,
    {
        at += 1;
    }
    proof {
        let rest = bytes@.skip(from as int);
        assert forall|j: int| 0 <= j < at - from implies !is_byte(b)(#[trigger] rest[j]) by {
            assert(rest[j] == bytes@[j + from]);
        }
        lemma_first_where_is(rest, is_byte(b), (at - from) as nat);
    }
    at
}

/// One record: a line whose bytes have been checked, seen as its first
/// `K` fields. Its view is the sequence of those fields.
#[derive(Clone, Copy, Debug, PartialEq, Eq)]
pub struct Record<'a, const K: usize> {
    line: AsciiText<'a>,
}

impl<'a, const K: usize> View for Record<'a, K> {
    type V = Seq<Seq<u8>>;

    closed spec fn view(&self) -> Seq<Seq<u8>> {
        first_fields(self.line@, K as nat)
    }
}

impl<'a, const K: usize> Record<'a, K> {
    #[verifier::type_invariant]
    spec fn is_clean(self) -> bool {
        line_error(self.line@) is None
    }

    /// Checks the bytes of `line`, which holds no line ending, and takes
    /// it as a record. The first byte that has no place in a line decides
    /// the error.
    pub fn from_line(line: &'a [u8]) -> (r: Result<Self, Error>)
        ensures
            match line_error(line@) {
                Some(e) => r == Err::<Self, Error>(e),
                None => r is Ok && r->Ok_0@ == first_fields(line@, K as nat),
            },
    {
        let mut i: usize = 0;
        while i < line.len()
            invariant
                i <= line@.len(),
                forall|j: int| 0 <= j < i ==> !is_offence()(#[trigger] line@[j]),
            decreases line@.len() - i,
        {
            let b: u8 = line[i];
            if b != COMMA && !is_allowed_in_field(b) {
                proof {
                    lemma_first_where_is(line@, is_offence(), i as nat);
                }
                if b >= 0x80 {
                    return Err(Error::InvalidAscii);
                } else {
                    return Err(Error::SpecialChar(b));
                }
            }
            i += 1;
        }
        proof {
            lemma_first_where_is(line@, is_offence(), line@.len());
            assert forall|j: int| 0 <= j < line@.len() implies is_ascii(#[trigger] line@[j]) by {
                assert(!is_offence()(line@[j]));
            }
        }
        Ok(Self { line: AsciiText::from_checked(line) })
    }

    /// The `index`-th field, counted from zero, or `None` if the record
    /// has no such field. A field that is there may be empty.
    pub fn get_field(&self, index: usize) -> (field: Option<AsciiText<'a>>)
        ensures
            match field {
                Some(text) => field_at(self@, index as nat) == Some(text@) && all_field_bytes(
                    text@,
                ),
                None => field_at(self@, index as nat) is None,
            },
    {
        if index >= K {
            return None;
        }
        proof {
            use_type_invariant(self);
        }
        let bytes = self.line.as_bytes();
        let mut start: usize = 0;
        let mut k: usize = 0;
        assert(bytes@.skip(0) =~= bytes@);
        loop
            invariant
                bytes@ == self.line@,
                line_error(bytes@) is None,
                start <= bytes@.len(),
                k <= index < K,
                k < fields(bytes@).len(),
                fields(bytes@).skip(k as int) =~= fields(bytes@.skip(start as int)),
            decreases bytes@.len() - start,
        {
            let end: usize = find_byte(bytes, COMMA, start);
            let ghost rest = bytes@.skip(start as int);
            if k == index {
                let text = self.line.slice(start, end);
                proof {
                    assert(fields(bytes@)[k as int] == fields(bytes@).skip(k as int)[0]);
                    assert(fields(rest)[0] =~= text@);
                    lemma_fields_of_clean_line(bytes@, k as int);
                }
                return Some(text);
            }
            if end >= bytes.len() {
                proof {
                    assert(fields(rest).len() == 1);
                    assert(fields(bytes@).skip(k as int).len() == 1);
                }
                return None;
            }
            proof {
                assert(rest.skip(end - start + 1) =~= bytes@.skip(end + 1));
                assert(fields(rest).skip(1) =~= fields(bytes@.skip(end + 1)));
                assert(fields(bytes@).skip(k as int).skip(1) =~= fields(bytes@).skip(k + 1));
            }
            start = end + 1;
            k = k + 1;
        }
    }

    /// The `index`-th field read as a generation: `Ok(None)` if the record
    /// has no such field, [`Error::InvalidGeneration`] if it has one that
    /// spells no generation.
    pub fn get_field_as_generation(&self, index: usize) -> (r: Result<Option<Generation>, Error>)
        ensures
            match field_at(self@, index as nat) {
                None => r == Ok::<Option<Generation>, Error>(None),
                Some(field) => match parse_generation(field) {
                    Some(value) => r is Ok && r->Ok_0 is Some && r->Ok_0->Some_0@ == value,
                    None => r == Err::<Option<Generation>, Error>(Error::InvalidGeneration),
                },
            },
    {
        match self.get_field(index) {
            None => Ok(None),
            Some(text) => match Generation::parse(text) {
                Ok(generation) => Ok(Some(generation)),
                Err(e) => Err(e),
            },
        }
    }
}

/// What takes the records of a buffer in, one after the other, such as a
/// store that keeps one item per record. Its view is what it has taken in
/// so far.
pub trait RecordHandler<'a, const K: usize>: View + Sized {
    /// What taking one record in does: the view afterwards and the
    /// verdict on the record. `index` counts the records of the buffer
    /// from zero; `record` holds the fields of the one at hand.
    spec fn step(state: Self::V, index: nat, record: Seq<Seq<u8>>) -> (Self::V, Result<(), Error>);

    /// Takes one record in. An error refuses the record and ends the
    /// reading of the buffer.
    fn handle(&mut self, index: usize, record: Record<'a, K>) -> (r: Result<(), Error>)
        ensures
            (final(self)@, r) == Self::step(old(self)@, index as nat, record@),
    ;
}

/// What reading `records`, the lines of a buffer from the `index`-th on,
/// does to a handler in state `state`. Each line is checked and, if its
/// bytes are in order, handed over as a record of at most `K` fields. The
/// first error, whether found in a line or raised by the handler, ends
/// the reading; what the handler took in before stays taken in.
pub open spec fn feed<'a, const K: usize, H: RecordHandler<'a, K>>(
    state: H::V,
    records: Seq<Seq<u8>>,
    index: nat,
) -> (H::V, Result<(), Error>)
    decreases records.len(),
{
    if records.len() == 0 {
        (state, Ok(()))
    } else {
        match line_error(records[0]) {
            Some(e) => (state, Err(e)),
            None => {
                let (next, verdict) = H::step(state, index, first_fields(records[0], K as nat));
                if verdict is Err {
                    (next, verdict)
                } else {
                    feed::<K, H>(next, records.drop_first(), index + 1)
                }
            },
        }
    }
}

/// Reads `input` in one pass from front to back and hands each record to
/// `handler`, which learns the record's position along with its fields.
/// Reading stops at the first error, and that error is returned; the
/// parser keeps no state of its own and undoes nothing.
pub fn parse_csv<'a, const K: usize, H: RecordHandler<'a, K>>(
    input: &'a [u8],
    handler: &mut H,
) -> (r: Result<(), Error>)
    ensures
        (final(handler)@, r) == feed::<K, H>(old(handler)@, lines(input@), 0),
{
    let ghost start_state = handler@;
    let mut pos: usize = 0;
    let mut index: usize = 0;
    assert(input@.skip(0) =~= input@);
    while pos < input.len()
        invariant
            start_state == old(handler)@,
            pos <= input@.len(),
            index <= pos,
            feed::<K, H>(start_state, lines(input@), 0) == feed::<K, H>(
                handler@,
                lines(input@.skip(pos as int)),
                index as nat,
            ),
        decreases input@.len() - pos,
    {
        let end: usize = find_byte(input, LINE_FEED, pos);
        let ghost rest = input@.skip(pos as int);
        let mut stop: usize = end;
        if stop > pos && input[stop - 1] == CARRIAGE_RETURN {
            stop = stop - 1;
        }
        let line = slice_subrange(input, pos, stop);
        let next: usize = if end < input.len() {
            end + 1
        } else {
            end
        };
        proof {
            let piece = input@.subrange(pos as int, end as int);
            assert(piece =~= rest.take(end - pos));
            assert(end == input@.len() ==> piece =~= rest);
            assert(line@ =~= strip_carriage_return(piece));
            if end < input@.len() {
                assert(rest.skip(end - pos + 1) =~= input@.skip(end + 1));
            }
            assert(lines(rest).len() > 0);
            assert(lines(rest)[0] == line@);
            assert(lines(rest).drop_first() =~= lines(input@.skip(next as int)));
        }
        match Record::<K>::from_line(line) {
            Err(e) => {
                return Err(e);
            },
            Ok(record) => {
                match handler.handle(index, record) {
                    Err(e) => {
                        return Err(e);
                    },
                    Ok(()) => {},
                }
            },
        }
        pos = next;
        index = index + 1;
    }
    Ok(())
}

} // verus!
