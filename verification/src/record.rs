//! Records: an ordered run of fields that each have a codec has one too.
//! Encoding visits the fields in the order of their declaration and
//! concatenates their chunks; decoding visits them in the same order.

use crate::error::HintError;
use crate::field::BaseElem;
use crate::hints::Hintable;
use crate::reader::{lemma_suffix_of_suffix, HintReader};
use vstd::prelude::*;

verus! {

/// Appends the chunks of one field to the stream of a record.
pub fn write_field<T: Hintable>(stream: &mut Vec<Vec<BaseElem>>, field: &T)
    requires
        field.in_range(),
    ensures
        final(stream).deep_view() == old(stream).deep_view() + field.encoding(),
{
    let mut part = field.write();
    stream.append(&mut part);
}

/// Reads one field of a record that began at `start`.  On a mismatch the
/// reader goes back to `start`.
pub fn read_field<T: Hintable>(reader: &mut HintReader, start: usize) -> (r: Result<
    T::HintVariable,
    HintError,
>)
    ensures
        final(reader).stream() == old(reader).stream(),
        match r {
            Ok(variable) => {
                &&& T::decoding(old(reader).remaining()) == Some(
                    (variable@, final(reader).remaining()),
                )
                &&& final(reader).extent() == old(reader).extent()
            },
            Err(e) => {
                &&& T::decoding(old(reader).remaining()) is None
                &&& e == HintError::ProtocolMismatch
                &&& final(reader).position() == start
            },
        },
{
    match T::read(reader) {
        Ok(variable) => Ok(variable),
        Err(e) => {
            reader.rewind(start);
            Err(e)
        },
    }
}

/// A record of two fields.
impl<A: Hintable, B: Hintable> Hintable for (A, B) {
    type HintVariable = (A::HintVariable, B::HintVariable);

    open spec fn in_range(&self) -> bool {
        self.0.in_range() && self.1.in_range()
    }

    open spec fn encoding(&self) -> Seq<Seq<nat>> {
        self.0.encoding() + self.1.encoding()
    }

    open spec fn content(&self) -> (<A::HintVariable as View>::V, <B::HintVariable as View>::V) {
        (self.0.content(), self.1.content())
    }

    open spec fn decoding(stream: Seq<Seq<nat>>) -> Option<
        ((<A::HintVariable as View>::V, <B::HintVariable as View>::V), Seq<Seq<nat>>),
    > {
        match A::decoding(stream) {
            None => None,
            Some((first, rest)) => match B::decoding(rest) {
                None => None,
                Some((second, rest)) => Some(((first, second), rest)),
            },
        }
    }

    fn fits(&self) -> (ok: bool) {
        self.0.fits() && self.1.fits()
    }

    fn read(reader: &mut HintReader) -> (r: Result<
        (A::HintVariable, B::HintVariable),
        HintError,
    >) {
        let start = reader.mark();
        let first = read_field::<A>(reader, start)?;
        let second = read_field::<B>(reader, start)?;
        let variable = (first, second);
        assert(variable@ == (first@, second@));
        Ok(variable)
    }

    fn write(&self) -> (stream: Vec<Vec<BaseElem>>) {
        let mut stream: Vec<Vec<BaseElem>> = Vec::new();
        write_field(&mut stream, &self.0);
        write_field(&mut stream, &self.1);
        stream
    }

    proof fn lemma_round_trip(&self, rest: Seq<Seq<nat>>) {
        let first = self.0.encoding();
        let second = self.1.encoding();
        assert(self.encoding() + rest =~= first + (second + rest));
        self.0.lemma_round_trip(second + rest);
        self.1.lemma_round_trip(rest);
    }

    proof fn lemma_leaves_suffix(stream: Seq<Seq<nat>>) {
        A::lemma_leaves_suffix(stream);
        match A::decoding(stream) {
            None => {},
            Some((_, after_first)) => {
                B::lemma_leaves_suffix(after_first);
                match B::decoding(after_first) {
                    None => {},
                    Some((_, after_second)) => {
                        lemma_suffix_of_suffix(after_second, after_first, stream);
                    },
                }
            },
        }
    }
}

/// A record of three fields.
impl<A: Hintable, B: Hintable, C: Hintable> Hintable for (A, B, C) {
    type HintVariable = (A::HintVariable, B::HintVariable, C::HintVariable);

    open spec fn in_range(&self) -> bool {
        self.0.in_range() && self.1.in_range() && self.2.in_range()
    }

    open spec fn encoding(&self) -> Seq<Seq<nat>> {
        self.0.encoding() + self.1.encoding() + self.2.encoding()
    }

    open spec fn content(&self) -> (
        <A::HintVariable as View>::V,
        <B::HintVariable as View>::V,
        <C::HintVariable as View>::V,
    ) {
        (self.0.content(), self.1.content(), self.2.content())
    }

    open spec fn decoding(stream: Seq<Seq<nat>>) -> Option<
        (
            (
                <A::HintVariable as View>::V,
                <B::HintVariable as View>::V,
                <C::HintVariable as View>::V,
            ),
            Seq<Seq<nat>>,
        ),
    > {
        match A::decoding(stream) {
            None => None,
            Some((first, rest)) => match B::decoding(rest) {
                None => None,
                Some((second, rest)) => match C::decoding(rest) {
                    None => None,
                    Some((third, rest)) => Some(((first, second, third), rest)),
                },
            },
        }
    }

    fn fits(&self) -> (ok: bool) {
        self.0.fits() && self.1.fits() && self.2.fits()
    }

    fn read(reader: &mut HintReader) -> (r: Result<
        (A::HintVariable, B::HintVariable, C::HintVariable),
        HintError,
    >) {
        let start = reader.mark();
        let first = read_field::<A>(reader, start)?;
        let second = read_field::<B>(reader, start)?;
        let third = read_field::<C>(reader, start)?;
        let variable = (first, second, third);
        assert(variable@ == (first@, second@, third@));
        Ok(variable)
    }

    fn write(&self) -> (stream: Vec<Vec<BaseElem>>) {
        let mut stream: Vec<Vec<BaseElem>> = Vec::new();
        write_field(&mut stream, &self.0);
        write_field(&mut stream, &self.1);
        write_field(&mut stream, &self.2);
        stream
    }

    proof fn lemma_round_trip(&self, rest: Seq<Seq<nat>>) {
        let first = self.0.encoding();
        let second = self.1.encoding();
        let third = self.2.encoding();
        assert(self.encoding() + rest =~= first + (second + (third + rest)));
        self.0.lemma_round_trip(second + (third + rest));
        self.1.lemma_round_trip(third + rest);
        self.2.lemma_round_trip(rest);
    }

    proof fn lemma_leaves_suffix(stream: Seq<Seq<nat>>) {
        A::lemma_leaves_suffix(stream);
        match A::decoding(stream) {
            None => {},
            Some((_, after_first)) => {
                B::lemma_leaves_suffix(after_first);
                match B::decoding(after_first) {
                    None => {},
                    Some((_, after_second)) => {
                        lemma_suffix_of_suffix(after_second, after_first, stream);
                        C::lemma_leaves_suffix(after_second);
                        match C::decoding(after_second) {
                            None => {},
                            Some((_, after_third)) => {
                                lemma_suffix_of_suffix(after_third, after_second, stream);
                            },
                        }
                    },
                }
            },
        }
    }
}

} // verus!
