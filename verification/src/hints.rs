//! The codec itself: what a type must offer to cross from the host into the
//! circuit, and the codecs of scalars and containers.

use crate::error::HintError;
use crate::field::{BaseElem, ExtElem, InnerDigest, DIGEST_SIZE, MODULUS};
use crate::reader::{
    digest_at_head, extension_at_head, is_suffix, scalar_at_head, HintReader,
};
use crate::vars::{Array, ArrayView, Ext, Felt, Var};
use vstd::prelude::*;

verus! {

/// A type that can be flattened into a hint stream and rebuilt from it.
pub trait Hintable: Sized {
    /// What decoding rebuilds.
    type HintVariable: View;

    /// Whether every counter in the value fits the base field.
    spec fn in_range(&self) -> bool;

    /// The chunks that encode the value, in order.
    spec fn encoding(&self) -> Seq<Seq<nat>>;

    /// The numeric content of the value, in the shape that decoding rebuilds.
    spec fn content(&self) -> <Self::HintVariable as View>::V;

    /// What the read requests of this type make of a stream: the content
    /// they rebuild and the chunks they leave, or nothing where the stream
    /// does not hold what they ask for.
    spec fn decoding(stream: Seq<Seq<nat>>) -> Option<
        (<Self::HintVariable as View>::V, Seq<Seq<nat>>),
    >;

    /// Tests whether the value can be encoded.
    fn fits(&self) -> (ok: bool)
        ensures
            ok == self.in_range(),
    ;

    /// Rebuilds a value from the chunks at the reader's place.  On a
    /// mismatch the reader stays where it was.
    fn read(reader: &mut HintReader) -> (r: Result<Self::HintVariable, HintError>)
        ensures
            final(reader).stream() == old(reader).stream(),
            match r {
                Ok(variable) => {
                    &&& Self::decoding(old(reader).remaining()) == Some(
                        (variable@, final(reader).remaining()),
                    )
                    &&& final(reader).extent() == old(reader).extent()
                },
                Err(e) => {
                    &&& Self::decoding(old(reader).remaining()) is None
                    &&& e == HintError::ProtocolMismatch
                    &&& final(reader).position() == old(reader).position()
                },
            },
    ;

    /// Flattens the value into chunks.
    fn write(&self) -> (stream: Vec<Vec<BaseElem>>)
        requires
            self.in_range(),
        ensures
            stream.deep_view() == self.encoding(),
    ;

    /// Reads a value and stores it in `variable`.
    fn witness(variable: &mut Self::HintVariable, reader: &mut HintReader) -> (r: Result<
        (),
        HintError,
    >)
        ensures
            final(reader).stream() == old(reader).stream(),
            match r {
                Ok(()) => {
                    &&& Self::decoding(old(reader).remaining()) == Some(
                        (final(variable)@, final(reader).remaining()),
                    )
                    &&& final(reader).extent() == old(reader).extent()
                },
                Err(e) => {
                    &&& Self::decoding(old(reader).remaining()) is None
                    &&& e == HintError::ProtocolMismatch
                    &&& final(reader).position() == old(reader).position()
                    &&& *final(variable) == *old(variable)
                },
            },
    {
        match Self::read(reader) {
            Ok(target) => {
                *variable = target;
                Ok(())
            },
            Err(e) => Err(e),
        }
    }

    /// Decoding undoes encoding: from the chunks of a value, followed by
    /// anything, it rebuilds the value's content and leaves what followed.
    proof fn lemma_round_trip(&self, rest: Seq<Seq<nat>>)
        requires
            self.in_range(),
        ensures
            Self::decoding(self.encoding() + rest) == Some((self.content(), rest)),
    ;

    /// Decoding consumes chunks from the front, whole and in order: what it
    /// leaves is the stream without some of its first chunks.
    proof fn lemma_leaves_suffix(stream: Seq<Seq<nat>>)
        ensures
            match Self::decoding(stream) {
                Some((content, rest)) => is_suffix(rest, stream),
                None => true,
            },
    ;
}

/// Encodes a value, or refuses it where a counter does not fit the field.
pub fn try_write<T: Hintable>(value: &T) -> (r: Result<Vec<Vec<BaseElem>>, HintError>)
    ensures
        match r {
            Ok(stream) => value.in_range() && stream.deep_view() == value.encoding(),
            Err(e) => !value.in_range() && e == HintError::RangeViolation,
        },
{
    if value.fits() {
        Ok(value.write())
    } else {
        Err(HintError::RangeViolation)
    }
}

/// Carries a value from the host into the circuit: encodes it, replays the
/// stream from its start and decodes it.  The variable that comes out holds
/// the value's content, and nothing but a counter out of range stops it.
pub fn transfer<T: Hintable>(value: &T) -> (r: Result<T::HintVariable, HintError>)
    ensures
        match r {
            Ok(variable) => value.in_range() && variable@ == value.content(),
            Err(e) => !value.in_range() && e == HintError::RangeViolation,
        },
{
    if !value.fits() {
        return Err(HintError::RangeViolation);
    }
    let stream = value.write();
    let mut reader = HintReader::new(stream);
    proof {
        value.lemma_round_trip(Seq::empty());
    }
    T::read(&mut reader)
}

/// Marks the element types whose lists use the generic container codec.
pub trait VecAutoHintable: Hintable {

}

impl Hintable for usize {
    type HintVariable = Var;

    open spec fn in_range(&self) -> bool {
        *self < MODULUS
    }

    open spec fn encoding(&self) -> Seq<Seq<nat>> {
        seq![seq![*self as nat]]
    }

    open spec fn content(&self) -> nat {
        *self as nat
    }

    open spec fn decoding(stream: Seq<Seq<nat>>) -> Option<(nat, Seq<Seq<nat>>)> {
        scalar_at_head(stream)
    }

    fn fits(&self) -> (ok: bool) {
        *self < MODULUS as usize
    }

    fn read(reader: &mut HintReader) -> (r: Result<Var, HintError>) {
        reader.hint_var()
    }

    fn write(&self) -> (stream: Vec<Vec<BaseElem>>) {
        let stream = vec![vec![BaseElem::from_canonical_usize(*self)]];
        assert(stream.deep_view() =~= self.encoding()) by {
            assert(stream[0].deep_view() =~= seq![*self as nat]);
        }
        stream
    }

    proof fn lemma_round_trip(&self, rest: Seq<Seq<nat>>) {
    }

    proof fn lemma_leaves_suffix(stream: Seq<Seq<nat>>) {
    }
}

impl Hintable for BaseElem {
    type HintVariable = Felt;

    open spec fn in_range(&self) -> bool {
        true
    }

    open spec fn encoding(&self) -> Seq<Seq<nat>> {
        seq![seq![self@]]
    }

    open spec fn content(&self) -> nat {
        self@
    }

    open spec fn decoding(stream: Seq<Seq<nat>>) -> Option<(nat, Seq<Seq<nat>>)> {
        scalar_at_head(stream)
    }

    fn fits(&self) -> (ok: bool) {
        true
    }

    fn read(reader: &mut HintReader) -> (r: Result<Felt, HintError>) {
        reader.hint_felt()
    }

    fn write(&self) -> (stream: Vec<Vec<BaseElem>>) {
        let stream = vec![vec![*self]];
        assert(stream.deep_view() =~= self.encoding()) by {
            assert(stream[0].deep_view() =~= seq![self@]);
        }
        stream
    }

    proof fn lemma_round_trip(&self, rest: Seq<Seq<nat>>) {
    }

    proof fn lemma_leaves_suffix(stream: Seq<Seq<nat>>) {
    }
}

impl Hintable for ExtElem {
    type HintVariable = Ext;

    open spec fn in_range(&self) -> bool {
        true
    }

    open spec fn encoding(&self) -> Seq<Seq<nat>> {
        seq![self@]
    }

    open spec fn content(&self) -> Seq<nat> {
        self@
    }

    open spec fn decoding(stream: Seq<Seq<nat>>) -> Option<(Seq<nat>, Seq<Seq<nat>>)> {
        extension_at_head(stream)
    }

    fn fits(&self) -> (ok: bool) {
        true
    }

    fn read(reader: &mut HintReader) -> (r: Result<Ext, HintError>) {
        reader.hint_ext()
    }

    fn write(&self) -> (stream: Vec<Vec<BaseElem>>) {
        let stream = vec![
            vec![
                self.coefficient(0),
                self.coefficient(1),
                self.coefficient(2),
                self.coefficient(3),
            ],
        ];
        assert(stream.deep_view() =~= self.encoding()) by {
            assert(stream[0].deep_view() =~= self@);
        }
        stream
    }

    proof fn lemma_round_trip(&self, rest: Seq<Seq<nat>>) {
    }

    proof fn lemma_leaves_suffix(stream: Seq<Seq<nat>>) {
    }
}

/// The values of a digest as natural numbers, in index order.
pub open spec fn digest_view(digest: InnerDigest) -> Seq<nat> {
    Seq::new(DIGEST_SIZE as nat, |i: int| digest[i]@)
}

/// A digest travels as one chunk of its values.  Its size is fixed, so no
/// length is written or read.
impl Hintable for InnerDigest {
    type HintVariable = Array<Felt>;

    open spec fn in_range(&self) -> bool {
        true
    }

    open spec fn encoding(&self) -> Seq<Seq<nat>> {
        seq![digest_view(*self)]
    }

    open spec fn content(&self) -> ArrayView<nat> {
        ArrayView::Fixed(digest_view(*self))
    }

    open spec fn decoding(stream: Seq<Seq<nat>>) -> Option<(ArrayView<nat>, Seq<Seq<nat>>)> {
        digest_at_head(stream, DIGEST_SIZE as nat)
    }

    fn fits(&self) -> (ok: bool) {
        true
    }

    fn read(reader: &mut HintReader) -> (r: Result<Array<Felt>, HintError>) {
        reader.hint_digest()
    }

    fn write(&self) -> (stream: Vec<Vec<BaseElem>>) {
        let stream = vec![
            vec![
                self[0],
                self[1],
                self[2],
                self[3],
                self[4],
                self[5],
                self[6],
                self[7],
            ],
        ];
        assert(stream.deep_view() =~= self.encoding()) by {
            assert(stream[0].deep_view() =~= digest_view(*self));
        }
        stream
    }

    proof fn lemma_round_trip(&self, rest: Seq<Seq<nat>>) {
    }

    proof fn lemma_leaves_suffix(stream: Seq<Seq<nat>>) {
    }
}

impl VecAutoHintable for InnerDigest {

}

} // verus!
