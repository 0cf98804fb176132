//! The codecs of the proof object graph.  Each record is encoded field by
//! field, in the order of its declaration, and decoded in the same order.

use crate::containers::{lemma_list_round_trip, list_content, list_encoding, list_in_range};
use crate::error::HintError;
use crate::field::{BaseElem, ExtElem, InnerDigest};
use crate::hints::{Hintable, VecAutoHintable};
use crate::reader::{lemma_suffix_of_suffix, HintReader};
use crate::record::{read_field, write_field};
use crate::vars::{Array, ArrayView, Ext, Felt, Usize, Var};
use vstd::prelude::*;

verus! {

/// The widths of the parts of a trace.
#[derive(Debug, PartialEq, Eq)]
pub struct TraceWidth {
    pub preprocessed: Option<usize>,
    pub partitioned_main: Vec<usize>,
    pub after_challenge: Vec<usize>,
}

/// The widths of a trace as the circuit holds them.
#[derive(Debug, PartialEq, Eq)]
pub struct TraceWidthVariable {
    pub preprocessed: Array<Var>,
    pub partitioned_main: Array<Var>,
    pub after_challenge: Array<Var>,
}

/// What a `TraceWidthVariable` holds.
pub struct TraceWidthView {
    pub preprocessed: ArrayView<nat>,
    pub partitioned_main: ArrayView<nat>,
    pub after_challenge: ArrayView<nat>,
}

impl View for TraceWidthVariable {
    type V = TraceWidthView;

    open spec fn view(&self) -> TraceWidthView {
        TraceWidthView {
            preprocessed: self.preprocessed@,
            partitioned_main: self.partitioned_main@,
            after_challenge: self.after_challenge@,
        }
    }
}

/// A width that may be absent, as a list of no counter or of one.
pub open spec fn optional_width(width: Option<usize>) -> Seq<usize> {
    match width {
        Some(w) => seq![w],
        None => Seq::empty(),
    }
}

impl Hintable for TraceWidth {
    type HintVariable = TraceWidthVariable;

    open spec fn in_range(&self) -> bool {
        &&& list_in_range(optional_width(self.preprocessed))
        &&& self.partitioned_main.in_range()
        &&& self.after_challenge.in_range()
    }

    open spec fn encoding(&self) -> Seq<Seq<nat>> {
        list_encoding(optional_width(self.preprocessed)) + self.partitioned_main.encoding()
            + self.after_challenge.encoding()
    }

    open spec fn content(&self) -> TraceWidthView {
        TraceWidthView {
            preprocessed: list_content(optional_width(self.preprocessed)),
            partitioned_main: self.partitioned_main.content(),
            after_challenge: self.after_challenge.content(),
        }
    }

    open spec fn decoding(stream: Seq<Seq<nat>>) -> Option<(TraceWidthView, Seq<Seq<nat>>)> {
        match Vec::<usize>::decoding(stream) {
            None => None,
            Some((preprocessed, rest)) => match Vec::<usize>::decoding(rest) {
                None => None,
                Some((partitioned_main, rest)) => match Vec::<usize>::decoding(rest) {
                    None => None,
                    Some((after_challenge, rest)) => Some(
                        (TraceWidthView { preprocessed, partitioned_main, after_challenge }, rest),
                    ),
                },
            },
        }
    }

    fn fits(&self) -> (ok: bool) {
        let preprocessed = match self.preprocessed {
            Some(w) => w.fits(),
            None => true,
        };
        proof {
            let widths = optional_width(self.preprocessed);
            if widths.len() > 0 {
                assert(widths[0].in_range() == preprocessed);
            }
        }
        preprocessed && self.partitioned_main.fits() && self.after_challenge.fits()
    }

    fn read(reader: &mut HintReader) -> (r: Result<TraceWidthVariable, HintError>) {
        let start = reader.mark();
        let preprocessed = read_field::<Vec<usize>>(reader, start)?;
        let partitioned_main = read_field::<Vec<usize>>(reader, start)?;
        let after_challenge = read_field::<Vec<usize>>(reader, start)?;

        let variable = TraceWidthVariable { preprocessed, partitioned_main, after_challenge };
        assert(variable@ == TraceWidthView {
            preprocessed: preprocessed@,
            partitioned_main: partitioned_main@,
            after_challenge: after_challenge@,
        });
        Ok(variable)
    }

    fn write(&self) -> (stream: Vec<Vec<BaseElem>>) {
        let mut stream: Vec<Vec<BaseElem>> = Vec::new();
        let mut preprocessed: Vec<usize> = Vec::new();
        match self.preprocessed {
            Some(w) => {
                preprocessed.push(w);
            },
            None => {},
        }
        assert(preprocessed@ =~= optional_width(self.preprocessed));

        write_field(&mut stream, &preprocessed);
        write_field(&mut stream, &self.partitioned_main);
        write_field(&mut stream, &self.after_challenge);

        stream
    }

    proof fn lemma_round_trip(&self, rest: Seq<Seq<nat>>) {
        let first = list_encoding(optional_width(self.preprocessed));
        let second = self.partitioned_main.encoding();
        let third = self.after_challenge.encoding();
        assert(self.encoding() + rest =~= first + (second + (third + rest)));
        lemma_list_round_trip(optional_width(self.preprocessed), second + (third + rest));
        self.partitioned_main.lemma_round_trip(third + rest);
        self.after_challenge.lemma_round_trip(rest);
    }

    proof fn lemma_leaves_suffix(stream: Seq<Seq<nat>>) {
        Vec::<usize>::lemma_leaves_suffix(stream);
        match Vec::<usize>::decoding(stream) {
            None => {},
            Some((_, after_first)) => {
                Vec::<usize>::lemma_leaves_suffix(after_first);
                match Vec::<usize>::decoding(after_first) {
                    None => {},
                    Some((_, after_second)) => {
                        lemma_suffix_of_suffix(after_second, after_first, stream);
                        Vec::<usize>::lemma_leaves_suffix(after_second);
                        match Vec::<usize>::decoding(after_second) {
                            None => {},
                            Some((_, after_third)) => {
                                lemma_suffix_of_suffix(after_third, after_second, stream);
                            },
                        }
                    },
                }
            },
        }
    }
}

/// The commitments of a proof: one digest for each commitment made.
#[derive(Debug, PartialEq, Eq)]
pub struct Commitments {
    pub main_trace: Vec<InnerDigest>,
    pub after_challenge: Vec<InnerDigest>,
    pub quotient: InnerDigest,
}

/// The commitments of a proof as the circuit holds them.
#[derive(Debug, PartialEq, Eq)]
pub struct CommitmentsVariable {
    pub main_trace: Array<Array<Felt>>,
    pub after_challenge: Array<Array<Felt>>,
    pub quotient: Array<Felt>,
}

/// What a `CommitmentsVariable` holds.
pub struct CommitmentsView {
    pub main_trace: ArrayView<ArrayView<nat>>,
    pub after_challenge: ArrayView<ArrayView<nat>>,
    pub quotient: ArrayView<nat>,
}

impl View for CommitmentsVariable {
    type V = CommitmentsView;

    open spec fn view(&self) -> CommitmentsView {
        CommitmentsView {
            main_trace: self.main_trace@,
            after_challenge: self.after_challenge@,
            quotient: self.quotient@,
        }
    }
}

impl Hintable for Commitments {
    type HintVariable = CommitmentsVariable;

    open spec fn in_range(&self) -> bool {
        &&& self.main_trace.in_range()
        &&& self.after_challenge.in_range()
        &&& self.quotient.in_range()
    }

    open spec fn encoding(&self) -> Seq<Seq<nat>> {
        self.main_trace.encoding() + self.after_challenge.encoding() + self.quotient.encoding()
    }

    open spec fn content(&self) -> CommitmentsView {
        CommitmentsView {
            main_trace: self.main_trace.content(),
            after_challenge: self.after_challenge.content(),
            quotient: self.quotient.content(),
        }
    }

    open spec fn decoding(stream: Seq<Seq<nat>>) -> Option<(CommitmentsView, Seq<Seq<nat>>)> {
        match Vec::<InnerDigest>::decoding(stream) {
            None => None,
            Some((main_trace, rest)) => match Vec::<InnerDigest>::decoding(rest) {
                None => None,
                Some((after_challenge, rest)) => match InnerDigest::decoding(rest) {
                    None => None,
                    Some((quotient, rest)) => Some(
                        (CommitmentsView { main_trace, after_challenge, quotient }, rest),
                    ),
                },
            },
        }
    }

    fn fits(&self) -> (ok: bool) {
        self.main_trace.fits() && self.after_challenge.fits() && self.quotient.fits()
    }

    fn read(reader: &mut HintReader) -> (r: Result<CommitmentsVariable, HintError>) {
        let start = reader.mark();
        let main_trace = read_field::<Vec<InnerDigest>>(reader, start)?;
        let after_challenge = read_field::<Vec<InnerDigest>>(reader, start)?;
        let quotient = read_field::<InnerDigest>(reader, start)?;

        let variable = CommitmentsVariable { main_trace, after_challenge, quotient };
        assert(variable@ == CommitmentsView {
            main_trace: main_trace@,
            after_challenge: after_challenge@,
            quotient: quotient@,
        });
        Ok(variable)
    }

    fn write(&self) -> (stream: Vec<Vec<BaseElem>>) {
        let mut stream: Vec<Vec<BaseElem>> = Vec::new();

        write_field(&mut stream, &self.main_trace);
        write_field(&mut stream, &self.after_challenge);
        write_field(&mut stream, &self.quotient);

        stream
    }

    proof fn lemma_round_trip(&self, rest: Seq<Seq<nat>>) {
        let first = self.main_trace.encoding();
        let second = self.after_challenge.encoding();
        let third = self.quotient.encoding();
        assert(self.encoding() + rest =~= first + (second + (third + rest)));
        self.main_trace.lemma_round_trip(second + (third + rest));
        self.after_challenge.lemma_round_trip(third + rest);
        self.quotient.lemma_round_trip(rest);
    }

    proof fn lemma_leaves_suffix(stream: Seq<Seq<nat>>) {
        Vec::<InnerDigest>::lemma_leaves_suffix(stream);
        match Vec::<InnerDigest>::decoding(stream) {
            None => {},
            Some((_, after_first)) => {
                Vec::<InnerDigest>::lemma_leaves_suffix(after_first);
                match Vec::<InnerDigest>::decoding(after_first) {
                    None => {},
                    Some((_, after_second)) => {
                        lemma_suffix_of_suffix(after_second, after_first, stream);
                        InnerDigest::lemma_leaves_suffix(after_second);
                        match InnerDigest::decoding(after_second) {
                            None => {},
                            Some((_, after_third)) => {
                                lemma_suffix_of_suffix(after_third, after_second, stream);
                            },
                        }
                    },
                }
            },
        }
    }
}

/// The values opened at a point and at its successor.
#[derive(Debug, PartialEq, Eq)]
pub struct AdjacentOpenedValues {
    pub local: Vec<ExtElem>,
    pub next: Vec<ExtElem>,
}

/// A pair of opened rows as the circuit holds it.
#[derive(Debug, PartialEq, Eq)]
pub struct AdjacentOpenedValuesVariable {
    pub local: Array<Ext>,
    pub next: Array<Ext>,
}

/// What an `AdjacentOpenedValuesVariable` holds.
pub struct AdjacentOpenedValuesView {
    pub local: ArrayView<Seq<nat>>,
    pub next: ArrayView<Seq<nat>>,
}

impl View for AdjacentOpenedValuesVariable {
    type V = AdjacentOpenedValuesView;

    open spec fn view(&self) -> AdjacentOpenedValuesView {
        AdjacentOpenedValuesView { local: self.local@, next: self.next@ }
    }
}

impl Hintable for AdjacentOpenedValues {
    type HintVariable = AdjacentOpenedValuesVariable;

    open spec fn in_range(&self) -> bool {
        self.local.in_range() && self.next.in_range()
    }

    open spec fn encoding(&self) -> Seq<Seq<nat>> {
        self.local.encoding() + self.next.encoding()
    }

    open spec fn content(&self) -> AdjacentOpenedValuesView {
        AdjacentOpenedValuesView { local: self.local.content(), next: self.next.content() }
    }

    open spec fn decoding(stream: Seq<Seq<nat>>) -> Option<
        (AdjacentOpenedValuesView, Seq<Seq<nat>>),
    > {
        match Vec::<ExtElem>::decoding(stream) {
            None => None,
            Some((local, rest)) => match Vec::<ExtElem>::decoding(rest) {
                None => None,
                Some((next, rest)) => Some((AdjacentOpenedValuesView { local, next }, rest)),
            },
        }
    }

    fn fits(&self) -> (ok: bool) {
        self.local.fits() && self.next.fits()
    }

    fn read(reader: &mut HintReader) -> (r: Result<AdjacentOpenedValuesVariable, HintError>) {
        let start = reader.mark();
        let local = read_field::<Vec<ExtElem>>(reader, start)?;
        let next = read_field::<Vec<ExtElem>>(reader, start)?;
        let variable = AdjacentOpenedValuesVariable { local, next };
        assert(variable@ == AdjacentOpenedValuesView { local: local@, next: next@ });
        Ok(variable)
    }

    fn write(&self) -> (stream: Vec<Vec<BaseElem>>) {
        let mut stream: Vec<Vec<BaseElem>> = Vec::new();
        write_field(&mut stream, &self.local);
        write_field(&mut stream, &self.next);
        stream
    }

    proof fn lemma_round_trip(&self, rest: Seq<Seq<nat>>) {
        let first = self.local.encoding();
        let second = self.next.encoding();
        assert(self.encoding() + rest =~= first + (second + rest));
        self.local.lemma_round_trip(second + rest);
        self.next.lemma_round_trip(rest);
    }

    proof fn lemma_leaves_suffix(stream: Seq<Seq<nat>>) {
        Vec::<ExtElem>::lemma_leaves_suffix(stream);
        match Vec::<ExtElem>::decoding(stream) {
            None => {},
            Some((_, after_first)) => {
                Vec::<ExtElem>::lemma_leaves_suffix(after_first);
                match Vec::<ExtElem>::decoding(after_first) {
                    None => {},
                    Some((_, after_second)) => {
                        lemma_suffix_of_suffix(after_second, after_first, stream);
                    },
                }
            },
        }
    }
}

impl VecAutoHintable for AdjacentOpenedValues {

}

impl VecAutoHintable for Vec<AdjacentOpenedValues> {

}

impl VecAutoHintable for Vec<Vec<AdjacentOpenedValues>> {

}

/// All the values that an opening proof opens.
#[derive(Debug, PartialEq, Eq)]
pub struct OpenedValues {
    pub preprocessed: Vec<AdjacentOpenedValues>,
    pub main: Vec<Vec<AdjacentOpenedValues>>,
    pub quotient: Vec<Vec<Vec<ExtElem>>>,
    pub after_challenge: Vec<Vec<AdjacentOpenedValues>>,
}

/// The opened values as the circuit holds them.
#[derive(Debug, PartialEq, Eq)]
pub struct OpenedValuesVariable {
    pub preprocessed: Array<AdjacentOpenedValuesVariable>,
    pub main: Array<Array<AdjacentOpenedValuesVariable>>,
    pub quotient: Array<Array<Array<Ext>>>,
    pub after_challenge: Array<Array<AdjacentOpenedValuesVariable>>,
}

/// What an `OpenedValuesVariable` holds.
pub struct OpenedValuesView {
    pub preprocessed: ArrayView<AdjacentOpenedValuesView>,
    pub main: ArrayView<ArrayView<AdjacentOpenedValuesView>>,
    pub quotient: ArrayView<ArrayView<ArrayView<Seq<nat>>>>,
    pub after_challenge: ArrayView<ArrayView<AdjacentOpenedValuesView>>,
}

impl View for OpenedValuesVariable {
    type V = OpenedValuesView;

    open spec fn view(&self) -> OpenedValuesView {
        OpenedValuesView {
            preprocessed: self.preprocessed@,
            main: self.main@,
            quotient: self.quotient@,
            after_challenge: self.after_challenge@,
        }
    }
}

impl Hintable for OpenedValues {
    type HintVariable = OpenedValuesVariable;

    open spec fn in_range(&self) -> bool {
        &&& self.preprocessed.in_range()
        &&& self.main.in_range()
        &&& self.quotient.in_range()
        &&& self.after_challenge.in_range()
    }

    open spec fn encoding(&self) -> Seq<Seq<nat>> {
        self.preprocessed.encoding() + self.main.encoding() + self.quotient.encoding()
            + self.after_challenge.encoding()
    }

    open spec fn content(&self) -> OpenedValuesView {
        OpenedValuesView {
            preprocessed: self.preprocessed.content(),
            main: self.main.content(),
            quotient: self.quotient.content(),
            after_challenge: self.after_challenge.content(),
        }
    }

    open spec fn decoding(stream: Seq<Seq<nat>>) -> Option<(OpenedValuesView, Seq<Seq<nat>>)> {
        match Vec::<AdjacentOpenedValues>::decoding(stream) {
            None => None,
            Some((preprocessed, rest)) => match Vec::<Vec<AdjacentOpenedValues>>::decoding(rest) {
                None => None,
                Some((main, rest)) => match Vec::<Vec<Vec<ExtElem>>>::decoding(rest) {
                    None => None,
                    Some((quotient, rest)) => match Vec::<Vec<AdjacentOpenedValues>>::decoding(
                        rest,
                    ) {
                        None => None,
                        Some((after_challenge, rest)) => Some(
                            (
                                OpenedValuesView { preprocessed, main, quotient, after_challenge },
                                rest,
                            ),
                        ),
                    },
                },
            },
        }
    }

    fn fits(&self) -> (ok: bool) {
        self.preprocessed.fits() && self.main.fits() && self.quotient.fits()
            && self.after_challenge.fits()
    }

    fn read(reader: &mut HintReader) -> (r: Result<OpenedValuesVariable, HintError>) {
        let start = reader.mark();
        let preprocessed = read_field::<Vec<AdjacentOpenedValues>>(reader, start)?;
        let main = read_field::<Vec<Vec<AdjacentOpenedValues>>>(reader, start)?;
        let quotient = read_field::<Vec<Vec<Vec<ExtElem>>>>(reader, start)?;
        let after_challenge = read_field::<Vec<Vec<AdjacentOpenedValues>>>(reader, start)?;

        let variable = OpenedValuesVariable { preprocessed, main, quotient, after_challenge };
        assert(variable@ == OpenedValuesView {
            preprocessed: preprocessed@,
            main: main@,
            quotient: quotient@,
            after_challenge: after_challenge@,
        });
        Ok(variable)
    }

    fn write(&self) -> (stream: Vec<Vec<BaseElem>>) {
        let mut stream: Vec<Vec<BaseElem>> = Vec::new();

        write_field(&mut stream, &self.preprocessed);
        write_field(&mut stream, &self.main);
        write_field(&mut stream, &self.quotient);
        write_field(&mut stream, &self.after_challenge);

        stream
    }

    proof fn lemma_round_trip(&self, rest: Seq<Seq<nat>>) {
        let first = self.preprocessed.encoding();
        let second = self.main.encoding();
        let third = self.quotient.encoding();
        let fourth = self.after_challenge.encoding();
        assert(self.encoding() + rest =~= first + (second + (third + (fourth + rest))));
        self.preprocessed.lemma_round_trip(second + (third + (fourth + rest)));
        self.main.lemma_round_trip(third + (fourth + rest));
        self.quotient.lemma_round_trip(fourth + rest);
        self.after_challenge.lemma_round_trip(rest);
    }

    proof fn lemma_leaves_suffix(stream: Seq<Seq<nat>>) {
        Vec::<AdjacentOpenedValues>::lemma_leaves_suffix(stream);
        match Vec::<AdjacentOpenedValues>::decoding(stream) {
            None => {},
            Some((_, after_first)) => {
                Vec::<Vec<AdjacentOpenedValues>>::lemma_leaves_suffix(after_first);
                match Vec::<Vec<AdjacentOpenedValues>>::decoding(after_first) {
                    None => {},
                    Some((_, after_second)) => {
                        lemma_suffix_of_suffix(after_second, after_first, stream);
                        Vec::<Vec<Vec<ExtElem>>>::lemma_leaves_suffix(after_second);
                        match Vec::<Vec<Vec<ExtElem>>>::decoding(after_second) {
                            None => {},
                            Some((_, after_third)) => {
                                lemma_suffix_of_suffix(after_third, after_second, stream);
                                Vec::<Vec<AdjacentOpenedValues>>::lemma_leaves_suffix(after_third);
                                match Vec::<Vec<AdjacentOpenedValues>>::decoding(after_third) {
                                    None => {},
                                    Some((_, after_fourth)) => {
                                        lemma_suffix_of_suffix(after_fourth, after_third, stream);
                                    },
                                }
                            },
                        }
                    },
                }
            },
        }
    }
}

/// An opening proof: the proof of the commitment scheme, carried by its own
/// codec, and the values it opens.
#[derive(Debug, PartialEq, Eq)]
pub struct OpeningProof<P> {
    pub proof: P,
    pub values: OpenedValues,
}

/// An opening proof as the circuit holds it.
#[derive(Debug, PartialEq, Eq)]
pub struct OpeningProofVariable<V> {
    pub proof: V,
    pub values: OpenedValuesVariable,
}

/// What an `OpeningProofVariable` holds.
pub struct OpeningProofView<T> {
    pub proof: T,
    pub values: OpenedValuesView,
}

impl<V: View> View for OpeningProofVariable<V> {
    type V = OpeningProofView<V::V>;

    open spec fn view(&self) -> OpeningProofView<V::V> {
        OpeningProofView { proof: self.proof@, values: self.values@ }
    }
}

impl<P: Hintable> Hintable for OpeningProof<P> {
    type HintVariable = OpeningProofVariable<P::HintVariable>;

    open spec fn in_range(&self) -> bool {
        self.proof.in_range() && self.values.in_range()
    }

    open spec fn encoding(&self) -> Seq<Seq<nat>> {
        self.proof.encoding() + self.values.encoding()
    }

    open spec fn content(&self) -> OpeningProofView<<P::HintVariable as View>::V> {
        OpeningProofView { proof: self.proof.content(), values: self.values.content() }
    }

    open spec fn decoding(stream: Seq<Seq<nat>>) -> Option<
        (OpeningProofView<<P::HintVariable as View>::V>, Seq<Seq<nat>>),
    > {
        match P::decoding(stream) {
            None => None,
            Some((proof, rest)) => match OpenedValues::decoding(rest) {
                None => None,
                Some((values, rest)) => Some((OpeningProofView { proof, values }, rest)),
            },
        }
    }

    fn fits(&self) -> (ok: bool) {
        self.proof.fits() && self.values.fits()
    }

    fn read(reader: &mut HintReader) -> (r: Result<
        OpeningProofVariable<P::HintVariable>,
        HintError,
    >) {
        let start = reader.mark();
        let proof = read_field::<P>(reader, start)?;
        let values = read_field::<OpenedValues>(reader, start)?;

        let variable = OpeningProofVariable { proof, values };
        assert(variable@ == OpeningProofView { proof: proof@, values: values@ });
        Ok(variable)
    }

    fn write(&self) -> (stream: Vec<Vec<BaseElem>>) {
        let mut stream: Vec<Vec<BaseElem>> = Vec::new();

        write_field(&mut stream, &self.proof);
        write_field(&mut stream, &self.values);

        stream
    }

    proof fn lemma_round_trip(&self, rest: Seq<Seq<nat>>) {
        let first = self.proof.encoding();
        let second = self.values.encoding();
        assert(self.encoding() + rest =~= first + (second + rest));
        self.proof.lemma_round_trip(second + rest);
        self.values.lemma_round_trip(rest);
    }

    proof fn lemma_leaves_suffix(stream: Seq<Seq<nat>>) {
        P::lemma_leaves_suffix(stream);
        match P::decoding(stream) {
            None => {},
            Some((_, after_first)) => {
                OpenedValues::lemma_leaves_suffix(after_first);
                match OpenedValues::decoding(after_first) {
                    None => {},
                    Some((_, after_second)) => {
                        lemma_suffix_of_suffix(after_second, after_first, stream);
                    },
                }
            },
        }
    }
}

/// A complete proof.
#[derive(Debug, PartialEq, Eq)]
pub struct Proof<P> {
    pub commitments: Commitments,
    pub opening: OpeningProof<P>,
    pub exposed_values_after_challenge: Vec<Vec<Vec<ExtElem>>>,
}

/// A complete proof as the circuit holds it.
#[derive(Debug, PartialEq, Eq)]
pub struct StarkProofVariable<V> {
    pub commitments: CommitmentsVariable,
    pub opening: OpeningProofVariable<V>,
    pub exposed_values_after_challenge: Array<Array<Array<Ext>>>,
}

/// What a `StarkProofVariable` holds.
pub struct StarkProofView<T> {
    pub commitments: CommitmentsView,
    pub opening: OpeningProofView<T>,
    pub exposed_values_after_challenge: ArrayView<ArrayView<ArrayView<Seq<nat>>>>,
}

impl<V: View> View for StarkProofVariable<V> {
    type V = StarkProofView<V::V>;

    open spec fn view(&self) -> StarkProofView<V::V> {
        StarkProofView {
            commitments: self.commitments@,
            opening: self.opening@,
            exposed_values_after_challenge: self.exposed_values_after_challenge@,
        }
    }
}

impl<P: Hintable> Hintable for Proof<P> {
    type HintVariable = StarkProofVariable<P::HintVariable>;

    open spec fn in_range(&self) -> bool {
        &&& self.commitments.in_range()
        &&& self.opening.in_range()
        &&& self.exposed_values_after_challenge.in_range()
    }

    open spec fn encoding(&self) -> Seq<Seq<nat>> {
        self.commitments.encoding() + self.opening.encoding()
            + self.exposed_values_after_challenge.encoding()
    }

    open spec fn content(&self) -> StarkProofView<<P::HintVariable as View>::V> {
        StarkProofView {
            commitments: self.commitments.content(),
            opening: self.opening.content(),
            exposed_values_after_challenge: self.exposed_values_after_challenge.content(),
        }
    }

    open spec fn decoding(stream: Seq<Seq<nat>>) -> Option<
        (StarkProofView<<P::HintVariable as View>::V>, Seq<Seq<nat>>),
    > {
        match Commitments::decoding(stream) {
            None => None,
            Some((commitments, rest)) => match OpeningProof::<P>::decoding(rest) {
                None => None,
                Some((opening, rest)) => match Vec::<Vec<Vec<ExtElem>>>::decoding(rest) {
                    None => None,
                    Some((exposed_values_after_challenge, rest)) => Some(
                        (
                            StarkProofView {
                                commitments,
                                opening,
                                exposed_values_after_challenge,
                            },
                            rest,
                        ),
                    ),
                },
            },
        }
    }

    fn fits(&self) -> (ok: bool) {
        self.commitments.fits() && self.opening.fits()
            && self.exposed_values_after_challenge.fits()
    }

    fn read(reader: &mut HintReader) -> (r: Result<
        StarkProofVariable<P::HintVariable>,
        HintError,
    >) {
        let start = reader.mark();
        let commitments = read_field::<Commitments>(reader, start)?;
        let opening = read_field::<OpeningProof<P>>(reader, start)?;
        let exposed_values_after_challenge = read_field::<Vec<Vec<Vec<ExtElem>>>>(
            reader,
            start,
        )?;

        let variable = StarkProofVariable { commitments, opening, exposed_values_after_challenge };
        assert(variable@ == StarkProofView {
            commitments: commitments@,
            opening: opening@,
            exposed_values_after_challenge: exposed_values_after_challenge@,
        });
        Ok(variable)
    }

    fn write(&self) -> (stream: Vec<Vec<BaseElem>>) {
        let mut stream: Vec<Vec<BaseElem>> = Vec::new();

        write_field(&mut stream, &self.commitments);
        write_field(&mut stream, &self.opening);
        write_field(&mut stream, &self.exposed_values_after_challenge);

        stream
    }

    proof fn lemma_round_trip(&self, rest: Seq<Seq<nat>>) {
        let first = self.commitments.encoding();
        let second = self.opening.encoding();
        let third = self.exposed_values_after_challenge.encoding();
        assert(self.encoding() + rest =~= first + (second + (third + rest)));
        self.commitments.lemma_round_trip(second + (third + rest));
        self.opening.lemma_round_trip(third + rest);
        self.exposed_values_after_challenge.lemma_round_trip(rest);
    }

    proof fn lemma_leaves_suffix(stream: Seq<Seq<nat>>) {
        Commitments::lemma_leaves_suffix(stream);
        match Commitments::decoding(stream) {
            None => {},
            Some((_, after_first)) => {
                OpeningProof::<P>::lemma_leaves_suffix(after_first);
                match OpeningProof::<P>::decoding(after_first) {
                    None => {},
                    Some((_, after_second)) => {
                        lemma_suffix_of_suffix(after_second, after_first, stream);
                        Vec::<Vec<Vec<ExtElem>>>::lemma_leaves_suffix(after_second);
                        match Vec::<Vec<Vec<ExtElem>>>::decoding(after_second) {
                            None => {},
                            Some((_, after_third)) => {
                                lemma_suffix_of_suffix(after_third, after_second, stream);
                            },
                        }
                    },
                }
            },
        }
    }
}

/// What the recursive verifier is given: a proof, the logarithm of the
/// degree of each circuit, and the public values of each.
#[derive(Debug, PartialEq, Eq)]
pub struct VerifierInput<P> {
    pub proof: Proof<P>,
    pub log_degree_per_air: Vec<usize>,
    pub public_values: Vec<Vec<BaseElem>>,
}

/// The verifier's input as the circuit holds it.
#[derive(Debug, PartialEq, Eq)]
pub struct VerifierInputVariable<V> {
    pub proof: StarkProofVariable<V>,
    pub log_degree_per_air: Array<Usize>,
    pub public_values: Array<Array<Felt>>,
}

/// What a `VerifierInputVariable` holds.
pub struct VerifierInputView<T> {
    pub proof: StarkProofView<T>,
    pub log_degree_per_air: ArrayView<nat>,
    pub public_values: ArrayView<ArrayView<nat>>,
}

impl<V: View> View for VerifierInputVariable<V> {
    type V = VerifierInputView<V::V>;

    open spec fn view(&self) -> VerifierInputView<V::V> {
        VerifierInputView {
            proof: self.proof@,
            log_degree_per_air: self.log_degree_per_air@,
            public_values: self.public_values@,
        }
    }
}

impl<P: Hintable> Hintable for VerifierInput<P> {
    type HintVariable = VerifierInputVariable<P::HintVariable>;

    open spec fn in_range(&self) -> bool {
        &&& self.proof.in_range()
        &&& self.log_degree_per_air.in_range()
        &&& self.public_values.in_range()
    }

    open spec fn encoding(&self) -> Seq<Seq<nat>> {
        self.proof.encoding() + self.log_degree_per_air.encoding() + self.public_values.encoding()
    }

    open spec fn content(&self) -> VerifierInputView<<P::HintVariable as View>::V> {
        VerifierInputView {
            proof: self.proof.content(),
            log_degree_per_air: self.log_degree_per_air.content(),
            public_values: self.public_values.content(),
        }
    }

    open spec fn decoding(stream: Seq<Seq<nat>>) -> Option<
        (VerifierInputView<<P::HintVariable as View>::V>, Seq<Seq<nat>>),
    > {
        match Proof::<P>::decoding(stream) {
            None => None,
            Some((proof, rest)) => match Vec::<usize>::decoding(rest) {
                None => None,
                Some((log_degree_per_air, rest)) => match Vec::<Vec<BaseElem>>::decoding(rest) {
                    None => None,
                    Some((public_values, rest)) => Some(
                        (VerifierInputView { proof, log_degree_per_air, public_values }, rest),
                    ),
                },
            },
        }
    }

    fn fits(&self) -> (ok: bool) {
        self.proof.fits() && self.log_degree_per_air.fits() && self.public_values.fits()
    }

    fn read(reader: &mut HintReader) -> (r: Result<
        VerifierInputVariable<P::HintVariable>,
        HintError,
    >) {
        let start = reader.mark();
        let proof = read_field::<Proof<P>>(reader, start)?;
        let raw_log_degree_per_air = read_field::<Vec<usize>>(reader, start)?;
        // The counters were read into a dynamic array, so the check that
        // guards the change of entry type cannot fail here.
        let log_degree_per_air = match raw_log_degree_per_air.into_sizes() {
            Ok(sizes) => sizes,
            Err(e) => {
                reader.rewind(start);
                return Err(e);
            },
        };
        let public_values = read_field::<Vec<Vec<BaseElem>>>(reader, start)?;

        let variable = VerifierInputVariable { proof, log_degree_per_air, public_values };
        assert(variable@ == VerifierInputView {
            proof: proof@,
            log_degree_per_air: log_degree_per_air@,
            public_values: public_values@,
        });
        Ok(variable)
    }

    fn write(&self) -> (stream: Vec<Vec<BaseElem>>) {
        let mut stream: Vec<Vec<BaseElem>> = Vec::new();

        write_field(&mut stream, &self.proof);
        write_field(&mut stream, &self.log_degree_per_air);
        write_field(&mut stream, &self.public_values);

        stream
    }

    proof fn lemma_round_trip(&self, rest: Seq<Seq<nat>>) {
        let first = self.proof.encoding();
        let second = self.log_degree_per_air.encoding();
        let third = self.public_values.encoding();
        assert(self.encoding() + rest =~= first + (second + (third + rest)));
        self.proof.lemma_round_trip(second + (third + rest));
        self.log_degree_per_air.lemma_round_trip(third + rest);
        self.public_values.lemma_round_trip(rest);
    }

    proof fn lemma_leaves_suffix(stream: Seq<Seq<nat>>) {
        Proof::<P>::lemma_leaves_suffix(stream);
        match Proof::<P>::decoding(stream) {
            None => {},
            Some((_, after_first)) => {
                Vec::<usize>::lemma_leaves_suffix(after_first);
                match Vec::<usize>::decoding(after_first) {
                    None => {},
                    Some((_, after_second)) => {
                        lemma_suffix_of_suffix(after_second, after_first, stream);
                        Vec::<Vec<BaseElem>>::lemma_leaves_suffix(after_second);
                        match Vec::<Vec<BaseElem>>::decoding(after_second) {
                            None => {},
                            Some((_, after_third)) => {
                                lemma_suffix_of_suffix(after_third, after_second, stream);
                            },
                        }
                    },
                }
            },
        }
    }
}

} // verus!
