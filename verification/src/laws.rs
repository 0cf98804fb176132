//! What holds of the codec as a whole.

use crate::containers::{
    bytes, contents, counters, encodings, extensions, lemma_decodings_len,
    lemma_list_round_trip, list_content, list_decoding, list_encoding, list_in_range,
};
use crate::field::{BaseElem, ExtElem, InnerDigest, DIGEST_SIZE};
use crate::hints::{digest_view, Hintable, VecAutoHintable};
use crate::reader::is_suffix;
use crate::vars::ArrayView;
use vstd::prelude::*;

verus! {

/// Round trip: for every type with a codec and every value of it that can
/// be encoded, decoding the value's chunks rebuilds the value's content,
/// consumes exactly those chunks and leaves whatever followed them.
pub proof fn lemma_round_trip_identity<T: Hintable>(value: T, rest: Seq<Seq<nat>>)
    requires
        value.in_range(),
    ensures
        T::decoding(value.encoding() + rest) == Some((value.content(), rest)),
        T::decoding(value.encoding()) == Some((value.content(), Seq::<Seq<nat>>::empty())),
{
    value.lemma_round_trip(rest);
    value.lemma_round_trip(Seq::empty());
}

/// No confusion: two values of a type that are encoded as the same chunks
/// have the same content.
pub proof fn lemma_encoding_determines_content<T: Hintable>(a: T, b: T)
    requires
        a.in_range(),
        b.in_range(),
        a.encoding() == b.encoding(),
    ensures
        a.content() == b.content(),
{
    a.lemma_round_trip(Seq::empty());
    b.lemma_round_trip(Seq::empty());
}

/// Stream order: whatever a type's decoding leaves is the stream without
/// some of its first chunks.  No chunk is skipped, taken out of order or
/// consumed in part.
pub proof fn lemma_chunks_consumed_in_order<T: Hintable>(stream: Seq<Seq<nat>>)
    ensures
        match T::decoding(stream) {
            Some((content, rest)) => is_suffix(rest, stream),
            None => true,
        },
{
    T::lemma_leaves_suffix(stream);
}

/// Empty list, generic container codec: the encoding is the single chunk
/// `[0]`, and decoding it gives an empty dynamic array after reading that
/// chunk alone, whatever follows it.
pub proof fn lemma_empty_list<I: Hintable>(items: Seq<I>, rest: Seq<Seq<nat>>)
    requires
        items.len() == 0,
    ensures
        list_in_range(items),
        list_encoding(items) == seq![seq![0nat]],
        list_decoding::<I>(seq![seq![0nat]] + rest) == Some(
            (ArrayView::Dyn(Seq::<<I::HintVariable as View>::V>::empty()), rest),
        ),
{
    lemma_list_round_trip(items, rest);
}

/// Empty list of extension elements: the encoding is the single chunk
/// `[0]`, and decoding it gives an empty dynamic array after reading that
/// chunk alone, whatever follows it.
pub proof fn lemma_empty_extension_list(items: Vec<ExtElem>, rest: Seq<Seq<nat>>)
    requires
        items@.len() == 0,
    ensures
        items.in_range(),
        items.encoding() == seq![seq![0nat]],
        Vec::<ExtElem>::decoding(seq![seq![0nat]] + rest) == Some(
            (ArrayView::Dyn(Seq::<Seq<nat>>::empty()), rest),
        ),
{
    items.lemma_round_trip(rest);
    assert(extensions(items@) =~= Seq::<Seq<nat>>::empty());
}

/// Empty list of base-field elements: the encoding is one chunk that holds
/// nothing, and decoding gives an empty dynamic array.
pub proof fn lemma_empty_scalar_list(items: Vec<BaseElem>, rest: Seq<Seq<nat>>)
    requires
        items@.len() == 0,
    ensures
        items.in_range(),
        items.encoding() == seq![Seq::<nat>::empty()],
        Vec::<BaseElem>::decoding(items.encoding() + rest) == Some(
            (ArrayView::Dyn(Seq::<nat>::empty()), rest),
        ),
{
    assert(items.deep_view() =~= Seq::<nat>::empty());
    items.lemma_round_trip(rest);
}

/// Empty list of counters: the encoding is the single chunk `[0]`, and
/// decoding it gives an empty dynamic array after reading that chunk alone,
/// whatever follows it.
pub proof fn lemma_empty_counter_list(items: Vec<usize>, rest: Seq<Seq<nat>>)
    requires
        items@.len() == 0,
    ensures
        items.in_range(),
        items.encoding() == seq![seq![0nat]],
        Vec::<usize>::decoding(seq![seq![0nat]] + rest) == Some(
            (ArrayView::Dyn(Seq::<nat>::empty()), rest),
        ),
{
    lemma_empty_list::<usize>(items@, rest);
}

/// Lists of counters: the encoding is one chunk with the length, followed by
/// one chunk of one value for each counter, in order, and the content is
/// the dynamic array of the counters.
pub proof fn lemma_counter_list_chunks(items: Vec<usize>)
    ensures
        items.content() == ArrayView::Dyn(counters(items@)),
        items.encoding().len() == items@.len() + 1,
        items.encoding()[0] == seq![items@.len() as nat],
        forall|i: int|
            0 <= i < items@.len() ==> #[trigger] items.encoding()[i + 1] == seq![
                items@[i] as nat,
            ],
{
    lemma_counter_chunks(items@);
    assert(contents(items@) =~= counters(items@));
}

/// The chunks of a run of counters: one chunk of one value for each.
pub proof fn lemma_counter_chunks(items: Seq<usize>)
    ensures
        encodings(items).len() == items.len(),
        forall|i: int| 0 <= i < items.len() ==> #[trigger] encodings(items)[i] == seq![
            items[i] as nat,
        ],
    decreases items.len(),
{
    if items.len() > 0 {
        lemma_counter_chunks(items.skip(1));
        assert forall|i: int| 0 <= i < items.len() implies #[trigger] encodings(items)[i]
            == seq![items[i] as nat] by {
            if i > 0 {
                assert(encodings(items.skip(1))[i - 1] == seq![items.skip(1)[i - 1] as nat]);
            }
        }
    }
}

/// Empty list of bytes: the encoding is one chunk that holds nothing, and
/// decoding gives an empty dynamic array.
pub proof fn lemma_empty_byte_list(items: Vec<u8>, rest: Seq<Seq<nat>>)
    requires
        items@.len() == 0,
    ensures
        items.in_range(),
        items.encoding() == seq![Seq::<nat>::empty()],
        Vec::<u8>::decoding(items.encoding() + rest) == Some(
            (ArrayView::Dyn(Seq::<nat>::empty()), rest),
        ),
{
    assert(bytes(items@) =~= Seq::<nat>::empty());
    items.lemma_round_trip(rest);
}

/// Nesting: under the generic container codec a list of lists decodes to a
/// dynamic array with one entry for each inner list, and each entry is a
/// dynamic array with the contents of the items of that inner list, in
/// order.
pub proof fn lemma_nested_round_trip<I: VecAutoHintable>(outer: Seq<Vec<I>>, rest: Seq<Seq<nat>>)
    requires
        list_in_range(outer),
    ensures
        list_decoding::<Vec<I>>(list_encoding(outer) + rest) == Some((list_content(outer), rest)),
        list_content(outer) is Dyn,
        list_content(outer).items().len() == outer.len(),
        forall|i: int|
            0 <= i < outer.len() ==> {
                &&& #[trigger] list_content(outer).items()[i] == ArrayView::Dyn(
                    contents(outer[i]@),
                )
                &&& list_content(outer).items()[i].items().len() == outer[i]@.len()
            },
{
    lemma_list_round_trip(outer, rest);
}

/// Nesting, for lists of lists of extension elements: the decoded array has
/// one entry for each inner list, and each entry holds the coefficients of
/// the elements of that inner list, in order.
pub proof fn lemma_nested_extension_round_trip(outer: Vec<Vec<ExtElem>>, rest: Seq<Seq<nat>>)
    requires
        outer.in_range(),
    ensures
        Vec::<Vec<ExtElem>>::decoding(outer.encoding() + rest) == Some((outer.content(), rest)),
        outer.content() is Dyn,
        outer.content().items().len() == outer@.len(),
        forall|i: int|
            0 <= i < outer@.len() ==> {
                &&& #[trigger] outer.content().items()[i] == ArrayView::Dyn(extensions(outer@[i]@))
                &&& outer.content().items()[i].items().len() == outer@[i]@.len()
            },
{
    outer.lemma_round_trip(rest);
}

/// Field order: a record of three counters is encoded as three chunks of one
/// value each, in the order in which the fields are declared.
pub proof fn lemma_record_order(a: usize, b: usize, c: usize)
    ensures
        (a, b, c).encoding() == seq![seq![a as nat], seq![b as nat], seq![c as nat]],
{
}

/// Element count: a list that decodes under the generic container codec
/// has as many entries as the count at its head says.
pub proof fn lemma_list_count<I: Hintable>(stream: Seq<Seq<nat>>)
    ensures
        match list_decoding::<I>(stream) {
            Some((content, rest)) => {
                &&& stream.len() > 0
                &&& stream[0].len() == 1
                &&& content is Dyn
                &&& content.items().len() == stream[0][0]
            },
            None => true,
        },
{
    if stream.len() > 0 && stream[0].len() == 1 {
        lemma_decodings_len::<I>(stream.skip(1), stream[0][0]);
    }
}

/// Digests have a fixed arity: the encoding of a digest is one chunk of
/// `DIGEST_SIZE` values and no length chunk, and decoding reads one chunk
/// of that size into a fixed array and nothing more.
pub proof fn lemma_digest_fixed_arity(digest: InnerDigest, stream: Seq<Seq<nat>>)
    ensures
        digest.in_range(),
        digest.encoding().len() == 1,
        digest.encoding()[0].len() == DIGEST_SIZE,
        digest.encoding()[0] == digest_view(digest),
        match InnerDigest::decoding(stream) {
            Some((content, rest)) => {
                &&& stream.len() > 0
                &&& stream[0].len() == DIGEST_SIZE
                &&& content == ArrayView::Fixed(stream[0])
                &&& rest == stream.skip(1)
            },
            None => stream.len() == 0 || stream[0].len() != DIGEST_SIZE,
        },
{
}

} // verus!
