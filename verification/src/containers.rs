//! The codecs of variable-length lists.

use crate::error::HintError;
use crate::field::{BaseElem, ExtElem, MODULUS};
use crate::hints::{Hintable, VecAutoHintable};
use crate::reader::{
    extensions_at_head, is_suffix, lemma_suffix_of_suffix, scalar_at_head, scalars_at_head,
    split_coefficients, HintReader,
};
use crate::record::write_field;
use crate::vars::{Array, ArrayView, Ext, Felt, Var};
use vstd::prelude::*;

verus! {

/// The chunks of the items of a list, one item after the other.
pub open spec fn encodings<I: Hintable>(items: Seq<I>) -> Seq<Seq<nat>>
    decreases items.len(),
{
    if items.len() == 0 {
        Seq::empty()
    } else {
        items[0].encoding() + encodings(items.skip(1))
    }
}

/// The contents of the items of a list, in order.
pub open spec fn contents<I: Hintable>(items: Seq<I>) -> Seq<<I::HintVariable as View>::V> {
    Seq::new(items.len(), |i: int| items[i].content())
}

/// Whether every item of a list can be encoded.
pub open spec fn all_in_range<I: Hintable>(items: Seq<I>) -> bool {
    forall|i: int| 0 <= i < items.len() ==> #[trigger] items[i].in_range()
}

/// What `count` reads of one item each make of a stream.
pub open spec fn decodings<I: Hintable>(stream: Seq<Seq<nat>>, count: nat) -> Option<
    (Seq<<I::HintVariable as View>::V>, Seq<Seq<nat>>),
>
    decreases count,
{
    if count == 0 {
        Some((Seq::empty(), stream))
    } else {
        match I::decoding(stream) {
            None => None,
            Some((first, rest)) => match decodings::<I>(rest, (count - 1) as nat) {
                None => None,
                Some((others, rest)) => Some((seq![first] + others, rest)),
            },
        }
    }
}

/// What reads of one item each make of a stream, given what was read before
/// them.
pub open spec fn decodings_after<I: Hintable>(
    done: Seq<<I::HintVariable as View>::V>,
    stream: Seq<Seq<nat>>,
    count: nat,
) -> Option<(Seq<<I::HintVariable as View>::V>, Seq<Seq<nat>>)> {
    match decodings::<I>(stream, count) {
        None => None,
        Some((others, rest)) => Some((done + others, rest)),
    }
}

/// Reads of `count` items rebuild exactly `count` contents.
pub proof fn lemma_decodings_len<I: Hintable>(stream: Seq<Seq<nat>>, count: nat)
    ensures
        match decodings::<I>(stream, count) {
            Some((items, rest)) => items.len() == count,
            None => true,
        },
    decreases count,
{
    if count > 0 {
        match I::decoding(stream) {
            None => {},
            Some((first, rest)) => {
                lemma_decodings_len::<I>(rest, (count - 1) as nat);
            },
        }
    }
}

/// The chunks of a list that ends in `last` are those of the list before it,
/// followed by those of `last`.
pub proof fn lemma_encodings_push<I: Hintable>(items: Seq<I>, last: I)
    ensures
        encodings(items.push(last)) == encodings(items) + last.encoding(),
    decreases items.len(),
{
    if items.len() == 0 {
        assert(items.push(last).skip(1) =~= Seq::<I>::empty());
        assert(encodings(items.push(last)) =~= last.encoding() + encodings(Seq::<I>::empty()));
    } else {
        lemma_encodings_push(items.skip(1), last);
        assert(items.push(last).skip(1) =~= items.skip(1).push(last));
    }
}

/// Reading as many items as a list has, from the chunks of its items
/// followed by anything, rebuilds the contents of the items and leaves what
/// followed.
pub proof fn lemma_items_round_trip<I: Hintable>(items: Seq<I>, rest: Seq<Seq<nat>>)
    requires
        all_in_range(items),
    ensures
        decodings::<I>(encodings(items) + rest, items.len()) == Some((contents(items), rest)),
    decreases items.len(),
{
    if items.len() > 0 {
        let tail = items.skip(1);
        let after = encodings(tail) + rest;
        assert(encodings(items) + rest =~= items[0].encoding() + after);
        items[0].lemma_round_trip(after);
        assert(all_in_range(tail));
        lemma_items_round_trip(tail, rest);
    }
}

/// Whether a list can be encoded by the generic container codec: its
/// length fits the base field, and so does every counter in its items.
pub open spec fn list_in_range<I: Hintable>(items: Seq<I>) -> bool {
    items.len() < MODULUS && all_in_range(items)
}

/// The chunks of a list under the generic container codec: one chunk with
/// the length, then the chunks of each item in order.
pub open spec fn list_encoding<I: Hintable>(items: Seq<I>) -> Seq<Seq<nat>> {
    seq![seq![items.len() as nat]] + encodings(items)
}

/// The content of a list: a dynamic array of the contents of its items.
pub open spec fn list_content<I: Hintable>(items: Seq<I>) -> ArrayView<
    <I::HintVariable as View>::V,
> {
    ArrayView::Dyn(contents(items))
}

/// What the generic container codec makes of a stream: it reads one scalar
/// as the count, then reads that many items.
pub open spec fn list_decoding<I: Hintable>(stream: Seq<Seq<nat>>) -> Option<
    (ArrayView<<I::HintVariable as View>::V>, Seq<Seq<nat>>),
> {
    match scalar_at_head(stream) {
        None => None,
        Some((count, rest)) => match decodings::<I>(rest, count) {
            None => None,
            Some((items, rest)) => Some((ArrayView::Dyn(items), rest)),
        },
    }
}

/// Tests whether a list can be encoded by the generic container codec.
pub fn list_fits<I: Hintable>(items: &Vec<I>) -> (ok: bool)
    ensures
        ok == list_in_range(items@),
{
    if items.len() >= MODULUS as usize {
        return false;
    }
    let mut i: usize = 0;
    while i < items.len()
        invariant
            i <= items.len(),
            forall|j: int| 0 <= j < i ==> #[trigger] items@[j].in_range(),
        decreases items.len() - i,
    {
        if !items[i].fits() {
            return false;
        }
        i += 1;
    }
    true
}

/// Decodes a list: reads one scalar as the count, allocates a dynamic array
/// for that many entries, then for each index from zero up to the count
/// decodes one item and stores it at that index.  On a mismatch the reader
/// stays where it was.
#[verifier::loop_isolation(false)]
pub fn read_list<I: Hintable>(reader: &mut HintReader) -> (r: Result<
    Array<I::HintVariable>,
    HintError,
>)
    ensures
        final(reader).stream() == old(reader).stream(),
        match r {
            Ok(array) => {
                &&& list_decoding::<I>(old(reader).remaining()) == Some(
                    (array@, final(reader).remaining()),
                )
                &&& final(reader).extent() == old(reader).extent()
            },
            Err(e) => {
                &&& list_decoding::<I>(old(reader).remaining()) is None
                &&& e == HintError::ProtocolMismatch
                &&& final(reader).position() == old(reader).position()
            },
        },
{
    let start = reader.mark();
    let len = match reader.hint_var() {
        Ok(len) => len,
        Err(e) => {
            return Err(e);
        },
    };
    let count: usize = len.value.as_canonical_u32() as usize;
    let ghost after_len = reader.remaining();
    let mut array: Array<I::HintVariable> = Array::dyn_array(&len);
    let mut i: usize = 0;
    while i < count
        invariant
            i <= count,
            array@ is Dyn,
            array@.items().len() == i,
            reader.stream() == old(reader).stream(),
            reader.extent() == old(reader).extent(),
            decodings::<I>(after_len, count as nat) == decodings_after::<I>(
                array@.items(),
                reader.remaining(),
                (count - i) as nat,
            ),
        decreases count - i,
    {
        match I::read(reader) {
            Ok(item) => {
                array.set(i, item);
            },
            Err(e) => {
                reader.rewind(start);
                return Err(e);
            },
        }
        i += 1;
    }
    Ok(array)
}

/// Encodes a list: one chunk with the length, then the chunks of each item
/// in order.
pub fn write_list<I: Hintable>(items: &Vec<I>) -> (stream: Vec<Vec<BaseElem>>)
    requires
        list_in_range(items@),
    ensures
        stream.deep_view() == list_encoding(items@),
{
    let mut stream: Vec<Vec<BaseElem>> = Vec::new();
    let len = BaseElem::from_canonical_usize(items.len());
    stream.push(vec![len]);
    assert(stream[0].deep_view() =~= seq![items@.len() as nat]);
    let mut i: usize = 0;
    while i < items.len()
        invariant
            i <= items.len(),
            list_in_range(items@),
            stream.deep_view() == seq![seq![items@.len() as nat]] + encodings(
                items@.take(i as int),
            ),
        decreases items.len() - i,
    {
        write_field(&mut stream, &items[i]);
        proof {
            lemma_encodings_push(items@.take(i as int), items@[i as int]);
            assert(items@.take(i + 1) =~= items@.take(i as int).push(items@[i as int]));
        }
        i += 1;
    }
    assert(items@.take(i as int) =~= items@);
    stream
}

/// The generic container codec decodes what it encodes.
pub proof fn lemma_list_round_trip<I: Hintable>(items: Seq<I>, rest: Seq<Seq<nat>>)
    requires
        list_in_range(items),
    ensures
        list_decoding::<I>(list_encoding(items) + rest) == Some((list_content(items), rest)),
{
    assert((list_encoding(items) + rest).skip(1) =~= encodings(items) + rest);
    lemma_items_round_trip(items, rest);
}

/// Reads of items consume chunks from the front, whole and in order.
pub proof fn lemma_decodings_leave_suffix<I: Hintable>(stream: Seq<Seq<nat>>, count: nat)
    ensures
        match decodings::<I>(stream, count) {
            Some((items, rest)) => is_suffix(rest, stream),
            None => true,
        },
    decreases count,
{
    if count == 0 {
        assert(stream.skip(0) =~= stream);
    } else {
        I::lemma_leaves_suffix(stream);
        match I::decoding(stream) {
            None => {},
            Some((first, middle)) => {
                lemma_decodings_leave_suffix::<I>(middle, (count - 1) as nat);
                match decodings::<I>(middle, (count - 1) as nat) {
                    None => {},
                    Some((others, rest)) => {
                        lemma_suffix_of_suffix(rest, middle, stream);
                    },
                }
            },
        }
    }
}

/// The generic container codec consumes chunks from the front, whole and in
/// order.
pub proof fn lemma_list_leaves_suffix<I: Hintable>(stream: Seq<Seq<nat>>)
    ensures
        match list_decoding::<I>(stream) {
            Some((content, rest)) => is_suffix(rest, stream),
            None => true,
        },
{
    match scalar_at_head(stream) {
        None => {},
        Some((count, middle)) => {
            lemma_decodings_leave_suffix::<I>(middle, count);
            match decodings::<I>(middle, count) {
                None => {},
                Some((items, rest)) => {
                    lemma_suffix_of_suffix(rest, middle, stream);
                },
            }
        },
    }
}

impl<I: VecAutoHintable> Hintable for Vec<I> {
    type HintVariable = Array<I::HintVariable>;

    open spec fn in_range(&self) -> bool {
        list_in_range(self@)
    }

    open spec fn encoding(&self) -> Seq<Seq<nat>> {
        list_encoding(self@)
    }

    open spec fn content(&self) -> ArrayView<<I::HintVariable as View>::V> {
        list_content(self@)
    }

    open spec fn decoding(stream: Seq<Seq<nat>>) -> Option<
        (ArrayView<<I::HintVariable as View>::V>, Seq<Seq<nat>>),
    > {
        list_decoding::<I>(stream)
    }

    fn fits(&self) -> (ok: bool) {
        list_fits(self)
    }

    fn read(reader: &mut HintReader) -> (r: Result<Array<I::HintVariable>, HintError>) {
        read_list::<I>(reader)
    }

    fn write(&self) -> (stream: Vec<Vec<BaseElem>>) {
        write_list(self)
    }

    proof fn lemma_round_trip(&self, rest: Seq<Seq<nat>>) {
        lemma_list_round_trip(self@, rest);
    }

    proof fn lemma_leaves_suffix(stream: Seq<Seq<nat>>) {
        lemma_list_leaves_suffix::<I>(stream);
    }
}

/// Lists of lists of extension elements use the generic container codec,
/// with the codec of extension lists for the items.
impl Hintable for Vec<Vec<ExtElem>> {
    type HintVariable = Array<Array<Ext>>;

    open spec fn in_range(&self) -> bool {
        list_in_range(self@)
    }

    open spec fn encoding(&self) -> Seq<Seq<nat>> {
        list_encoding(self@)
    }

    open spec fn content(&self) -> ArrayView<ArrayView<Seq<nat>>> {
        list_content(self@)
    }

    open spec fn decoding(stream: Seq<Seq<nat>>) -> Option<
        (ArrayView<ArrayView<Seq<nat>>>, Seq<Seq<nat>>),
    > {
        list_decoding::<Vec<ExtElem>>(stream)
    }

    fn fits(&self) -> (ok: bool) {
        list_fits(self)
    }

    fn read(reader: &mut HintReader) -> (r: Result<Array<Array<Ext>>, HintError>) {
        read_list::<Vec<ExtElem>>(reader)
    }

    fn write(&self) -> (stream: Vec<Vec<BaseElem>>) {
        write_list(self)
    }

    proof fn lemma_round_trip(&self, rest: Seq<Seq<nat>>) {
        lemma_list_round_trip(self@, rest);
    }

    proof fn lemma_leaves_suffix(stream: Seq<Seq<nat>>) {
        lemma_list_leaves_suffix::<Vec<ExtElem>>(stream);
    }
}

/// The counters of a list as natural numbers.
pub open spec fn counters(items: Seq<usize>) -> Seq<nat> {
    Seq::new(items.len(), |i: int| items[i] as nat)
}

/// The bytes of a list as natural numbers.
pub open spec fn bytes(items: Seq<u8>) -> Seq<nat> {
    Seq::new(items.len(), |i: int| items[i] as nat)
}

/// The coefficients of a list of extension elements in one run: four for
/// each element, constant term first.
pub open spec fn coefficients(items: Seq<ExtElem>) -> Seq<nat> {
    Seq::new(4 * items.len(), |j: int| items[j / 4]@[j % 4])
}

/// The elements of a list of extension elements as coefficient sequences.
pub open spec fn extensions(items: Seq<ExtElem>) -> Seq<Seq<nat>> {
    Seq::new(items.len(), |i: int| items[i]@)
}

/// Cutting the coefficient run of a list into fours gives its elements back.
pub proof fn lemma_split_coefficients(items: Seq<ExtElem>)
    ensures
        coefficients(items).len() == 4 * items.len(),
        split_coefficients(coefficients(items), items.len()) == extensions(items),
{
    let flat = coefficients(items);
    assert forall|i: int| 0 <= i < items.len() implies flat.subrange(4 * i, 4 * i + 4)
        == #[trigger] items[i]@ by {
    }
}

/// Lists of counters use the generic container codec: one chunk with the
/// length, then one chunk for each counter.
impl Hintable for Vec<usize> {
    type HintVariable = Array<Var>;

    open spec fn in_range(&self) -> bool {
        list_in_range(self@)
    }

    open spec fn encoding(&self) -> Seq<Seq<nat>> {
        list_encoding(self@)
    }

    open spec fn content(&self) -> ArrayView<nat> {
        list_content(self@)
    }

    open spec fn decoding(stream: Seq<Seq<nat>>) -> Option<(ArrayView<nat>, Seq<Seq<nat>>)> {
        list_decoding::<usize>(stream)
    }

    fn fits(&self) -> (ok: bool) {
        list_fits(self)
    }

    fn read(reader: &mut HintReader) -> (r: Result<Array<Var>, HintError>) {
        read_list::<usize>(reader)
    }

    fn write(&self) -> (stream: Vec<Vec<BaseElem>>) {
        write_list(self)
    }

    proof fn lemma_round_trip(&self, rest: Seq<Seq<nat>>) {
        lemma_list_round_trip(self@, rest);
    }

    proof fn lemma_leaves_suffix(stream: Seq<Seq<nat>>) {
        lemma_list_leaves_suffix::<usize>(stream);
    }
}

/// A list of bytes travels as one chunk of its values.  A reader takes the
/// length from the chunk, so no length chunk is written.
impl Hintable for Vec<u8> {
    type HintVariable = Array<Var>;

    open spec fn in_range(&self) -> bool {
        self@.len() < MODULUS
    }

    open spec fn encoding(&self) -> Seq<Seq<nat>> {
        seq![bytes(self@)]
    }

    open spec fn content(&self) -> ArrayView<nat> {
        ArrayView::Dyn(bytes(self@))
    }

    open spec fn decoding(stream: Seq<Seq<nat>>) -> Option<(ArrayView<nat>, Seq<Seq<nat>>)> {
        scalars_at_head(stream)
    }

    fn fits(&self) -> (ok: bool) {
        self.len() < MODULUS as usize
    }

    fn read(reader: &mut HintReader) -> (r: Result<Array<Var>, HintError>) {
        reader.hint_vars()
    }

    fn write(&self) -> (stream: Vec<Vec<BaseElem>>) {
        let mut chunk: Vec<BaseElem> = Vec::new();
        let mut i: usize = 0;
        while i < self.len()
            invariant
                i <= self.len(),
                chunk.deep_view() == bytes(self@).take(i as int),
            decreases self.len() - i,
        {
            chunk.push(BaseElem::from_canonical_u8(self[i]));
            assert(bytes(self@).take(i + 1) =~= bytes(self@).take(i as int).push(
                self@[i as int] as nat,
            ));
            i += 1;
        }
        assert(bytes(self@).take(i as int) =~= bytes(self@));
        let stream = vec![chunk];
        stream
    }

    proof fn lemma_round_trip(&self, rest: Seq<Seq<nat>>) {
    }

    proof fn lemma_leaves_suffix(stream: Seq<Seq<nat>>) {
    }
}

/// A list of base-field elements travels as one chunk of its values.  A
/// reader takes the length from the chunk, so no length chunk is written.
impl Hintable for Vec<BaseElem> {
    type HintVariable = Array<Felt>;

    open spec fn in_range(&self) -> bool {
        self@.len() < MODULUS
    }

    open spec fn encoding(&self) -> Seq<Seq<nat>> {
        seq![self.deep_view()]
    }

    open spec fn content(&self) -> ArrayView<nat> {
        ArrayView::Dyn(self.deep_view())
    }

    open spec fn decoding(stream: Seq<Seq<nat>>) -> Option<(ArrayView<nat>, Seq<Seq<nat>>)> {
        scalars_at_head(stream)
    }

    fn fits(&self) -> (ok: bool) {
        self.len() < MODULUS as usize
    }

    fn read(reader: &mut HintReader) -> (r: Result<Array<Felt>, HintError>) {
        reader.hint_felts()
    }

    fn write(&self) -> (stream: Vec<Vec<BaseElem>>) {
        let mut chunk: Vec<BaseElem> = Vec::new();
        let mut i: usize = 0;
        while i < self.len()
            invariant
                i <= self.len(),
                chunk@ == self@.take(i as int),
            decreases self.len() - i,
        {
            chunk.push(self[i]);
            i += 1;
        }
        assert(chunk.deep_view() =~= self.deep_view());
        let stream = vec![chunk];
        stream
    }

    proof fn lemma_round_trip(&self, rest: Seq<Seq<nat>>) {
    }

    proof fn lemma_leaves_suffix(stream: Seq<Seq<nat>>) {
    }
}

/// A list of extension elements travels as a chunk with the length and one
/// chunk with the coefficients of all elements.  An empty list is the chunk
/// with the length 0 and nothing else.
impl Hintable for Vec<ExtElem> {
    type HintVariable = Array<Ext>;

    open spec fn in_range(&self) -> bool {
        self@.len() < MODULUS
    }

    open spec fn encoding(&self) -> Seq<Seq<nat>> {
        if self@.len() == 0 {
            seq![seq![0nat]]
        } else {
            seq![seq![self@.len() as nat], coefficients(self@)]
        }
    }

    open spec fn content(&self) -> ArrayView<Seq<nat>> {
        ArrayView::Dyn(extensions(self@))
    }

    open spec fn decoding(stream: Seq<Seq<nat>>) -> Option<
        (ArrayView<Seq<nat>>, Seq<Seq<nat>>),
    > {
        extensions_at_head(stream)
    }

    fn fits(&self) -> (ok: bool) {
        self.len() < MODULUS as usize
    }

    fn read(reader: &mut HintReader) -> (r: Result<Array<Ext>, HintError>) {
        reader.hint_exts()
    }

    fn write(&self) -> (stream: Vec<Vec<BaseElem>>) {
        let len = BaseElem::from_canonical_usize(self.len());
        if self.len() == 0 {
            let stream = vec![vec![len]];
            assert(stream[0].deep_view() =~= seq![0nat]);
            return stream;
        }
        let mut chunk: Vec<BaseElem> = Vec::new();
        let mut i: usize = 0;
        while i < self.len()
            invariant
                i <= self.len(),
                chunk.deep_view() == coefficients(self@).take(4 * i),
            decreases self.len() - i,
        {
            let item = &self[i];
            chunk.push(item.coefficient(0));
            chunk.push(item.coefficient(1));
            chunk.push(item.coefficient(2));
            chunk.push(item.coefficient(3));
            proof {
                let e = self@[i as int]@;
                assert(coefficients(self@).take(4 * (i + 1)) =~= coefficients(self@).take(
                    4 * i,
                ).push(e[0]).push(e[1]).push(e[2]).push(e[3]));
            }
            i += 1;
        }
        assert(coefficients(self@).take(4 * i) =~= coefficients(self@));
        let stream = vec![vec![len], chunk];
        assert(stream[0].deep_view() =~= seq![self@.len() as nat]);
        stream
    }

    proof fn lemma_round_trip(&self, rest: Seq<Seq<nat>>) {
        lemma_split_coefficients(self@);
        if self@.len() == 0 {
            assert(extensions(self@) =~= Seq::<Seq<nat>>::empty());
        }
    }

    proof fn lemma_leaves_suffix(stream: Seq<Seq<nat>>) {
    }
}

impl VecAutoHintable for Vec<usize> {

}

impl VecAutoHintable for Vec<BaseElem> {

}

impl VecAutoHintable for Vec<Vec<ExtElem>> {

}

} // verus!
