//! The read environment of decoding: a hint stream and the place of the next
//! chunk that has not been consumed.
//!
//! A stream carries no tags.  What keeps the two sides in step is that every
//! read request consumes whole chunks, in order, and asks for the shape that
//! the matching write gave them: one value for a scalar, four for an
//! extension element, a fixed number for a digest.  A chunk of any other
//! shape is a mismatch of protocol: the request fails and the reader stays
//! where it was.

use crate::error::HintError;
use crate::field::{BaseElem, ExtElem, DIGEST_SIZE};
use crate::vars::{lemma_views_push, views, Array, ArrayView, Ext, Felt, Var};
use vstd::prelude::*;

verus! {

/// Whether `rest` is what is left of `stream` after some of its first chunks
/// were consumed, in order and whole.
pub open spec fn is_suffix(rest: Seq<Seq<nat>>, stream: Seq<Seq<nat>>) -> bool {
    rest.len() <= stream.len() && rest == stream.skip(stream.len() - rest.len())
}

/// What is left of what is left is left of the whole.
pub proof fn lemma_suffix_of_suffix(
    rest: Seq<Seq<nat>>,
    middle: Seq<Seq<nat>>,
    stream: Seq<Seq<nat>>,
)
    requires
        is_suffix(rest, middle),
        is_suffix(middle, stream),
    ensures
        is_suffix(rest, stream),
{
    assert(rest =~= stream.skip(stream.len() - rest.len()));
}

/// A read of one scalar: the next chunk holds exactly one value.
pub open spec fn scalar_at_head(stream: Seq<Seq<nat>>) -> Option<(nat, Seq<Seq<nat>>)> {
    if stream.len() > 0 && stream[0].len() == 1 {
        Some((stream[0][0], stream.skip(1)))
    } else {
        None
    }
}

/// A read of one extension element: the next chunk holds exactly its four
/// coefficients.
pub open spec fn extension_at_head(stream: Seq<Seq<nat>>) -> Option<(Seq<nat>, Seq<Seq<nat>>)> {
    if stream.len() > 0 && stream[0].len() == 4 {
        Some((stream[0], stream.skip(1)))
    } else {
        None
    }
}

/// A read of a run of scalars: the next chunk, whatever its length.
pub open spec fn scalars_at_head(stream: Seq<Seq<nat>>) -> Option<
    (ArrayView<nat>, Seq<Seq<nat>>),
> {
    if stream.len() > 0 {
        Some((ArrayView::Dyn(stream[0]), stream.skip(1)))
    } else {
        None
    }
}

/// The extension elements that a chunk of coefficients holds, four
/// coefficients each, constant term first.
pub open spec fn split_coefficients(chunk: Seq<nat>, count: nat) -> Seq<Seq<nat>> {
    Seq::new(count, |i: int| chunk.subrange(4 * i, 4 * i + 4))
}

/// A read of a run of extension elements: a chunk with the count and, where
/// the count is not 0, one chunk with four coefficients for each element.
/// On a count of 0 nothing after the count is read.
pub open spec fn extensions_at_head(stream: Seq<Seq<nat>>) -> Option<
    (ArrayView<Seq<nat>>, Seq<Seq<nat>>),
> {
    if stream.len() > 0 && stream[0].len() == 1 {
        if stream[0][0] == 0 {
            Some((ArrayView::Dyn(Seq::empty()), stream.skip(1)))
        } else if stream.len() > 1 && stream[1].len() == 4 * stream[0][0] {
            Some((ArrayView::Dyn(split_coefficients(stream[1], stream[0][0])), stream.skip(2)))
        } else {
            None
        }
    } else {
        None
    }
}

/// A read of a digest: the next chunk holds exactly `size` values.
pub open spec fn digest_at_head(stream: Seq<Seq<nat>>, size: nat) -> Option<
    (ArrayView<nat>, Seq<Seq<nat>>),
> {
    if stream.len() > 0 && stream[0].len() == size {
        Some((ArrayView::Fixed(stream[0]), stream.skip(1)))
    } else {
        None
    }
}

/// Replays a hint stream: every read request consumes whole chunks, in order.
pub struct HintReader {
    stream: Vec<Vec<BaseElem>>,
    cursor: usize,
}

impl HintReader {
    /// The whole stream, consumed chunks included.
    pub closed spec fn stream(&self) -> Seq<Seq<nat>> {
        self.stream.deep_view()
    }

    /// The number of chunks consumed so far.
    pub closed spec fn position(&self) -> nat {
        self.cursor as nat
    }

    /// The chunks that have not been consumed.
    pub open spec fn remaining(&self) -> Seq<Seq<nat>> {
        if self.position() <= self.stream().len() {
            self.stream().skip(self.position() as int)
        } else {
            Seq::empty()
        }
    }

    /// The place where the chunks that have not been consumed end.  Reads
    /// move the position towards it and leave it where it is.
    pub open spec fn extent(&self) -> nat {
        self.position() + self.remaining().len()
    }

    /// A reader at the start of `stream`.
    pub fn new(stream: Vec<Vec<BaseElem>>) -> (reader: HintReader)
        ensures
            reader.stream() == stream.deep_view(),
            reader.position() == 0,
            reader.remaining() == stream.deep_view(),
    {
        let reader = HintReader { stream, cursor: 0 };
        reader
    }

    /// The number of chunks consumed so far.
    pub fn mark(&self) -> (position: usize)
        ensures
            position == self.position(),
    {
        self.cursor
    }

    /// Goes back, or forth, to a place in the stream.
    pub fn rewind(&mut self, position: usize)
        ensures
            final(self).stream() == old(self).stream(),
            final(self).position() == position,
    {
        self.cursor = position;
    }

    /// Whether every chunk has been consumed.
    pub fn is_exhausted(&self) -> (b: bool)
        ensures
            b == (self.remaining().len() == 0),
    {
        self.cursor >= self.stream.len()
    }

    /// Reads one scalar as a native counter.
    pub fn hint_var(&mut self) -> (r: Result<Var, HintError>)
        ensures
            final(self).stream() == old(self).stream(),
            match r {
                Ok(var) => {
                    &&& scalar_at_head(old(self).remaining()) == Some(
                        (var@, final(self).remaining()),
                    )
                    &&& final(self).extent() == old(self).extent()
                },
                Err(e) => {
                    &&& scalar_at_head(old(self).remaining()) is None
                    &&& e == HintError::ProtocolMismatch
                    &&& final(self).position() == old(self).position()
                },
            },
    {
        if self.cursor < self.stream.len() && self.stream[self.cursor].len() == 1 {
            let value = self.stream[self.cursor][0];
            self.cursor = self.cursor + 1;
            Ok(Var { value })
        } else {
            Err(HintError::ProtocolMismatch)
        }
    }

    /// Reads one extension element: a chunk of its four coefficients.
    pub fn hint_ext(&mut self) -> (r: Result<Ext, HintError>)
        ensures
            final(self).stream() == old(self).stream(),
            match r {
                Ok(ext) => {
                    &&& extension_at_head(old(self).remaining()) == Some(
                        (ext@, final(self).remaining()),
                    )
                    &&& final(self).extent() == old(self).extent()
                },
                Err(e) => {
                    &&& extension_at_head(old(self).remaining()) is None
                    &&& e == HintError::ProtocolMismatch
                    &&& final(self).position() == old(self).position()
                },
            },
    {
        if self.cursor < self.stream.len() && self.stream[self.cursor].len() == 4 {
            let chunk = &self.stream[self.cursor];
            let value = ExtElem::new([chunk[0], chunk[1], chunk[2], chunk[3]]);
            self.cursor = self.cursor + 1;
            Ok(Ext { value })
        } else {
            Err(HintError::ProtocolMismatch)
        }
    }

    /// Reads a whole chunk as a dynamic array of native counters.
    pub fn hint_vars(&mut self) -> (r: Result<Array<Var>, HintError>)
        ensures
            final(self).stream() == old(self).stream(),
            match r {
                Ok(array) => {
                    &&& scalars_at_head(old(self).remaining()) == Some(
                        (array@, final(self).remaining()),
                    )
                    &&& final(self).extent() == old(self).extent()
                },
                Err(e) => {
                    &&& scalars_at_head(old(self).remaining()) is None
                    &&& e == HintError::ProtocolMismatch
                    &&& final(self).position() == old(self).position()
                },
            },
    {
        if self.cursor >= self.stream.len() {
            return Err(HintError::ProtocolMismatch);
        }
        let chunk = &self.stream[self.cursor];
        let mut items: Vec<Var> = Vec::new();
        let mut i: usize = 0;
        while i < chunk.len()
            invariant
                i <= chunk.len(),
                views(items@) == chunk.deep_view().take(i as int),
            decreases chunk.len() - i,
        {
            proof {
                lemma_views_push(items@, Var { value: chunk[i as int] });
            }
            items.push(Var { value: chunk[i] });
            i += 1;
        }
        assert(chunk.deep_view().take(i as int) =~= chunk.deep_view());
        self.cursor = self.cursor + 1;
        Ok(Array::Dyn(items))
    }

    /// Reads a whole chunk as a dynamic array of base-field variables.
    pub fn hint_felts(&mut self) -> (r: Result<Array<Felt>, HintError>)
        ensures
            final(self).stream() == old(self).stream(),
            match r {
                Ok(array) => {
                    &&& scalars_at_head(old(self).remaining()) == Some(
                        (array@, final(self).remaining()),
                    )
                    &&& final(self).extent() == old(self).extent()
                },
                Err(e) => {
                    &&& scalars_at_head(old(self).remaining()) is None
                    &&& e == HintError::ProtocolMismatch
                    &&& final(self).position() == old(self).position()
                },
            },
    {
        if self.cursor >= self.stream.len() {
            return Err(HintError::ProtocolMismatch);
        }
        let items = felts_of(&self.stream[self.cursor]);
        self.cursor = self.cursor + 1;
        Ok(Array::Dyn(items))
    }

    /// Reads a digest: one chunk of exactly `DIGEST_SIZE` scalars, taken in
    /// index order into a fixed array.  No length is read.
    pub fn hint_digest(&mut self) -> (r: Result<Array<Felt>, HintError>)
        ensures
            final(self).stream() == old(self).stream(),
            match r {
                Ok(array) => {
                    &&& digest_at_head(old(self).remaining(), DIGEST_SIZE as nat) == Some(
                        (array@, final(self).remaining()),
                    )
                    &&& final(self).extent() == old(self).extent()
                },
                Err(e) => {
                    &&& digest_at_head(old(self).remaining(), DIGEST_SIZE as nat) is None
                    &&& e == HintError::ProtocolMismatch
                    &&& final(self).position() == old(self).position()
                },
            },
    {
        if self.cursor >= self.stream.len() || self.stream[self.cursor].len() != DIGEST_SIZE {
            return Err(HintError::ProtocolMismatch);
        }
        let items = felts_of(&self.stream[self.cursor]);
        self.cursor = self.cursor + 1;
        Ok(Array::Fixed(items))
    }

    /// Reads a run of extension elements: one scalar as their count, then,
    /// unless the count is 0, one chunk that holds four coefficients for
    /// each.
    pub fn hint_exts(&mut self) -> (r: Result<Array<Ext>, HintError>)
        ensures
            final(self).stream() == old(self).stream(),
            match r {
                Ok(array) => {
                    &&& extensions_at_head(old(self).remaining()) == Some(
                        (array@, final(self).remaining()),
                    )
                    &&& final(self).extent() == old(self).extent()
                },
                Err(e) => {
                    &&& extensions_at_head(old(self).remaining()) is None
                    &&& e == HintError::ProtocolMismatch
                    &&& final(self).position() == old(self).position()
                },
            },
    {
        let total = self.stream.len();
        if self.cursor >= total || self.stream[self.cursor].len() != 1 {
            return Err(HintError::ProtocolMismatch);
        }
        let count: usize = self.stream[self.cursor][0].as_canonical_u32() as usize;
        if count == 0 {
            self.cursor = self.cursor + 1;
            let items: Vec<Ext> = Vec::new();
            assert(views(items@) =~= Seq::<Seq<nat>>::empty());
            return Ok(Array::Dyn(items));
        }
        if total - self.cursor < 2 {
            return Err(HintError::ProtocolMismatch);
        }
        let chunk = &self.stream[self.cursor + 1];
        if chunk.len() % 4 != 0 || chunk.len() / 4 != count {
            return Err(HintError::ProtocolMismatch);
        }
        let ghost data = chunk.deep_view();
        let mut items: Vec<Ext> = Vec::new();
        let mut i: usize = 0;
        while i < count
            invariant
                i <= count,
                chunk.len() == 4 * count,
                data == chunk.deep_view(),
                views(items@) == split_coefficients(data, i as nat),
            decreases count - i,
        {
            let value = ExtElem::new(
                [chunk[4 * i], chunk[4 * i + 1], chunk[4 * i + 2], chunk[4 * i + 3]],
            );
            proof {
                assert(value@ =~= data.subrange(4 * i, 4 * i + 4));
                lemma_views_push(items@, Ext { value });
            }
            items.push(Ext { value });
            i += 1;
        }
        self.cursor = self.cursor + 2;
        Ok(Array::Dyn(items))
    }

    /// Reads one scalar as a base-field variable.
    pub fn hint_felt(&mut self) -> (r: Result<Felt, HintError>)
        ensures
            final(self).stream() == old(self).stream(),
            match r {
                Ok(felt) => {
                    &&& scalar_at_head(old(self).remaining()) == Some(
                        (felt@, final(self).remaining()),
                    )
                    &&& final(self).extent() == old(self).extent()
                },
                Err(e) => {
                    &&& scalar_at_head(old(self).remaining()) is None
                    &&& e == HintError::ProtocolMismatch
                    &&& final(self).position() == old(self).position()
                },
            },
    {
        match self.hint_var() {
            Ok(var) => Ok(Felt { value: var.value }),
            Err(e) => Err(e),
        }
    }
}

/// The scalars of a chunk as base-field variables, in order.
fn felts_of(chunk: &Vec<BaseElem>) -> (items: Vec<Felt>)
    ensures
        views(items@) == chunk.deep_view(),
{
    let mut items: Vec<Felt> = Vec::new();
    let mut i: usize = 0;
    while i < chunk.len()
        invariant
            i <= chunk.len(),
            views(items@) == chunk.deep_view().take(i as int),
        decreases chunk.len() - i,
    {
        proof {
            lemma_views_push(items@, Felt { value: chunk[i as int] });
        }
        items.push(Felt { value: chunk[i] });
        i += 1;
    }
    items
}

} // verus!
