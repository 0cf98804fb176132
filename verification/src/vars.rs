//! The values that decoding produces: scalar variables, extension variables
//! and arrays of them.

use crate::error::HintError;
use crate::field::{BaseElem, ExtElem};
use vstd::prelude::*;

verus! {

/// A native counter of the circuit, carried as one base-field element.
#[derive(Clone, Copy, Debug, PartialEq, Eq)]
pub struct Var {
    pub value: BaseElem,
}

/// A counter that sizes or indexes an array, carried as one base-field element.
#[derive(Clone, Copy, Debug, PartialEq, Eq)]
pub struct Usize {
    pub value: BaseElem,
}

/// A base-field variable.
#[derive(Clone, Copy, Debug, PartialEq, Eq)]
pub struct Felt {
    pub value: BaseElem,
}

/// An extension-field variable.
#[derive(Clone, Copy, Debug, PartialEq, Eq)]
pub struct Ext {
    pub value: ExtElem,
}

impl View for Var {
    type V = nat;

    open spec fn view(&self) -> nat {
        self.value@
    }
}

impl View for Usize {
    type V = nat;

    open spec fn view(&self) -> nat {
        self.value@
    }
}

impl View for Felt {
    type V = nat;

    open spec fn view(&self) -> nat {
        self.value@
    }
}

impl View for Ext {
    type V = Seq<nat>;

    open spec fn view(&self) -> Seq<nat> {
        self.value@
    }
}

/// An array of variables.  A fixed array has a length known when the circuit
/// is built; a dynamic one is sized by a value read while the circuit runs.
#[derive(Debug, PartialEq, Eq)]
pub enum Array<V> {
    Fixed(Vec<V>),
    Dyn(Vec<V>),
}

/// What an array holds: its kind and the contents of its entries, in order.
pub enum ArrayView<T> {
    Fixed(Seq<T>),
    Dyn(Seq<T>),
}

impl<T> ArrayView<T> {
    /// The entries, whatever the kind.
    pub open spec fn items(self) -> Seq<T> {
        match self {
            ArrayView::Fixed(items) => items,
            ArrayView::Dyn(items) => items,
        }
    }
}

/// The contents of a run of variables, in order.
pub open spec fn views<V: View>(items: Seq<V>) -> Seq<V::V> {
    items.map_values(|v: V| v@)
}

/// The contents of a run that ends in `last` are those of the run before
/// it, followed by the content of `last`.
pub proof fn lemma_views_push<V: View>(items: Seq<V>, last: V)
    ensures
        views(items.push(last)) == views(items).push(last@),
{
}

impl<V: View> View for Array<V> {
    type V = ArrayView<V::V>;

    open spec fn view(&self) -> ArrayView<V::V> {
        match self {
            Array::Fixed(items) => ArrayView::Fixed(views(items@)),
            Array::Dyn(items) => ArrayView::Dyn(views(items@)),
        }
    }
}

impl<V: View> Array<V> {
    /// A dynamic array for `len` entries, none of them stored yet.  The
    /// storage grows as entries are stored: nothing is reserved on the word
    /// of a length that the stream may not honour.
    pub fn dyn_array(len: &Var) -> (array: Array<V>)
        ensures
            array@ == ArrayView::Dyn(Seq::<V::V>::empty()),
    {
        let array = Array::Dyn(Vec::new());
        assert(array@.items() =~= Seq::<V::V>::empty());
        array
    }

    /// Stores `value` at `index`, the first index that holds no entry yet.
    pub fn set(&mut self, index: usize, value: V)
        requires
            index == old(self)@.items().len(),
        ensures
            final(self)@.items() == old(self)@.items().push(value@),
            (final(self)@ is Dyn) == (old(self)@ is Dyn),
    {
        proof {
            match self {
                Array::Fixed(items) => lemma_views_push(items@, value),
                Array::Dyn(items) => lemma_views_push(items@, value),
            }
        }
        match self {
            Array::Fixed(items) => items.push(value),
            Array::Dyn(items) => items.push(value),
        }
    }

    /// The number of entries.
    pub fn len(&self) -> (n: usize)
        ensures
            n == self@.items().len(),
    {
        match self {
            Array::Fixed(items) => items.len(),
            Array::Dyn(items) => items.len(),
        }
    }

    /// The entry at `index`.
    pub fn get(&self, index: usize) -> (v: &V)
        requires
            index < self@.items().len(),
        ensures
            v@ == self@.items()[index as int],
    {
        match self {
            Array::Fixed(items) => &items[index],
            Array::Dyn(items) => &items[index],
        }
    }

    /// Whether the array is sized by a value read while the circuit runs.
    pub fn is_dyn(&self) -> (b: bool)
        ensures
            b == (self@ is Dyn),
    {
        match self {
            Array::Fixed(_) => false,
            Array::Dyn(_) => true,
        }
    }
}

impl Array<Var> {
    /// Takes a dynamic array of counters as an array of sizes.  The entries
    /// keep their values.  A fixed array has no run-time length to carry
    /// over and is refused.
    pub fn into_sizes(self) -> (r: Result<Array<Usize>, HintError>)
        ensures
            match r {
                Ok(sizes) => self@ is Dyn && sizes@ == self@,
                Err(e) => self@ is Fixed && e == HintError::ProtocolMismatch,
            },
    {
        match self {
            Array::Dyn(items) => {
                let mut sizes: Vec<Usize> = Vec::new();
                let mut i: usize = 0;
                while i < items.len()
                    invariant
                        i <= items.len(),
                        views(sizes@) == views(items@).take(i as int),
                    decreases items.len() - i,
                {
                    proof {
                        lemma_views_push(sizes@, Usize { value: items[i as int].value });
                    }
                    sizes.push(Usize { value: items[i].value });
                    i += 1;
                }
                assert(views(items@).take(i as int) =~= views(items@));
                Ok(Array::Dyn(sizes))
            },
            Array::Fixed(_) => Err(HintError::ProtocolMismatch),
        }
    }
}

} // verus!
