//! The provers whose proofs the codec carries into the circuit.  What a
//! prover does is not the codec's concern: only the shape of what it hands
//! back is.

use crate::error::HintError;
use crate::field::BaseElem;
use crate::hints::{try_write, Hintable};
use crate::proof_shape::Proof;
use vstd::prelude::*;

verus! {

/// The proof of a run that was cut into segments: one proof for each
/// segment, in order, and one proof that binds the public values of the run
/// to a commitment.  The latter is carried as it is.
pub struct ContinuationVmProof<P, U> {
    pub per_segment: Vec<Proof<P>>,
    pub user_public_values: U,
}

/// Prover for a specific program in a specific continuation machine.
pub trait ContinuationVmProver<P, U> {
    fn prove(&self, input: Vec<Vec<BaseElem>>) -> ContinuationVmProof<P, U>;
}

/// Prover for a specific program in a specific single-segment machine.
pub trait SingleSegmentVmProver<P> {
    fn prove(&self, input: Vec<Vec<BaseElem>>) -> Proof<P>;
}

/// The streams of the first `count` proofs of a run, one stream for each.
pub open spec fn segment_encodings<P: Hintable>(proofs: Seq<Proof<P>>, count: int) -> Seq<
    Seq<Seq<nat>>,
> {
    Seq::new(count as nat, |i: int| proofs[i].encoding())
}

/// The streams as sequences of chunks of natural numbers.
pub open spec fn streams_view(streams: Seq<Vec<Vec<BaseElem>>>) -> Seq<Seq<Seq<nat>>> {
    Seq::new(streams.len(), |i: int| streams[i].deep_view())
}

impl<P: Hintable, U> ContinuationVmProof<P, U> {
    /// Whether every per-segment proof can be encoded.
    pub open spec fn in_range(&self) -> bool {
        forall|i: int| 0 <= i < self.per_segment@.len() ==> #[trigger] self.per_segment@[i].in_range()
    }

    /// Encodes each per-segment proof by the codec of proofs: one stream for
    /// each segment, in order.  A proof with a counter that does not fit the
    /// field stops the encoding.
    pub fn write_per_segment(&self) -> (r: Result<Vec<Vec<Vec<BaseElem>>>, HintError>)
        ensures
            match r {
                Ok(streams) => {
                    &&& self.in_range()
                    &&& streams_view(streams@) == segment_encodings(
                        self.per_segment@,
                        self.per_segment@.len() as int,
                    )
                },
                Err(e) => !self.in_range() && e == HintError::RangeViolation,
            },
    {
        let mut streams: Vec<Vec<Vec<BaseElem>>> = Vec::new();
        let mut i: usize = 0;
        while i < self.per_segment.len()
            invariant
                i <= self.per_segment.len(),
                streams@.len() == i,
                forall|j: int| 0 <= j < i ==> #[trigger] self.per_segment@[j].in_range(),
                streams_view(streams@) == segment_encodings(self.per_segment@, i as int),
            decreases self.per_segment.len() - i,
        {
            match try_write(&self.per_segment[i]) {
                Ok(stream) => {
                    let ghost before = streams@;
                    streams.push(stream);
                    proof {
                        let done = segment_encodings(self.per_segment@, i + 1);
                        assert forall|j: int| 0 <= j < i + 1 implies streams_view(streams@)[j]
                            == done[j] by {
                            if j < i {
                                assert(streams_view(before)[j] == segment_encodings(
                                    self.per_segment@,
                                    i as int,
                                )[j]);
                            }
                        }
                    }
                },
                Err(e) => {
                    return Err(e);
                },
            }
            i += 1;
        }
        Ok(streams)
    }
}

} // verus!
