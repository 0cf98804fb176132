use hintable::error::HintError;
use hintable::field::{BaseElem, ExtElem, InnerDigest, DIGEST_SIZE};
use hintable::hints::{transfer, try_write, Hintable};
use hintable::proof_shape::{
    AdjacentOpenedValues, AdjacentOpenedValuesVariable, Commitments, OpenedValues, OpeningProof,
    Proof, TraceWidth, TraceWidthVariable, VerifierInput,
};
use hintable::prover::{ContinuationVmProof, ContinuationVmProver, SingleSegmentVmProver};
use hintable::reader::HintReader;
use hintable::vars::{Array, Ext, Felt, Usize, Var};

fn felt(n: usize) -> BaseElem {
    BaseElem::from_canonical_usize(n)
}

fn ext(n: usize) -> ExtElem {
    ExtElem::from_canonical_usize(n)
}

fn var(n: usize) -> Var {
    Var { value: felt(n) }
}

fn digest(first: usize) -> InnerDigest {
    [
        felt(first),
        felt(first + 1),
        felt(first + 2),
        felt(first + 3),
        felt(first + 4),
        felt(first + 5),
        felt(first + 6),
        felt(first + 7),
    ]
}

fn digest_chunk(first: usize) -> Vec<BaseElem> {
    digest(first).to_vec()
}

fn digest_variable(first: usize) -> Array<Felt> {
    Array::Fixed(digest(first).iter().map(|&value| Felt { value }).collect())
}

fn ext_chunk(values: &[usize]) -> Vec<BaseElem> {
    let mut chunk = Vec::new();
    for &v in values {
        chunk.push(felt(v));
        chunk.push(felt(0));
        chunk.push(felt(0));
        chunk.push(felt(0));
    }
    chunk
}

fn adjacent(local: &[usize], next: &[usize]) -> AdjacentOpenedValues {
    AdjacentOpenedValues {
        local: local.iter().map(|&n| ext(n)).collect(),
        next: next.iter().map(|&n| ext(n)).collect(),
    }
}

fn adjacent_variable(local: &[usize], next: &[usize]) -> AdjacentOpenedValuesVariable {
    AdjacentOpenedValuesVariable {
        local: Array::Dyn(local.iter().map(|&n| Ext { value: ext(n) }).collect()),
        next: Array::Dyn(next.iter().map(|&n| Ext { value: ext(n) }).collect()),
    }
}

#[test]
fn digest_is_one_chunk_and_never_carries_a_length() {
    let d = digest(10);
    let stream = d.write();
    assert_eq!(stream.len(), 1);
    assert_eq!(stream[0].len(), DIGEST_SIZE);
    assert_eq!(stream, vec![digest_chunk(10)]);

    let mut reader = HintReader::new(stream);
    let arr = InnerDigest::read(&mut reader).unwrap();
    assert!(!arr.is_dyn());
    assert_eq!(arr, digest_variable(10));
    assert_eq!(reader.mark(), 1);
    assert!(reader.is_exhausted());
}

#[test]
fn digest_of_another_size_is_a_mismatch() {
    let mut short = digest_chunk(1);
    short.pop();
    let mut reader = HintReader::new(vec![short]);
    assert_eq!(InnerDigest::read(&mut reader), Err(HintError::ProtocolMismatch));
    assert_eq!(reader.mark(), 0);

    let mut long = digest_chunk(1);
    long.push(felt(9));
    let mut reader = HintReader::new(vec![long]);
    assert_eq!(reader.hint_digest(), Err(HintError::ProtocolMismatch));
    assert_eq!(reader.mark(), 0);
}

#[test]
fn list_of_digests_has_a_length_but_its_digests_have_none() {
    let digests = vec![digest(1), digest(100)];
    let stream = digests.write();
    assert_eq!(stream, vec![vec![felt(2)], digest_chunk(1), digest_chunk(100)]);
    assert_eq!(
        transfer(&digests),
        Ok(Array::Dyn(vec![digest_variable(1), digest_variable(100)]))
    );
}

#[test]
fn trace_width_without_preprocessed_part() {
    let width = TraceWidth {
        preprocessed: None,
        partitioned_main: vec![3, 4],
        after_challenge: vec![5],
    };
    let stream = width.write();
    assert_eq!(
        stream,
        vec![
            vec![felt(0)],
            vec![felt(2)],
            vec![felt(3)],
            vec![felt(4)],
            vec![felt(1)],
            vec![felt(5)],
        ]
    );
    assert_eq!(
        transfer(&width),
        Ok(TraceWidthVariable {
            preprocessed: Array::Dyn(vec![]),
            partitioned_main: Array::Dyn(vec![var(3), var(4)]),
            after_challenge: Array::Dyn(vec![var(5)]),
        })
    );
}

#[test]
fn trace_width_with_preprocessed_part() {
    let width = TraceWidth {
        preprocessed: Some(2),
        partitioned_main: vec![],
        after_challenge: vec![6, 7],
    };
    let stream = width.write();
    assert_eq!(
        stream,
        vec![
            vec![felt(1)],
            vec![felt(2)],
            vec![felt(0)],
            vec![felt(2)],
            vec![felt(6)],
            vec![felt(7)],
        ]
    );
    let mut reader = HintReader::new(stream);
    let variable = TraceWidth::read(&mut reader).unwrap();
    assert_eq!(variable.preprocessed, Array::Dyn(vec![var(2)]));
    assert_eq!(variable.partitioned_main, Array::Dyn(vec![]));
    assert_eq!(variable.after_challenge, Array::Dyn(vec![var(6), var(7)]));
    assert!(reader.is_exhausted());
}

#[test]
fn trace_width_of_three_empty_lists_is_three_chunks_of_zero() {
    let w = TraceWidth { preprocessed: None, partitioned_main: vec![], after_challenge: vec![] };
    assert_eq!(w.write(), vec![vec![felt(0)]; 3]);

    let mut reader = HintReader::new(vec![vec![felt(0)]; 3]);
    let variable = TraceWidth::read(&mut reader).unwrap();
    assert_eq!(variable.preprocessed, Array::Dyn(vec![]));
    assert_eq!(variable.partitioned_main, Array::Dyn(vec![]));
    assert_eq!(variable.after_challenge, Array::Dyn(vec![]));
    assert!(reader.is_exhausted());
}

#[test]
fn trace_width_out_of_range_is_refused() {
    let width = TraceWidth {
        preprocessed: Some(usize::MAX),
        partitioned_main: vec![1],
        after_challenge: vec![],
    };
    assert!(!width.fits());
    assert_eq!(try_write(&width), Err(HintError::RangeViolation));
}

#[test]
fn commitments_travel_in_field_order() {
    let commitments = Commitments {
        main_trace: vec![digest(1)],
        after_challenge: vec![],
        quotient: digest(50),
    };
    let stream = commitments.write();
    assert_eq!(
        stream,
        vec![vec![felt(1)], digest_chunk(1), vec![felt(0)], digest_chunk(50)]
    );
    let variable = transfer(&commitments).unwrap();
    assert_eq!(variable.main_trace, Array::Dyn(vec![digest_variable(1)]));
    assert_eq!(variable.after_challenge, Array::Dyn(vec![]));
    assert_eq!(variable.quotient, digest_variable(50));
}

#[test]
fn adjacent_opened_values_are_local_then_next() {
    let values = adjacent(&[1, 2], &[3]);
    let stream = values.write();
    assert_eq!(
        stream,
        vec![vec![felt(2)], ext_chunk(&[1, 2]), vec![felt(1)], ext_chunk(&[3])]
    );
    assert_eq!(transfer(&values), Ok(adjacent_variable(&[1, 2], &[3])));
}

fn opened_values() -> OpenedValues {
    OpenedValues {
        preprocessed: vec![adjacent(&[1], &[2])],
        main: vec![vec![adjacent(&[3], &[4])], vec![]],
        quotient: vec![vec![vec![ext(5), ext(6)]]],
        after_challenge: vec![],
    }
}

fn opened_values_stream() -> Vec<Vec<BaseElem>> {
    vec![
        // preprocessed
        vec![felt(1)],
        vec![felt(1)],
        ext_chunk(&[1]),
        vec![felt(1)],
        ext_chunk(&[2]),
        // main
        vec![felt(2)],
        vec![felt(1)],
        vec![felt(1)],
        ext_chunk(&[3]),
        vec![felt(1)],
        ext_chunk(&[4]),
        vec![felt(0)],
        // quotient
        vec![felt(1)],
        vec![felt(1)],
        vec![felt(2)],
        ext_chunk(&[5, 6]),
        // after_challenge
        vec![felt(0)],
    ]
}

#[test]
fn opened_values_travel_in_field_order() {
    let values = opened_values();
    assert_eq!(values.write(), opened_values_stream());

    let variable = transfer(&values).unwrap();
    assert_eq!(variable.preprocessed, Array::Dyn(vec![adjacent_variable(&[1], &[2])]));
    assert_eq!(
        variable.main,
        Array::Dyn(vec![Array::Dyn(vec![adjacent_variable(&[3], &[4])]), Array::Dyn(vec![])])
    );
    assert_eq!(
        variable.quotient,
        Array::Dyn(vec![Array::Dyn(vec![Array::Dyn(vec![
            Ext { value: ext(5) },
            Ext { value: ext(6) }
        ])])])
    );
    assert_eq!(variable.after_challenge, Array::Dyn(vec![]));
}

fn sample_proof() -> Proof<Vec<BaseElem>> {
    Proof {
        commitments: Commitments {
            main_trace: vec![digest(1)],
            after_challenge: vec![digest(9)],
            quotient: digest(17),
        },
        opening: OpeningProof { proof: vec![felt(40), felt(41)], values: opened_values() },
        exposed_values_after_challenge: vec![vec![vec![ext(8)]]],
    }
}

fn proof_stream() -> Vec<Vec<BaseElem>> {
    let mut stream = vec![
        vec![felt(1)],
        digest_chunk(1),
        vec![felt(1)],
        digest_chunk(9),
        digest_chunk(17),
        vec![felt(40), felt(41)],
    ];
    stream.extend(opened_values_stream());
    stream.extend(vec![vec![felt(1)], vec![felt(1)], vec![felt(1)], ext_chunk(&[8])]);
    stream
}

#[test]
fn opening_proof_is_the_scheme_proof_then_the_values() {
    let opening = OpeningProof { proof: vec![felt(40), felt(41)], values: opened_values() };
    let mut expected = vec![vec![felt(40), felt(41)]];
    expected.extend(opened_values_stream());
    assert_eq!(opening.write(), expected);

    let variable = transfer(&opening).unwrap();
    assert_eq!(
        variable.proof,
        Array::Dyn(vec![Felt { value: felt(40) }, Felt { value: felt(41) }])
    );
    assert_eq!(variable.values, transfer(&opened_values()).unwrap());
}

#[test]
fn proof_travels_in_field_order() {
    let proof = sample_proof();
    assert_eq!(proof.write(), proof_stream());

    let mut reader = HintReader::new(proof_stream());
    let variable = Proof::<Vec<BaseElem>>::read(&mut reader).unwrap();
    assert!(reader.is_exhausted());
    assert_eq!(variable.commitments.quotient, digest_variable(17));
    assert_eq!(variable.opening, transfer(&proof.opening).unwrap());
    assert_eq!(
        variable.exposed_values_after_challenge,
        Array::Dyn(vec![Array::Dyn(vec![Array::Dyn(vec![Ext { value: ext(8) }])])])
    );
}

#[test]
fn verifier_input_travels_in_field_order() {
    let input = VerifierInput {
        proof: sample_proof(),
        log_degree_per_air: vec![3, 5],
        public_values: vec![vec![felt(11)], vec![], vec![felt(12), felt(13)]],
    };
    let mut expected = proof_stream();
    expected.extend(vec![
        vec![felt(2)],
        vec![felt(3)],
        vec![felt(5)],
        vec![felt(3)],
        vec![felt(11)],
        vec![],
        vec![felt(12), felt(13)],
    ]);
    let stream = input.write();
    assert_eq!(stream, expected);

    let mut reader = HintReader::new(stream);
    let variable = VerifierInput::<Vec<BaseElem>>::read(&mut reader).unwrap();
    assert!(reader.is_exhausted());
    assert_eq!(variable.proof, transfer(&input.proof).unwrap());
    assert_eq!(
        variable.log_degree_per_air,
        Array::Dyn(vec![Usize { value: felt(3) }, Usize { value: felt(5) }])
    );
    assert_eq!(
        variable.public_values,
        Array::Dyn(vec![
            Array::Dyn(vec![Felt { value: felt(11) }]),
            Array::Dyn(vec![]),
            Array::Dyn(vec![Felt { value: felt(12) }, Felt { value: felt(13) }]),
        ])
    );
}

#[test]
fn truncated_proof_is_a_mismatch_and_leaves_the_reader_in_place() {
    let mut stream = vec![vec![felt(99)]];
    let mut truncated = proof_stream();
    truncated.pop();
    stream.extend(truncated);

    let mut reader = HintReader::new(stream);
    assert_eq!(reader.hint_var(), Ok(var(99)));
    assert_eq!(reader.mark(), 1);
    assert_eq!(
        Proof::<Vec<BaseElem>>::read(&mut reader),
        Err(HintError::ProtocolMismatch)
    );
    assert_eq!(reader.mark(), 1);
}

#[test]
fn fields_in_another_order_are_a_mismatch() {
    let values = adjacent(&[1, 2], &[3]);
    let mut stream = values.write();
    stream.swap(0, 1);
    let mut reader = HintReader::new(stream);
    assert_eq!(
        AdjacentOpenedValues::read(&mut reader),
        Err(HintError::ProtocolMismatch)
    );
    assert_eq!(reader.mark(), 0);
}

struct FixedProver;

impl SingleSegmentVmProver<Vec<BaseElem>> for FixedProver {
    fn prove(&self, input: Vec<Vec<BaseElem>>) -> Proof<Vec<BaseElem>> {
        let mut proof = sample_proof();
        proof.opening.proof = input.concat();
        proof
    }
}

impl ContinuationVmProver<Vec<BaseElem>, Vec<BaseElem>> for FixedProver {
    fn prove(&self, input: Vec<Vec<BaseElem>>) -> ContinuationVmProof<Vec<BaseElem>, Vec<BaseElem>> {
        ContinuationVmProof {
            per_segment: vec![sample_proof(), SingleSegmentVmProver::prove(self, input)],
            user_public_values: vec![felt(1)],
        }
    }
}

#[test]
fn per_segment_proofs_are_carried_one_stream_each() {
    let proof = ContinuationVmProver::prove(&FixedProver, vec![vec![felt(7)], vec![felt(8)]]);
    let streams = proof.write_per_segment().unwrap();
    assert_eq!(streams.len(), 2);
    assert_eq!(streams[0], proof_stream());
    assert_eq!(streams[1], proof.per_segment[1].write());
    assert_eq!(streams[1][5], vec![felt(7), felt(8)]);
}

#[test]
fn continuation_proof_without_segments_has_no_stream() {
    let proof: ContinuationVmProof<Vec<BaseElem>, ()> =
        ContinuationVmProof { per_segment: vec![], user_public_values: () };
    assert_eq!(proof.write_per_segment(), Ok(vec![]));
}

#[test]
fn segment_out_of_range_stops_the_encoding() {
    let mut bad = sample_proof();
    bad.exposed_values_after_challenge = Vec::new();
    let input = VerifierInput {
        proof: bad,
        log_degree_per_air: vec![usize::MAX],
        public_values: vec![],
    };
    assert_eq!(try_write(&input), Err(HintError::RangeViolation));

    let proof: ContinuationVmProof<Vec<usize>, ()> = ContinuationVmProof {
        per_segment: vec![Proof {
            commitments: Commitments {
                main_trace: vec![],
                after_challenge: vec![],
                quotient: digest(0),
            },
            opening: OpeningProof { proof: vec![usize::MAX], values: opened_values() },
            exposed_values_after_challenge: vec![],
        }],
        user_public_values: (),
    };
    assert_eq!(proof.write_per_segment(), Err(HintError::RangeViolation));
}
