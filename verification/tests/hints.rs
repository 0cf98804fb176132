use hintable::error::HintError;
use hintable::field::{BaseElem, ExtElem, InnerChallenge, InnerVal, MODULUS};
use hintable::hints::{transfer, try_write, Hintable};
use hintable::reader::HintReader;
use hintable::vars::{Array, Ext, Felt, Var};

fn felt(n: usize) -> BaseElem {
    BaseElem::from_canonical_usize(n)
}

fn ext(n: usize) -> ExtElem {
    ExtElem::from_canonical_usize(n)
}

#[test]
fn test_var_array() {
    let x = vec![
        InnerVal::from_canonical_usize(1),
        InnerVal::from_canonical_usize(2),
        InnerVal::from_canonical_usize(3),
    ];
    let stream = Vec::<InnerVal>::write(&x);
    assert_eq!(stream, vec![x.clone()]);

    let mut builder = HintReader::new(stream);
    let arr = Vec::<InnerVal>::read(&mut builder).unwrap();

    let expected = Var { value: InnerVal::from_canonical_usize(3) };
    assert_eq!(arr.len(), expected.value.as_canonical_u32() as usize);

    for (i, &val) in x.iter().enumerate() {
        let actual = *arr.get(i);
        let expected = Felt { value: val };
        assert_eq!(actual, expected);
    }

    assert!(builder.is_exhausted());
}

#[test]
fn test_ext_array() {
    let x = vec![
        InnerChallenge::from_canonical_usize(1),
        InnerChallenge::from_canonical_usize(2),
        InnerChallenge::from_canonical_usize(3),
    ];
    let stream = Vec::<InnerChallenge>::write(&x);
    assert_eq!(
        stream,
        vec![
            vec![InnerVal::from_canonical_usize(x.len())],
            vec![
                InnerVal::from_canonical_usize(1),
                InnerVal::from_canonical_usize(0),
                InnerVal::from_canonical_usize(0),
                InnerVal::from_canonical_usize(0),
                InnerVal::from_canonical_usize(2),
                InnerVal::from_canonical_usize(0),
                InnerVal::from_canonical_usize(0),
                InnerVal::from_canonical_usize(0),
                InnerVal::from_canonical_usize(3),
                InnerVal::from_canonical_usize(0),
                InnerVal::from_canonical_usize(0),
                InnerVal::from_canonical_usize(0),
            ],
        ]
    );

    let mut builder = HintReader::new(stream);
    let arr = Vec::<InnerChallenge>::read(&mut builder).unwrap();

    let expected = Var { value: InnerVal::from_canonical_usize(3) };
    assert_eq!(arr.len(), expected.value.as_canonical_u32() as usize);

    for (i, &val) in x.iter().enumerate() {
        let actual = *arr.get(i);
        let expected = Ext { value: val };
        assert_eq!(actual, expected);
    }

    assert!(builder.is_exhausted());
}

struct TestStruct {
    a: usize,
    b: usize,
    c: usize,
}

impl TestStruct {
    fn fields(&self) -> (usize, usize, usize) {
        (self.a, self.b, self.c)
    }
}

#[test]
fn test_macro() {
    let x = TestStruct { a: 1, b: 2, c: 3 };
    let stream = Hintable::write(&x.fields());
    assert_eq!(
        stream,
        [1, 2, 3]
            .map(|x| vec![InnerVal::from_canonical_usize(x)])
            .to_vec()
    );
}

#[test]
fn record_fields_travel_in_declared_order() {
    let x = TestStruct { a: 7, b: 5, c: 9 };
    let stream = Hintable::write(&x.fields());
    assert_eq!(stream, vec![vec![felt(7)], vec![felt(5)], vec![felt(9)]]);

    let mut reader = HintReader::new(stream);
    let (a, b, c) = <(usize, usize, usize)>::read(&mut reader).unwrap();
    assert_eq!(a.value.as_canonical_u32(), 7);
    assert_eq!(b.value.as_canonical_u32(), 5);
    assert_eq!(c.value.as_canonical_u32(), 9);
    assert!(reader.is_exhausted());
}

#[test]
fn counter_is_one_chunk_of_one_value() {
    let n: usize = 41;
    assert!(n.fits());
    let stream = n.write();
    assert_eq!(stream, vec![vec![felt(41)]]);
    let mut reader = HintReader::new(stream);
    let var = usize::read(&mut reader).unwrap();
    assert_eq!(var.value.as_canonical_u32(), 41);
}

#[test]
fn counter_at_the_field_order_is_refused() {
    let largest: usize = (MODULUS - 1) as usize;
    assert!(largest.fits());
    assert_eq!(try_write(&largest), Ok(vec![vec![felt(largest)]]));

    let too_large: usize = MODULUS as usize;
    assert!(!too_large.fits());
    assert_eq!(try_write(&too_large), Err(HintError::RangeViolation));
    assert_eq!(transfer(&too_large), Err(HintError::RangeViolation));
    assert_eq!(BaseElem::checked_from_usize(too_large), None);
    assert_eq!(BaseElem::checked_from_usize(largest), Some(felt(largest)));
}

#[test]
fn list_with_a_counter_out_of_range_is_refused() {
    let counters: Vec<usize> = vec![1, MODULUS as usize, 3];
    assert!(!counters.fits());
    assert_eq!(try_write(&counters), Err(HintError::RangeViolation));

    let nested: Vec<Vec<usize>> = vec![vec![1], vec![2, usize::MAX]];
    assert!(!nested.fits());
    assert_eq!(try_write(&nested), Err(HintError::RangeViolation));
}

#[test]
fn base_element_is_one_chunk_of_itself() {
    let e = felt(123456);
    let stream = e.write();
    assert_eq!(stream, vec![vec![e]]);
    let mut reader = HintReader::new(stream);
    assert_eq!(BaseElem::read(&mut reader), Ok(Felt { value: e }));
}

#[test]
fn extension_element_is_one_chunk_of_four_coefficients() {
    let e = ExtElem::new([felt(9), felt(8), felt(7), felt(6)]);
    let stream = e.write();
    assert_eq!(stream, vec![vec![felt(9), felt(8), felt(7), felt(6)]]);
    let mut reader = HintReader::new(stream);
    assert_eq!(ExtElem::read(&mut reader), Ok(Ext { value: e }));
    assert!(reader.is_exhausted());
}

#[test]
fn counter_list_starts_with_its_length() {
    let counters: Vec<usize> = vec![4, 0, 17];
    let stream = counters.write();
    assert_eq!(
        stream,
        vec![vec![felt(3)], vec![felt(4)], vec![felt(0)], vec![felt(17)]]
    );
    let mut reader = HintReader::new(stream);
    let arr = Vec::<usize>::read(&mut reader).unwrap();
    assert!(arr.is_dyn());
    assert_eq!(arr, Array::Dyn(vec![Var { value: felt(4) }, Var { value: felt(0) }, Var { value: felt(17) }]));
    assert!(reader.is_exhausted());
}

#[test]
fn empty_counter_list_and_the_list_of_zero_differ() {
    let empty: Vec<usize> = Vec::new();
    assert_eq!(empty.write(), vec![vec![felt(0)]]);
    assert_eq!(transfer(&empty), Ok(Array::Dyn(vec![])));

    let zero: Vec<usize> = vec![0];
    assert_eq!(zero.write(), vec![vec![felt(1)], vec![felt(0)]]);
    assert_eq!(transfer(&zero), Ok(Array::Dyn(vec![Var { value: felt(0) }])));
}

#[test]
fn byte_list_is_one_chunk_without_length() {
    let bytes: Vec<u8> = vec![0, 255, 16];
    let stream = bytes.write();
    assert_eq!(stream, vec![vec![felt(0), felt(255), felt(16)]]);
    assert_eq!(
        transfer(&bytes),
        Ok(Array::Dyn(vec![Var { value: felt(0) }, Var { value: felt(255) }, Var { value: felt(16) }]))
    );
}

#[test]
fn generic_list_starts_with_its_length() {
    let lists: Vec<Vec<usize>> = vec![vec![5, 6], vec![], vec![7]];
    let stream = lists.write();
    assert_eq!(
        stream,
        vec![
            vec![felt(3)],
            vec![felt(2)],
            vec![felt(5)],
            vec![felt(6)],
            vec![felt(0)],
            vec![felt(1)],
            vec![felt(7)],
        ]
    );
    let arr = transfer(&lists).unwrap();
    assert_eq!(arr.len(), 3);
    assert_eq!(arr.get(0).len(), 2);
    assert_eq!(arr.get(1).len(), 0);
    assert_eq!(arr.get(2).len(), 1);
    assert_eq!(arr.get(2).get(0).value, felt(7));
}

#[test]
fn empty_generic_list_is_the_single_chunk_zero() {
    let empty: Vec<Vec<BaseElem>> = Vec::new();
    let stream = empty.write();
    assert_eq!(stream, vec![vec![felt(0)]]);

    let mut reader = HintReader::new(stream);
    let arr = Vec::<Vec<BaseElem>>::read(&mut reader).unwrap();
    assert!(arr.is_dyn());
    assert_eq!(arr.len(), 0);
    assert!(reader.is_exhausted());
}

#[test]
fn empty_list_leaves_what_follows_untouched() {
    let stream = vec![vec![felt(0)], vec![felt(77)]];
    let mut reader = HintReader::new(stream);
    let arr = Vec::<Vec<ExtElem>>::read(&mut reader).unwrap();
    assert_eq!(arr.len(), 0);
    assert_eq!(reader.mark(), 1);
    assert_eq!(reader.hint_var(), Ok(Var { value: felt(77) }));
}

#[test]
fn empty_extension_list_is_the_single_chunk_zero() {
    let x: Vec<InnerChallenge> = vec![];
    let stream = Vec::<InnerChallenge>::write(&x);
    assert_eq!(stream, vec![vec![InnerVal::from_canonical_usize(0)]]);

    let mut reader = HintReader::new(stream);
    let arr = Vec::<InnerChallenge>::read(&mut reader).unwrap();
    assert!(arr.is_dyn());
    assert_eq!(arr.len(), 0);
    assert!(reader.is_exhausted());
}

#[test]
fn empty_extension_list_leaves_what_follows_untouched() {
    let stream = vec![vec![felt(0)], vec![], vec![felt(9)]];
    let mut reader = HintReader::new(stream);
    let arr = Vec::<ExtElem>::read(&mut reader).unwrap();
    assert_eq!(arr.len(), 0);
    assert_eq!(reader.mark(), 1);
}

#[test]
fn empty_scalar_list_is_one_empty_chunk() {
    let empty: Vec<BaseElem> = Vec::new();
    let stream = empty.write();
    assert_eq!(stream, vec![Vec::<BaseElem>::new()]);
    let arr = transfer(&empty).unwrap();
    assert!(arr.is_dyn());
    assert_eq!(arr.len(), 0);
}

#[test]
fn jagged_nested_extension_list_round_trips() {
    let x: Vec<Vec<ExtElem>> = vec![
        vec![ext(1), ExtElem::new([felt(2), felt(3), felt(4), felt(5)])],
        vec![ext(6)],
    ];
    let stream = x.write();
    assert_eq!(
        stream,
        vec![
            vec![felt(2)],
            vec![felt(2)],
            vec![felt(1), felt(0), felt(0), felt(0), felt(2), felt(3), felt(4), felt(5)],
            vec![felt(1)],
            vec![felt(6), felt(0), felt(0), felt(0)],
        ]
    );

    let mut reader = HintReader::new(stream);
    let arr = Vec::<Vec<ExtElem>>::read(&mut reader).unwrap();
    assert!(reader.is_exhausted());
    assert_eq!(arr.len(), x.len());
    for (i, inner) in x.iter().enumerate() {
        assert_eq!(arr.get(i).len(), inner.len());
        for (j, &val) in inner.iter().enumerate() {
            assert_eq!(*arr.get(i).get(j), Ext { value: val });
        }
    }
}

#[test]
fn three_levels_of_nesting_round_trip() {
    let x: Vec<Vec<Vec<ExtElem>>> = vec![vec![vec![ext(1)], vec![]], vec![]];
    let stream = x.write();
    assert_eq!(
        stream,
        vec![
            vec![felt(2)],
            vec![felt(2)],
            vec![felt(1)],
            vec![felt(1), felt(0), felt(0), felt(0)],
            vec![felt(0)],
            vec![felt(0)],
        ]
    );
    let arr = transfer(&x).unwrap();
    assert_eq!(arr.len(), 2);
    assert_eq!(arr.get(0).len(), 2);
    assert_eq!(arr.get(0).get(0).len(), 1);
    assert_eq!(arr.get(0).get(0).get(0).value, ext(1));
    assert_eq!(arr.get(0).get(1).len(), 0);
    assert_eq!(arr.get(1).len(), 0);
}

#[test]
fn witness_stores_what_it_reads() {
    let mut reader = HintReader::new(vec![vec![felt(12)]]);
    let mut variable = Var { value: felt(0) };
    assert_eq!(usize::witness(&mut variable, &mut reader), Ok(()));
    assert_eq!(variable, Var { value: felt(12) });

    assert_eq!(
        usize::witness(&mut variable, &mut reader),
        Err(HintError::ProtocolMismatch)
    );
    assert_eq!(variable, Var { value: felt(12) });
}
