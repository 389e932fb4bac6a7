use ffsvm::errors::{Error, NO_LAST_INDEX};
use ffsvm::manyvectors::ManyVectors;
use ffsvm::svm::attributes::{reconstruct_row, AttributeState};

#[test]
fn ordered_attributes_fill_the_row() {
    let mut store = ManyVectors::with_dimension(2, 3, 0.0f32);
    let result = reconstruct_row(&mut store, 1, &[(0, 0.5), (1, 1.5), (2, 2.5)]);
    assert_eq!(result, Ok(()));
    assert_eq!(store.get_vector(1), &[0.5f32, 1.5, 2.5]);
    assert_eq!(store.get_vector(0), &[0.0f32, 0.0, 0.0]);
}

#[test]
fn skipped_index_is_rejected() {
    let mut store = ManyVectors::with_dimension(2, 3, 0.0f32);
    let result = reconstruct_row(&mut store, 0, &[(0, 0.5), (2, 2.5)]);
    assert_eq!(
        result,
        Err(Error::AttributesUnordered { index: 2, value: 2.5f32, last_index: 0 })
    );
    assert_eq!(store.get_vector(0), &[0.5f32, 0.0, 0.0]);
    assert_eq!(store.get_vector(1), &[0.0f32, 0.0, 0.0]);
}

#[test]
fn first_index_must_be_zero() {
    let mut store = ManyVectors::with_dimension(1, 3, 9u8);
    let result = reconstruct_row(&mut store, 0, &[(1, 4u8), (2, 5u8)]);
    assert_eq!(
        result,
        Err(Error::AttributesUnordered { index: 1, value: 4u8, last_index: NO_LAST_INDEX })
    );
    assert_eq!(NO_LAST_INDEX, u32::MAX);
    assert_eq!(store.get_vector(0), &[9u8, 9, 9]);
}

#[test]
fn repeated_index_is_rejected() {
    let mut store = ManyVectors::with_dimension(1, 4, 0i32);
    let result = reconstruct_row(&mut store, 0, &[(0, 1), (1, 2), (1, 3), (2, 4)]);
    assert_eq!(result, Err(Error::AttributesUnordered { index: 1, value: 3, last_index: 1 }));
    assert_eq!(store.get_vector(0), &[1, 2, 0, 0]);
}

#[test]
fn short_stream_keeps_the_fill_in_trailing_columns() {
    let mut store = ManyVectors::with_dimension(1, 5, -1.0f64);
    let result = reconstruct_row(&mut store, 0, &[(0, 3.0), (1, 4.0)]);
    assert_eq!(result, Ok(()));
    assert_eq!(store.get_vector(0), &[3.0f64, 4.0, -1.0, -1.0, -1.0]);
}

#[test]
fn empty_stream_leaves_the_row_alone() {
    let mut store = ManyVectors::with_dimension(2, 2, 6u16);
    let stream: [(u32, u16); 0] = [];
    assert_eq!(reconstruct_row(&mut store, 1, &stream), Ok(()));
    assert_eq!(store.data, vec![6u16; 4]);
}

#[test]
fn accept_walks_through_the_states() {
    let mut store = ManyVectors::with_dimension(2, 3, 0.0f32);
    let mut state = AttributeState::new();
    assert_eq!(state, AttributeState::Expecting { last_index: None });

    assert_eq!(state.accept(&mut store, 1, 0, 1.0), Ok(()));
    assert_eq!(state, AttributeState::Expecting { last_index: Some(0) });
    assert_eq!(state.accept(&mut store, 1, 1, 2.0), Ok(()));
    assert_eq!(state, AttributeState::Expecting { last_index: Some(1) });
    assert_eq!(store.get_vector(1), &[1.0f32, 2.0, 0.0]);

    state.finish();
    assert_eq!(state, AttributeState::Done);
    assert_eq!(store.get_vector(1), &[1.0f32, 2.0, 0.0]);
    assert_eq!(store.get_vector(0), &[0.0f32, 0.0, 0.0]);
}

#[test]
fn rejected_attribute_ends_the_reconstruction() {
    let mut store = ManyVectors::with_dimension(1, 3, 0.0f32);
    let mut state = AttributeState::new();
    assert_eq!(state.accept(&mut store, 0, 0, 1.0), Ok(()));
    assert_eq!(
        state.accept(&mut store, 0, 2, 3.0),
        Err(Error::AttributesUnordered { index: 2, value: 3.0f32, last_index: 0 })
    );
    assert_eq!(state, AttributeState::Done);
    assert_eq!(store.get_vector(0), &[1.0f32, 0.0, 0.0]);
}

#[test]
fn rejection_after_the_largest_index() {
    let mut state = AttributeState::Expecting { last_index: Some(u32::MAX) };
    let mut store = ManyVectors::with_dimension(1, 2, 0u8);
    assert_eq!(
        state.accept(&mut store, 0, 0, 1u8),
        Err(Error::AttributesUnordered { index: 0, value: 1u8, last_index: u32::MAX })
    );
    assert_eq!(store.data, vec![0u8, 0]);
}
