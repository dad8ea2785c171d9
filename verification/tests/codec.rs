use unordered_n_tuple::codec::DecodeError;
use unordered_n_tuple::codec::Decoder;
use unordered_n_tuple::UnorderedNTuple;

#[test]
fn pair_encodes_in_storage_order() {
    assert_eq!(UnorderedNTuple([0, 1]).into_vec(), vec![0, 1]);
    assert_eq!(UnorderedNTuple([1, 0]).into_vec(), vec![1, 0]);
}

#[test]
fn pair_round_trips() {
    let encoded = UnorderedNTuple([0, 1]).into_vec();
    let decoded = UnorderedNTuple::<i32, 2>::from_vec(encoded).unwrap();
    assert_eq!(decoded.0, [0, 1]);
    assert_eq!(decoded, UnorderedNTuple([0, 1]));
    assert_eq!(decoded, UnorderedNTuple([1, 0]));
}

#[test]
fn triple_round_trips() {
    let source = UnorderedNTuple([String::from("a"), String::from("b"), String::from("a")]);
    let decoded = UnorderedNTuple::<String, 3>::from_vec(source.clone().into_vec()).unwrap();
    assert!(decoded == source);
}

#[test]
fn too_few_elements_are_refused() {
    let result = UnorderedNTuple::<u8, 3>::from_vec(vec![1, 2]);
    assert_eq!(result.err(), Some(DecodeError::WrongNumberOfElements));
}

#[test]
fn too_many_elements_are_refused() {
    let result = UnorderedNTuple::<u8, 2>::from_vec(vec![1, 2, 3]);
    assert_eq!(result.err(), Some(DecodeError::WrongNumberOfElements));
}

#[test]
fn empty_sequence_decodes_to_the_empty_tuple_only() {
    assert!(UnorderedNTuple::<u8, 0>::from_vec(Vec::new()).is_ok());
    assert_eq!(
        UnorderedNTuple::<u8, 1>::from_vec(Vec::new()).err(),
        Some(DecodeError::WrongNumberOfElements)
    );
}

#[test]
fn announced_length_must_be_the_arity() {
    assert_eq!(UnorderedNTuple::<u8, 2>::check_length(Some(2)), Ok(()));
    assert_eq!(
        UnorderedNTuple::<u8, 2>::check_length(Some(1)),
        Err(DecodeError::WrongNumberOfElements)
    );
    assert_eq!(
        UnorderedNTuple::<u8, 2>::check_length(Some(3)),
        Err(DecodeError::WrongNumberOfElements)
    );
    assert_eq!(UnorderedNTuple::<u8, 2>::check_length(None), Ok(()));
}

#[test]
fn error_message_names_the_fault() {
    assert_eq!(DecodeError::WrongNumberOfElements.message(), "Wrong number of elements");
    assert_eq!(DecodeError::EndedEarly.message(), "Sequence ended early");
}

#[test]
fn decoder_refuses_a_wrong_announcement_at_once() {
    assert_eq!(
        Decoder::<u8, 2>::begin(Some(3)).err(),
        Some(DecodeError::WrongNumberOfElements)
    );
    assert_eq!(
        Decoder::<u8, 2>::begin(Some(0)).err(),
        Some(DecodeError::WrongNumberOfElements)
    );
    assert_eq!(
        Decoder::<u8, 0>::begin(Some(1)).err(),
        Some(DecodeError::WrongNumberOfElements)
    );
}

#[test]
fn decoder_reads_exactly_the_arity() {
    let mut decoder = Decoder::<i32, 2>::begin(Some(2)).ok().unwrap();
    assert!(decoder.wants_more());
    decoder.accept(0);
    assert!(decoder.wants_more());
    decoder.accept(1);
    assert!(!decoder.wants_more());
    let tuple = decoder.finish().unwrap();
    assert_eq!(tuple.0, [0, 1]);
    assert_eq!(tuple, UnorderedNTuple([1, 0]));
}

#[test]
fn decoder_refuses_a_sequence_that_ends_early() {
    let mut decoder = Decoder::<i32, 3>::begin(Some(3)).ok().unwrap();
    decoder.accept(7);
    decoder.accept(8);
    assert!(decoder.wants_more());
    assert_eq!(decoder.count(), 2);
    assert_eq!(decoder.finish().err(), Some(DecodeError::EndedEarly));
}

#[test]
fn decoder_of_the_empty_tuple_reads_nothing() {
    let decoder = Decoder::<u8, 0>::begin(Some(0)).ok().unwrap();
    assert!(!decoder.wants_more());
    assert!(decoder.finish().is_ok());
}

#[test]
fn decoder_reads_a_sequence_of_unknown_length() {
    let mut decoder = Decoder::<i32, 2>::begin(None).ok().unwrap();
    assert!(decoder.wants_more());
    decoder.accept(0);
    assert!(decoder.wants_more());
    decoder.accept(1);
    assert_eq!(decoder.count(), 2);
    assert!(decoder.wants_more());
    let tuple = decoder.finish().unwrap();
    assert_eq!(tuple.0, [0, 1]);
    assert_eq!(tuple, UnorderedNTuple::from([1, 0]));
}

#[test]
fn decoder_refuses_an_unannounced_sequence_that_is_too_short() {
    let mut decoder = Decoder::<i32, 3>::begin(None).ok().unwrap();
    decoder.accept(7);
    decoder.accept(8);
    assert_eq!(decoder.finish().err(), Some(DecodeError::WrongNumberOfElements));
}

#[test]
fn decoder_refuses_an_unannounced_sequence_that_goes_on() {
    let mut decoder = Decoder::<i32, 2>::begin(None).ok().unwrap();
    decoder.accept(7);
    decoder.accept(8);
    assert!(decoder.wants_more());
    decoder.accept(9);
    assert!(!decoder.wants_more());
    assert_eq!(decoder.count(), 2);
    assert_eq!(decoder.finish().err(), Some(DecodeError::WrongNumberOfElements));
}

#[test]
fn decoder_stops_asking_once_an_announced_length_is_reached() {
    let mut decoder = Decoder::<i32, 1>::begin(Some(1)).ok().unwrap();
    decoder.accept(4);
    assert!(!decoder.wants_more());
    assert_eq!(decoder.finish().unwrap().0, [4]);
}
