use content_store::content::{Content, Sink, Source, StoreError};
use content_store::hash::HasherFactory;

fn encode<T: Content>(t: &T) -> Vec<u8> {
    let factory = HasherFactory::new();
    let mut sink = Sink::new(&factory);
    t.to_content(&mut sink).unwrap();
    let (_digest, bytes) = sink.finalize();
    bytes
}

fn decode<T: Content>(bytes: Vec<u8>) -> Result<T, StoreError> {
    let mut source = Source::new(bytes);
    T::from_content(&mut source)
}

#[test]
fn byte_encodes_as_itself() {
    assert_eq!(encode(&42u8), vec![42u8]);
}

#[test]
fn unit_encodes_as_nothing() {
    assert_eq!(encode(&()), Vec::<u8>::new());
}

#[test]
fn unsigned_integers_encode_big_endian_fixed_width() {
    assert_eq!(encode(&0x0102u16), vec![1, 2]);
    assert_eq!(encode(&0x01020304u32), vec![1, 2, 3, 4]);
    assert_eq!(encode(&0x0102030405060708u64), vec![1, 2, 3, 4, 5, 6, 7, 8]);
    assert_eq!(encode(&38u64), vec![0, 0, 0, 0, 0, 0, 0, 38]);
}

#[test]
fn signed_integers_encode_as_their_twos_complement_bits() {
    assert_eq!(encode(&-2i16), vec![0xff, 0xfe]);
    assert_eq!(encode(&-1i32), vec![0xff, 0xff, 0xff, 0xff]);
    assert_eq!(encode(&-1i64), vec![0xff; 8]);
    assert_eq!(decode::<i16>(vec![0xff, 0xfe]).unwrap(), -2);
}

#[test]
fn optional_values_carry_one_tag_byte() {
    assert_eq!(encode(&None::<u64>), vec![0]);
    assert_eq!(
        encode(&Some(46u64)),
        vec![1, 0, 0, 0, 0, 0, 0, 0, 46]
    );
}

#[test]
fn optional_round_trips() {
    assert_eq!(decode::<Option<u64>>(vec![0]).unwrap(), None);
    assert_eq!(
        decode::<Option<u64>>(vec![1, 0, 0, 0, 0, 0, 0, 0, 46]).unwrap(),
        Some(46)
    );
}

#[test]
fn invalid_option_tag_is_a_decode_error() {
    assert_eq!(
        decode::<Option<u64>>(vec![7]).unwrap_err(),
        StoreError::InvalidTag
    );
    assert_eq!(
        decode::<Option<u8>>(vec![255, 3]).unwrap_err(),
        StoreError::InvalidTag
    );
}

#[test]
fn truncated_input_is_a_decode_error() {
    assert_eq!(
        decode::<u64>(vec![1, 2, 3]).unwrap_err(),
        StoreError::UnexpectedEnd
    );
    assert_eq!(decode::<u8>(Vec::new()).unwrap_err(), StoreError::UnexpectedEnd);
    assert_eq!(
        decode::<Option<u16>>(vec![1, 9]).unwrap_err(),
        StoreError::UnexpectedEnd
    );
}

#[test]
fn digest_matches_the_blake2s_reference_vector() {
    // blake2s-256 of the empty input, from the reference implementation.
    let factory = HasherFactory::new();
    let sink = Sink::new(&factory);
    let (digest, bytes) = sink.finalize();
    assert_eq!(bytes, Vec::<u8>::new());
    let expected: Vec<u8> = vec![
        0x69, 0x21, 0x7a, 0x30, 0x79, 0x90, 0x80, 0x94, 0xe1, 0x11, 0x21, 0xd0, 0x42, 0x35,
        0x4a, 0x7c, 0x1f, 0x55, 0xb6, 0x48, 0x2c, 0xa1, 0xa5, 0x1e, 0x1b, 0x25, 0x0d, 0xfd,
        0x1e, 0xd0, 0xee, 0xf9,
    ];
    assert_eq!(*digest.as_bytes(), expected);
}
