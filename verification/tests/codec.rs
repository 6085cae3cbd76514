use std::collections::{BTreeMap, BTreeSet, HashMap, HashSet};
use thrift::impls::Double;
use thrift::protocol::binary_protocol::BinaryProtocol;
use thrift::protocol::helpers::read_enum;
use thrift::protocol::{
    Decode, Encode, Error as ProtocolError, FromNum, Protocol, ThriftTyped, Type,
};
use thrift::sample::{Empty, Exception, Many, Operation, Simple, TestUnion};
use thrift::transport::MemoryTransport;
use thrift::Error;

fn reader(bytes: Vec<u8>) -> BinaryProtocol {
    BinaryProtocol::new(MemoryTransport::new(bytes))
}

fn encode<T: Encode>(value: &T) -> Vec<u8> {
    let mut p = BinaryProtocol::new(MemoryTransport::new(Vec::new()));
    value.encode(&mut p).unwrap();
    p.take_written()
}

fn decode<T: Decode>(bytes: Vec<u8>) -> Result<T, Error> {
    let mut p = reader(bytes);
    let v = T::decode(&mut p)?;
    assert_eq!(p.remaining(), 0);
    Ok(v)
}

fn round_trip<T: Encode + Decode + PartialEq + std::fmt::Debug>(value: T) {
    let back: T = decode(encode(&value)).unwrap();
    assert_eq!(back, value);
}

#[test]
fn wire_types_of_the_basic_types() {
    assert_eq!(<bool as ThriftTyped>::typ(), Type::Bool);
    assert_eq!(<i8 as ThriftTyped>::typ(), Type::I8);
    assert_eq!(<i16 as ThriftTyped>::typ(), Type::I16);
    assert_eq!(<i32 as ThriftTyped>::typ(), Type::I32);
    assert_eq!(<i64 as ThriftTyped>::typ(), Type::I64);
    assert_eq!(<() as ThriftTyped>::typ(), Type::Void);
    assert_eq!(<String as ThriftTyped>::typ(), Type::String);
    assert_eq!(<Vec<u8> as ThriftTyped>::typ(), Type::String);
    assert_eq!(<Vec<i32> as ThriftTyped>::typ(), Type::List);
    assert_eq!(<Option<i64> as ThriftTyped>::typ(), Type::I64);
    assert_eq!(<HashSet<i32> as ThriftTyped>::typ(), Type::TSet);
    assert_eq!(<HashMap<i32, String> as ThriftTyped>::typ(), Type::TMap);
    assert_eq!(<Simple as ThriftTyped>::typ(), Type::Struct);
    assert_eq!(<TestUnion as ThriftTyped>::typ(), Type::Struct);
    assert_eq!(<Operation as ThriftTyped>::typ(), Type::I32);
}

#[test]
fn primitives_round_trip() {
    round_trip(true);
    round_trip(false);
    for v in [i8::MIN, -1, 0, 1, i8::MAX] {
        round_trip(v);
    }
    for v in [i16::MIN, -1, 0, 1, 0x1234, i16::MAX] {
        round_trip(v);
    }
    for v in [i32::MIN, -1, 0, 1, 0x12345678, i32::MAX] {
        round_trip(v);
    }
    for v in [i64::MIN, -1, 0, 1, 0x123456789abcdef0, i64::MAX] {
        round_trip(v);
    }
    round_trip(());
    round_trip(String::from("grüße, 世界"));
    round_trip(String::new());
    round_trip(vec![0u8, 255, 7]);
}

#[test]
fn optional_is_absent_on_the_wire_and_present_when_read() {
    assert_eq!(encode(&None::<i32>), Vec::<u8>::new());
    assert_eq!(encode(&Some(5i32)), vec![0, 0, 0, 5]);
    let back: Option<i32> = decode(vec![0, 0, 0, 5]).unwrap();
    assert_eq!(back, Some(5));
}

#[test]
fn list_layout_and_round_trip() {
    assert_eq!(encode(&vec![1i16, 2, 3]), vec![0x06, 0, 0, 0, 3, 0, 1, 0, 2, 0, 3]);
    round_trip(vec![1i32, -2, 3]);
    round_trip(Vec::<i64>::new());
    round_trip(vec![String::from("hello"), String::from("world")]);
    round_trip(vec![vec![vec![1i8], vec![]], vec![]]);
}

#[test]
fn list_with_another_element_type_is_a_violation() {
    // a list of i16 read as a list of i32
    let r: Result<Vec<i32>, Error> = decode(vec![0x06, 0, 0, 0, 1, 0, 1]);
    assert!(matches!(r, Err(Error::ProtocolError(ProtocolError::ProtocolViolation))));
    let r: Result<HashSet<i32>, Error> = decode(vec![0x06, 0, 0, 0, 1, 0, 1]);
    assert!(matches!(r, Err(Error::ProtocolError(ProtocolError::ProtocolViolation))));
    let r: Result<HashMap<i32, i32>, Error> = decode(vec![0x08, 0x06, 0, 0, 0, 0]);
    assert!(matches!(r, Err(Error::ProtocolError(ProtocolError::ProtocolViolation))));
    let r: Result<HashMap<i32, i32>, Error> = decode(vec![0x06, 0x08, 0, 0, 0, 0]);
    assert!(matches!(r, Err(Error::ProtocolError(ProtocolError::ProtocolViolation))));
}

#[test]
fn list_with_a_negative_size_is_empty() {
    let back: Vec<i32> = decode(vec![0x08, 0xff, 0xff, 0xff, 0xff]).unwrap();
    assert_eq!(back, Vec::<i32>::new());
}

#[test]
fn truncated_list_is_a_transport_error() {
    let r: Result<Vec<i32>, Error> = decode(vec![0x08, 0, 0, 0, 2, 0, 0, 0, 1]);
    assert!(matches!(r, Err(Error::TransportError(_))));
}

#[test]
fn set_round_trip_and_duplicates() {
    let mut s = HashSet::new();
    s.insert(1i32);
    s.insert(2);
    s.insert(3);
    round_trip(s.clone());
    round_trip(HashSet::<i64>::new());
    // what stands on the wire twice is held once
    let back: HashSet<i32> = decode(vec![
        0x08, 0, 0, 0, 5, 0, 0, 0, 1, 0, 0, 0, 2, 0, 0, 0, 3, 0, 0, 0, 3, 0, 0, 0, 2,
    ])
    .unwrap();
    assert_eq!(back, s);
    let bytes = encode(&s);
    assert_eq!(bytes.len(), 5 + 3 * 4);
    assert_eq!(&bytes[..5], &[0x08, 0, 0, 0, 3]);
}

#[test]
fn map_round_trip_and_duplicates() {
    let mut m = HashMap::new();
    m.insert(1i32, String::from("foo"));
    m.insert(2, String::from("bar"));
    round_trip(m.clone());
    round_trip(HashMap::<i8, Vec<i32>>::new());
    // of two entries with one key the later one stays
    let back: HashMap<i32, i8> =
        decode(vec![0x08, 0x03, 0, 0, 0, 3, 0, 0, 0, 7, 1, 0, 0, 0, 8, 2, 0, 0, 0, 7, 3]).unwrap();
    let mut want = HashMap::new();
    want.insert(7, 3i8);
    want.insert(8, 2i8);
    assert_eq!(back, want);
    let bytes = encode(&want);
    assert_eq!(&bytes[..6], &[0x08, 0x03, 0, 0, 0, 2]);
    assert_eq!(bytes.len(), 6 + 2 * 5);
}

#[test]
fn struct_with_one_string_field() {
    let value = Simple { key: Some(String::from("x")) };
    assert_eq!(
        encode(&value),
        vec![0x0b, 0x00, 0x10, 0x00, 0x00, 0x00, 0x01, b'x', 0x00]
    );
    round_trip(value);
    round_trip(Simple { key: None });
}

#[test]
fn struct_without_fields_is_one_byte() {
    assert_eq!(encode(&Empty {}), vec![0x00]);
    let back: Empty = decode(vec![0x00]).unwrap();
    assert_eq!(back, Empty::default());
    assert_eq!(encode(&Simple::default()), vec![0x00]);
    let back: Simple = decode(vec![0x00]).unwrap();
    assert_eq!(back, Simple::default());
    let back: Many = decode(vec![0x00]).unwrap();
    assert_eq!(back, Many::default());
}

#[test]
fn struct_fields_are_written_in_declared_order() {
    let value = Many {
        one: Some(7),
        two: Some(String::from("hi")),
        three: Some(vec![Simple { key: Some(String::from("k")) }, Simple { key: None }]),
    };
    assert_eq!(
        encode(&value),
        vec![
            0x08, 0, 3, 0, 0, 0, 7, // one
            0x0b, 0, 4, 0, 0, 0, 2, b'h', b'i', // two
            0x0f, 0, 9, 0x0c, 0, 0, 0, 2, // three: a list of two structs
            0x0b, 0, 16, 0, 0, 0, 1, b'k', 0x00, // the first
            0x00, // the second
            0x00, // stop
        ]
    );
    round_trip(value);
    round_trip(Many { one: None, two: Some(String::from("only")), three: None });
    round_trip(Many::default());
}

#[test]
fn unknown_field_before_known_fields_is_skipped() {
    let bytes = vec![
        0x08, 0, 99, 0, 0, 0, 42, // (I32, 99): not declared
        0x08, 0, 3, 0, 0, 0, 7, // one
        0x0b, 0, 4, 0, 0, 0, 2, b'h', b'i', // two
        0x00,
    ];
    let mut p = reader(bytes);
    let back = Many::decode(&mut p).unwrap();
    assert_eq!(p.remaining(), 0);
    assert_eq!(back, Many { one: Some(7), two: Some(String::from("hi")), three: None });
}

#[test]
fn unknown_fields_anywhere_make_no_difference() {
    let plain = vec![
        0x08, 0, 3, 0, 0, 0, 7, // one
        0x0b, 0, 4, 0, 0, 0, 2, b'h', b'i', // two
        0x00,
    ];
    let mixed = vec![
        0x0c, 0, 50, 0x0a, 0, 1, 0, 0, 0, 0, 0, 0, 0, 1, 0x00, // a struct, not declared
        0x08, 0, 3, 0, 0, 0, 7, // one
        0x0d, 0, 51, 0x03, 0x03, 0, 0, 0, 1, 5, 6, // a map, not declared
        0x0b, 0, 4, 0, 0, 0, 2, b'h', b'i', // two
        0x02, 0, 52, 1, // a bool, not declared
        0x00,
    ];
    let a: Many = decode(plain).unwrap();
    let b: Many = decode(mixed).unwrap();
    assert_eq!(a, b);
}

#[test]
fn field_with_a_declared_id_and_another_type_is_skipped() {
    // field 3 is declared as an i32; here it comes as a string
    let bytes = vec![0x0b, 0, 3, 0, 0, 0, 1, b'x', 0x08, 0, 3, 0, 0, 0, 9, 0x00];
    let back: Many = decode(bytes).unwrap();
    assert_eq!(back, Many { one: Some(9), two: None, three: None });
    let bytes = vec![0x0b, 0, 3, 0, 0, 0, 1, b'x', 0x00];
    let back: Many = decode(bytes).unwrap();
    assert_eq!(back, Many::default());
}

#[test]
fn of_a_repeated_field_the_last_stays() {
    let bytes = vec![0x08, 0, 3, 0, 0, 0, 1, 0x08, 0, 3, 0, 0, 0, 2, 0x00];
    let back: Many = decode(bytes).unwrap();
    assert_eq!(back.one, Some(2));
}

#[test]
fn struct_decode_reports_what_stops_it() {
    let r: Result<Many, Error> = decode(vec![0x08, 0, 3, 0, 0]);
    assert!(matches!(r, Err(Error::TransportError(_))));
    let r: Result<Many, Error> = decode(vec![0x08, 0, 3, 0, 0, 0, 1]);
    assert!(matches!(r, Err(Error::TransportError(_))));
    let r: Result<Many, Error> = decode(vec![0x07, 0, 3, 0]);
    assert!(matches!(r, Err(Error::ProtocolError(ProtocolError::ProtocolViolation))));
    let r: Result<Many, Error> = decode(vec![0x0b, 0, 4, 0, 0, 0, 1, 0xff, 0x00]);
    assert!(matches!(r, Err(Error::ProtocolError(ProtocolError::InvalidUtf8(_)))));
    // the list in field 9 holds numbers, not structs
    let r: Result<Many, Error> = decode(vec![0x0f, 0, 9, 0x08, 0, 0, 0, 0, 0x00]);
    assert!(matches!(r, Err(Error::ProtocolError(ProtocolError::ProtocolViolation))));
}

#[test]
fn union_writes_at_most_one_field() {
    assert_eq!(encode(&TestUnion::Unknown), vec![0x00]);
    assert_eq!(encode(&TestUnion::I32Field(5)), vec![0x08, 0, 2, 0, 0, 0, 5, 0x00]);
    assert_eq!(
        encode(&TestUnion::StringField(String::from("s"))),
        vec![0x0b, 0, 1, 0, 0, 0, 1, b's', 0x00]
    );
    assert_eq!(encode(&TestUnion::OtherI32Field(5)), vec![0x08, 0, 5, 0, 0, 0, 5, 0x00]);
    round_trip(TestUnion::Unknown);
    round_trip(TestUnion::I32Field(-1));
    round_trip(TestUnion::OtherI32Field(7));
    round_trip(TestUnion::StringField(String::from("text")));
    round_trip(TestUnion::StructList(vec![Simple { key: Some(String::from("k")) }]));
    assert_eq!(TestUnion::default(), TestUnion::Unknown);
}

#[test]
fn union_keeps_the_last_field() {
    let bytes = vec![
        0x0b, 0, 1, 0, 0, 0, 1, b's', // StringField
        0x08, 0, 2, 0, 0, 0, 5, // I32Field
        0x00,
    ];
    let back: TestUnion = decode(bytes).unwrap();
    assert_eq!(back, TestUnion::I32Field(5));
    let bytes = vec![
        0x08, 0, 2, 0, 0, 0, 5, // I32Field
        0x0b, 0, 1, 0, 0, 0, 1, b's', // StringField
        0x00,
    ];
    let back: TestUnion = decode(bytes).unwrap();
    assert_eq!(back, TestUnion::StringField(String::from("s")));
}

#[test]
fn union_without_a_known_field_is_unknown() {
    let back: TestUnion = decode(vec![0x08, 0, 77, 0, 0, 0, 5, 0x00]).unwrap();
    assert_eq!(back, TestUnion::Unknown);
    // an unknown field behind a known one leaves the known one
    let back: TestUnion =
        decode(vec![0x08, 0, 2, 0, 0, 0, 5, 0x08, 0, 77, 0, 0, 0, 6, 0x00]).unwrap();
    assert_eq!(back, TestUnion::I32Field(5));
}

#[test]
fn enum_is_an_i32() {
    assert_eq!(encode(&Operation::Add), vec![0, 0, 0, 1]);
    assert_eq!(encode(&Operation::Sub), vec![0, 0, 0, 2]);
    assert_eq!(encode(&Operation::Clear), vec![0, 0, 0, 3]);
    round_trip(Operation::Add);
    round_trip(Operation::Sub);
    round_trip(Operation::Clear);
    assert_eq!(Operation::default(), Operation::Sub);
    assert_eq!(Operation::from_num(1), Some(Operation::Add));
    assert_eq!(Operation::from_num(4), None);
    assert_eq!(Operation::Clear.code(), 3);
}

#[test]
fn enum_out_of_range_is_rejected() {
    for num in [0i32, 4, -1, i32::MAX, i32::MIN] {
        let r: Result<Operation, Error> = decode(num.to_be_bytes().to_vec());
        assert!(matches!(r, Err(Error::ProtocolError(ProtocolError::ProtocolViolation))));
    }
    let mut p = reader(vec![0, 0, 0, 9]);
    let r: Result<Operation, Error> = read_enum(&mut p);
    assert!(matches!(r, Err(Error::ProtocolError(ProtocolError::ProtocolViolation))));
    let mut p = reader(vec![0, 0, 9]);
    let r: Result<Operation, Error> = read_enum(&mut p);
    assert!(matches!(r, Err(Error::TransportError(_))));
}

#[test]
fn exception_struct_round_trip() {
    let value = Exception { name: Some(String::from("n")), message: Some(String::from("m")) };
    assert_eq!(
        encode(&value),
        vec![0x0b, 0, 0, 0, 0, 0, 1, b'n', 0x0b, 0, 1, 0, 0, 0, 1, b'm', 0x00]
    );
    round_trip(value);
    round_trip(Exception::default());
}

#[test]
fn decode_leaves_what_follows() {
    let mut p = reader(vec![0x0b, 0, 16, 0, 0, 0, 1, b'x', 0x00, 0xaa, 0xbb]);
    let back = Simple::decode(&mut p).unwrap();
    assert_eq!(back.key.as_deref(), Some("x"));
    assert_eq!(p.remaining(), 2);
    assert_eq!(p.read_byte().unwrap(), 0xaau8 as i8);
}

#[test]
fn double_is_eight_bytes() {
    let pi = Double { bits: std::f64::consts::PI.to_bits() };
    assert_eq!(<Double as ThriftTyped>::typ(), Type::Double);
    assert_eq!(encode(&pi), vec![0x40, 0x09, 0x21, 0xfb, 0x54, 0x44, 0x2d, 0x18]);
    round_trip(pi);
    round_trip(Double { bits: f64::NAN.to_bits() });
    round_trip(Double { bits: (-0.0f64).to_bits() });
    assert_eq!(f64::from_bits(Double::default().bits), 0.0);
    let back: Double = decode(vec![0x3f, 0xf0, 0, 0, 0, 0, 0, 0]).unwrap();
    assert_eq!(f64::from_bits(back.bits), 1.0);
}

#[test]
fn ordered_set_is_written_in_order() {
    let mut s = BTreeSet::new();
    s.insert(3i16);
    s.insert(-1);
    s.insert(2);
    assert_eq!(<BTreeSet<i16> as ThriftTyped>::typ(), Type::TSet);
    assert_eq!(encode(&s), vec![0x06, 0, 0, 0, 3, 0xff, 0xff, 0, 2, 0, 3]);
    round_trip(s.clone());
    round_trip(BTreeSet::<i64>::new());
    let back: BTreeSet<i16> = decode(vec![0x06, 0, 0, 0, 4, 0, 3, 0, 2, 0xff, 0xff, 0, 3]).unwrap();
    assert_eq!(back, s);
    let r: Result<BTreeSet<i16>, Error> = decode(vec![0x08, 0, 0, 0, 0]);
    assert!(matches!(r, Err(Error::ProtocolError(ProtocolError::ProtocolViolation))));
}

#[test]
fn ordered_map_is_written_in_order() {
    let mut m = BTreeMap::new();
    m.insert(2i32, String::from("b"));
    m.insert(1, String::from("a"));
    assert_eq!(<BTreeMap<i32, String> as ThriftTyped>::typ(), Type::TMap);
    assert_eq!(
        encode(&m),
        vec![
            0x08, 0x0b, 0, 0, 0, 2, //
            0, 0, 0, 1, 0, 0, 0, 1, b'a', //
            0, 0, 0, 2, 0, 0, 0, 1, b'b',
        ]
    );
    round_trip(m);
    round_trip(BTreeMap::<i64, Vec<i32>>::new());
    // of two entries with one key the later one stays
    let back: BTreeMap<i8, i8> = decode(vec![0x03, 0x03, 0, 0, 0, 3, 7, 1, 8, 2, 7, 3]).unwrap();
    let mut want = BTreeMap::new();
    want.insert(7i8, 3i8);
    want.insert(8, 2);
    assert_eq!(back, want);
    let r: Result<BTreeMap<i8, i8>, Error> = decode(vec![0x03, 0x06, 0, 0, 0, 0]);
    assert!(matches!(r, Err(Error::ProtocolError(ProtocolError::ProtocolViolation))));
}

#[test]
fn nested_containers_round_trip() {
    let mut inner = HashMap::new();
    inner.insert(1i32, vec![String::from("a"), String::from("b")]);
    inner.insert(2, vec![]);
    let mut outer = BTreeMap::new();
    outer.insert(-4i32, inner.clone());
    outer.insert(4, HashMap::new());
    round_trip(outer);
    let mut sets = Vec::new();
    let mut s = HashSet::new();
    s.insert(true);
    s.insert(false);
    sets.push(s);
    sets.push(HashSet::new());
    round_trip(sets);
}
