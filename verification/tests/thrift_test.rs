use std::collections::BTreeMap;
use thrift::protocol::binary_protocol::BinaryProtocol;
use thrift::protocol::{Decode, Encode, Protocol};
use thrift::sample::Simple;
use thrift::service::{call, handle_call, Exceptions};
use thrift::thrift_test::{
    TestExceptionExn, TestMultiExceptionExn, TestService, Xception, Xception2, Xtruct,
};
use thrift::transport::MemoryTransport;
use thrift::{Client, Error};

fn reader(bytes: Vec<u8>) -> BinaryProtocol {
    BinaryProtocol::new(MemoryTransport::new(bytes))
}

fn encode<T: Encode>(value: &T) -> Vec<u8> {
    let mut p = reader(Vec::new());
    value.encode(&mut p).unwrap();
    p.take_written()
}

fn round_trip<T: Encode + Decode + PartialEq + std::fmt::Debug>(value: T) {
    let mut p = reader(encode(&value));
    let back = T::decode(&mut p).unwrap();
    assert_eq!(p.remaining(), 0);
    assert_eq!(back, value);
}

#[test]
fn xtruct_layout_and_round_trip() {
    let value = Xtruct {
        string_thing: Some(String::from("s")),
        byte_thing: Some(-1),
        i32_thing: Some(2),
        i64_thing: Some(3),
    };
    assert_eq!(
        encode(&value),
        vec![
            0x0b, 0, 1, 0, 0, 0, 1, b's', // string_thing
            0x03, 0, 4, 0xff, // byte_thing
            0x08, 0, 9, 0, 0, 0, 2, // i32_thing
            0x0a, 0, 11, 0, 0, 0, 0, 0, 0, 0, 3, // i64_thing
            0x00,
        ]
    );
    round_trip(value);
    round_trip(Xtruct::default());
    round_trip(Xtruct { i32_thing: Some(i32::MIN), ..Xtruct::default() });
}

#[test]
fn xception_layout_and_round_trip() {
    let value = Xception { error_code: Some(1001), message: Some(String::from("m")) };
    assert_eq!(
        encode(&value),
        vec![0x08, 0, 1, 0, 0, 0x03, 0xe9, 0x0b, 0, 2, 0, 0, 0, 1, b'm', 0x00]
    );
    round_trip(value);
    round_trip(Xception::default());
    let nested = Xception2 {
        error_code: Some(2002),
        struct_thing: Some(Xtruct { byte_thing: Some(7), ..Xtruct::default() }),
    };
    assert_eq!(
        encode(&nested),
        vec![0x08, 0, 1, 0, 0, 0x07, 0xd2, 0x0c, 0, 2, 0x03, 0, 4, 7, 0x00, 0x00]
    );
    round_trip(nested);
    round_trip(Xception2::default());
}

#[test]
fn a_reader_of_fewer_fields_skips_the_others() {
    // an Xtruct read as a Simple: field 16 is not there, and fields 1 to 11 are skipped
    let value = Xtruct {
        string_thing: Some(String::from("s")),
        byte_thing: Some(-1),
        i32_thing: Some(2),
        i64_thing: Some(3),
    };
    let mut p = reader(encode(&value));
    let back = Simple::decode(&mut p).unwrap();
    assert_eq!(p.remaining(), 0);
    assert_eq!(back, Simple::default());
}

#[test]
fn test_map_map() {
    let r = TestService::new().testMapMap(7);
    let mut pos = BTreeMap::new();
    let mut neg = BTreeMap::new();
    for i in 1..5 {
        pos.insert(i, i);
        neg.insert(-i, -i);
    }
    let mut want = BTreeMap::new();
    want.insert(-4, neg);
    want.insert(4, pos);
    assert_eq!(r, want);
    round_trip(r);
}

#[test]
fn test_multi() {
    let r = TestService::new().testMulti(1, 2, 3);
    assert_eq!(
        r,
        Xtruct {
            string_thing: Some(String::from("Hello2")),
            byte_thing: Some(1),
            i32_thing: Some(2),
            i64_thing: Some(3),
        }
    );
}

#[test]
fn test_exception() {
    let mut service = TestService::new();
    assert_eq!(
        service.testException(String::from("Xception")),
        Err(TestExceptionExn::Err1(Xception {
            error_code: Some(1001),
            message: Some(String::from("Xception")),
        }))
    );
    assert_eq!(service.testException(String::from("TException")), Err(TestExceptionExn::Unknown));
    assert_eq!(service.testException(String::from("fine")), Ok(()));
    assert_eq!(service.testException(String::new()), Ok(()));
}

#[test]
fn test_multi_exception() {
    let mut service = TestService::new();
    assert_eq!(
        service.testMultiException(String::from("Xception"), String::from("ignored")),
        Err(TestMultiExceptionExn::Err1(Xception {
            error_code: Some(1001),
            message: Some(String::from("This is an Xception")),
        }))
    );
    assert_eq!(
        service.testMultiException(String::from("Xception2"), String::from("ignored")),
        Err(TestMultiExceptionExn::Err2(Xception2 {
            error_code: Some(2002),
            struct_thing: Some(Xtruct {
                string_thing: Some(String::from("This is an Xception2")),
                ..Xtruct::default()
            }),
        }))
    );
    assert_eq!(
        service.testMultiException(String::from("success"), String::from("kept")),
        Ok(Xtruct { string_thing: Some(String::from("kept")), ..Xtruct::default() })
    );
}

/// One call of `testMultiException` from the caller to the service and back.
fn multi_exception(arg0: &str, arg1: &str) -> Result<Result<Xtruct, TestMultiExceptionExn>, Error> {
    let args = Xtruct { string_thing: Some(String::from(arg0)), ..Xtruct::default() };
    let mut c = Client::new(reader(Vec::new()));
    c.sendcall(false, "testMultiException", &args).unwrap();
    let mut server = reader(c.protocol_mut().take_written());
    let (name, _, seq) = server.read_message_begin().unwrap();
    let second = String::from(arg1);
    handle_call(&mut server, &name, seq, move |args: Xtruct| {
        TestService::new().testMultiException(args.string_thing.unwrap_or_default(), second)
    })?;
    let mut c = Client::new(reader(server.take_written()));
    call(&mut c, "testMultiException", &args, Xtruct::default())
}

#[test]
fn each_declared_exception_reaches_the_caller_as_itself() {
    let r = multi_exception("Xception", "x").unwrap();
    assert!(matches!(r, Err(TestMultiExceptionExn::Err1(ref e)) if e.error_code == Some(1001)));
    let r = multi_exception("Xception2", "x").unwrap();
    assert!(matches!(r, Err(TestMultiExceptionExn::Err2(ref e)) if e.error_code == Some(2002)));
    let r = multi_exception("other", "x").unwrap();
    assert_eq!(r, Ok(Xtruct { string_thing: Some(String::from("x")), ..Xtruct::default() }));
}

#[test]
fn exception_sets_know_their_variants() {
    assert!(!TestExceptionExn::Unknown.declared());
    assert!(TestExceptionExn::Err1(Xception::default()).declared());
    assert!(!TestMultiExceptionExn::default().declared());
    assert!(TestMultiExceptionExn::Err1(Xception::default()).declared());
    assert!(TestMultiExceptionExn::Err2(Xception2::default()).declared());
    assert_eq!(TestExceptionExn::new_unknown(), TestExceptionExn::default());
}
