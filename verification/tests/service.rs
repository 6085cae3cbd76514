use thrift::processor::Processor;
use thrift::protocol::binary_protocol::{message_length, BinaryProtocol};
use thrift::protocol::helpers::{receive, receive_body, same_text, send, AppResult};
use thrift::protocol::{Encode, Error as ProtocolError, MessageType, Protocol, Type};
use thrift::sample::{Empty, Exception, Many, OperationExn, Simple};
use thrift::server::{serve_message, Registry, Served};
use thrift::service::{
    call, call_oneway, call_plain, check_reply, handle_call, handle_oneway, read_reply,
    read_result, reply, reply_exception_message, Exceptions, Undeclared,
};
use thrift::transport::MemoryTransport;
use thrift::{Client, Error};

fn reader(bytes: Vec<u8>) -> BinaryProtocol {
    BinaryProtocol::new(MemoryTransport::new(bytes))
}

fn client(input: Vec<u8>) -> Client<BinaryProtocol> {
    Client::new(reader(input))
}

fn written(c: Client<BinaryProtocol>) -> Vec<u8> {
    c.into_protocol().take_written()
}

fn simple(text: &str) -> Simple {
    Simple { key: Some(String::from(text)) }
}

/// The bytes of a reply to the call `(name, seq)` with the given outcome.
fn reply_bytes<R: Encode>(name: &str, seq: i32, outcome: &Result<R, OperationExn>) -> Vec<u8> {
    let mut p = reader(Vec::new());
    reply(&mut p, name, seq, outcome).unwrap();
    p.take_written()
}

#[test]
fn sendcall_frames_a_call() {
    let mut c = client(Vec::new());
    let seq = c.sendcall(false, "get", &simple("x")).unwrap();
    assert_eq!(seq, 1);
    assert_eq!(
        written(c),
        vec![
            0x80, 0x01, 0x00, 0x01, // version and kind: Call
            0, 0, 0, 3, b'g', b'e', b't', // name
            0, 0, 0, 1, // sequence id
            0x0b, 0, 16, 0, 0, 0, 1, b'x', 0x00, // arguments
        ]
    );
}

#[test]
fn sendcall_frames_a_oneway_call() {
    let mut c = client(Vec::new());
    let seq = c.sendcall(true, "get", &Empty {}).unwrap();
    assert_eq!(seq, 1);
    assert_eq!(
        written(c),
        vec![0x80, 0x01, 0x00, 0x04, 0, 0, 0, 3, b'g', b'e', b't', 0, 0, 0, 1, 0x00]
    );
}

#[test]
fn sequence_ids_count_up_from_one() {
    let mut c = client(Vec::new());
    assert_eq!(c.sendcall(false, "a", &Empty {}).unwrap(), 1);
    assert_eq!(c.sendcall(true, "b", &Empty {}).unwrap(), 2);
    assert_eq!(c.sendcall(false, "c", &Empty {}).unwrap(), 3);
}

#[test]
fn oneway_call_reads_nothing() {
    // nothing has arrived: a read would fail
    let mut c = client(Vec::new());
    call_oneway(&mut c, "fire", &simple("x")).unwrap();
    let mut p = c.into_protocol();
    assert_eq!(p.remaining(), 0);
    assert_eq!(&p.take_written()[..4], &[0x80, 0x01, 0x00, 0x04]);

    // something has arrived: it is left alone
    let mut c = client(vec![1, 2, 3]);
    call_oneway(&mut c, "fire", &simple("x")).unwrap();
    assert_eq!(c.into_protocol().remaining(), 3);
}

#[test]
fn call_returns_the_value() {
    let answer = reply_bytes("get", 1, &Ok(simple("value")));
    let mut c = client(answer);
    let r: Result<Simple, OperationExn> =
        call(&mut c, "get", &simple("key"), Simple::default()).unwrap();
    assert_eq!(r, Ok(simple("value")));
    let mut p = c.into_protocol();
    assert_eq!(p.remaining(), 0);
    assert_eq!(&p.take_written()[..4], &[0x80, 0x01, 0x00, 0x01]);
}

#[test]
fn reply_layout() {
    assert_eq!(
        reply_bytes("get", 5, &Ok(7i32)),
        vec![
            0x80, 0x01, 0x00, 0x02, // version and kind: Reply
            0, 0, 0, 3, b'g', b'e', b't', // name
            0, 0, 0, 5, // sequence id
            0x08, 0, 0, 0, 0, 0, 7, // field 0: the value
            0x00,
        ]
    );
    let bad = OperationExn::Bad(Exception { name: None, message: Some(String::from("m")) });
    assert_eq!(
        reply_bytes::<i32>("get", 5, &Err(bad)),
        vec![
            0x80, 0x01, 0x00, 0x02, 0, 0, 0, 3, b'g', b'e', b't', 0, 0, 0, 5, //
            0x0c, 0, 1, // field 1: the exception
            0x0b, 0, 1, 0, 0, 0, 1, b'm', 0x00, // its message, and its stop
            0x00,
        ]
    );
}

#[test]
fn declared_exception_reaches_the_caller() {
    // the caller's request
    let mut c = client(Vec::new());
    c.sendcall(false, "operation", &Empty {}).unwrap();
    let request = written(c);

    // the processor answers with the exception in field 1
    let mut server = reader(request);
    let (name, ty, seq) = server.read_message_begin().unwrap();
    assert_eq!((name.as_str(), ty, seq), ("operation", MessageType::Call, 1));
    handle_call(&mut server, "operation", seq, |_args: Empty| -> Result<i32, OperationExn> {
        Err(OperationExn::Bad(Exception {
            name: Some(String::from("Bad")),
            message: Some(String::from("no luck")),
        }))
    })
    .unwrap();
    assert_eq!(server.remaining(), 0);
    let answer = server.take_written();

    // the caller gets that exception
    let mut c = client(answer);
    let r: Result<i32, OperationExn> = call(&mut c, "operation", &Empty {}, 0).unwrap();
    assert_eq!(
        r,
        Err(OperationExn::Bad(Exception {
            name: Some(String::from("Bad")),
            message: Some(String::from("no luck")),
        }))
    );
}

#[test]
fn bare_exception_message_is_a_user_exception() {
    let mut p = reader(Vec::new());
    reply_exception_message(&mut p, "operation", 1).unwrap();
    let answer = p.take_written();
    assert_eq!(
        answer,
        vec![
            0x80, 0x01, 0x00, 0x03, 0, 0, 0, 9, b'o', b'p', b'e', b'r', b'a', b't', b'i', b'o',
            b'n', 0, 0, 0, 1
        ]
    );
    let mut c = client(answer.clone());
    let r: Result<Result<i32, OperationExn>, Error> = call(&mut c, "operation", &Empty {}, 0);
    assert!(matches!(r, Err(Error::ProtocolError(ProtocolError::UserException))));
    let mut c = client(answer);
    let r: Result<i32, Error> = call_plain(&mut c, "operation", &Empty {}, 0);
    assert!(matches!(r, Err(Error::ProtocolError(ProtocolError::UserException))));
}

#[test]
fn reply_with_another_sequence_id_is_rejected() {
    let answer = reply_bytes("get", 2, &Ok(7i32));
    let mut c = client(answer);
    let r: Result<Result<i32, OperationExn>, Error> = call(&mut c, "get", &Empty {}, 0);
    assert!(matches!(r, Err(Error::ProtocolError(ProtocolError::ProtocolViolation))));
}

#[test]
fn reply_with_another_name_is_rejected() {
    let answer = reply_bytes("put", 1, &Ok(7i32));
    let mut c = client(answer);
    let r: Result<Result<i32, OperationExn>, Error> = call(&mut c, "get", &Empty {}, 0);
    assert!(matches!(r, Err(Error::ProtocolError(ProtocolError::ProtocolViolation))));
}

#[test]
fn answer_of_another_kind_is_rejected() {
    for kind in [MessageType::Call, MessageType::Oneway] {
        let mut p = reader(Vec::new());
        send(&mut p, "get", kind, 0, &Empty {}).unwrap();
        let mut c = client(p.take_written());
        let r: Result<Result<i32, OperationExn>, Error> =
            read_reply(&mut c, "get", 0, 0);
        assert!(matches!(r, Err(Error::ProtocolError(ProtocolError::ProtocolViolation))));
    }
}

#[test]
fn check_reply_decides() {
    assert!(check_reply("get", 3, "get", MessageType::Reply, 3).is_ok());
    assert!(matches!(
        check_reply("get", 3, "get", MessageType::Reply, 4),
        Err(Error::ProtocolError(ProtocolError::ProtocolViolation))
    ));
    assert!(matches!(
        check_reply("get", 3, "got", MessageType::Reply, 3),
        Err(Error::ProtocolError(ProtocolError::ProtocolViolation))
    ));
    assert!(matches!(
        check_reply("get", 3, "get", MessageType::Call, 3),
        Err(Error::ProtocolError(ProtocolError::ProtocolViolation))
    ));
    assert!(matches!(
        check_reply("get", 3, "get", MessageType::Oneway, 3),
        Err(Error::ProtocolError(ProtocolError::ProtocolViolation))
    ));
    // an exception message is a user exception, whatever name and id it bears
    assert!(matches!(
        check_reply("get", 3, "other", MessageType::Exception, 9),
        Err(Error::ProtocolError(ProtocolError::UserException))
    ));
}

#[test]
fn result_without_fields_is_the_initial_value() {
    let mut c = client(vec![0x00]);
    let r: Result<i32, OperationExn> = read_result(&mut c, 42).unwrap();
    assert_eq!(r, Ok(42));
}

#[test]
fn unrecognized_result_field_is_a_failure_without_detail() {
    // field 7 is neither the value nor a declared exception
    let mut c = client(vec![0x08, 0, 7, 0, 0, 0, 1, 0x00]);
    let r: Result<i32, OperationExn> = read_result(&mut c, 0).unwrap();
    assert_eq!(r, Err(OperationExn::Unknown));
    assert_eq!(c.into_protocol().remaining(), 0);

    // field 0 with another type than the value's is not the value
    let mut c = client(vec![0x0b, 0, 0, 0, 0, 0, 1, b'x', 0x00]);
    let r: Result<i32, OperationExn> = read_result(&mut c, 0).unwrap();
    assert_eq!(r, Err(OperationExn::Unknown));

    // a method without declared exceptions: any exception is a user exception
    let mut answer = vec![0x80, 0x01, 0x00, 0x02, 0, 0, 0, 1, b'm', 0, 0, 0, 1];
    answer.extend_from_slice(&[0x0c, 0, 1, 0x00, 0x00]);
    let mut c = client(answer);
    let r: Result<i32, Error> = call_plain(&mut c, "m", &Empty {}, 0);
    assert!(matches!(r, Err(Error::ProtocolError(ProtocolError::UserException))));
}

#[test]
fn of_several_result_fields_the_last_decides() {
    // the value, then an unknown field
    let mut c = client(vec![0x08, 0, 0, 0, 0, 0, 5, 0x08, 0, 7, 0, 0, 0, 1, 0x00]);
    let r: Result<i32, OperationExn> = read_result(&mut c, 0).unwrap();
    assert_eq!(r, Err(OperationExn::Unknown));
    // an unknown field, then the value
    let mut c = client(vec![0x08, 0, 7, 0, 0, 0, 1, 0x08, 0, 0, 0, 0, 0, 5, 0x00]);
    let r: Result<i32, OperationExn> = read_result(&mut c, 0).unwrap();
    assert_eq!(r, Ok(5));
}

#[test]
fn void_result_travels_as_a_field_without_value() {
    let answer = reply_bytes("v", 1, &Ok(()));
    assert_eq!(&answer[answer.len() - 4..], &[0x01, 0, 0, 0x00]);
    let mut c = client(answer);
    let r: Result<(), Undeclared> = call(&mut c, "v", &Empty {}, ()).unwrap();
    assert_eq!(r, Ok(()));
}

#[test]
fn client_passes_reads_through() {
    let mut c = client(vec![
        0x80, 0x01, 0x00, 0x02, 0, 0, 0, 1, b'm', 0, 0, 0, 9, // header
        0x08, 0, 1, 0, 0, 0, 5, // a field
        0x0b, 0, 2, 0, 0, 0, 1, b'x', // another
        0x00,
    ]);
    let (name, ty, seq) = c.read_message_begin().unwrap();
    assert_eq!((name.as_str(), ty, seq), ("m", MessageType::Reply, 9));
    assert_eq!(c.read_struct_begin().unwrap(), "");
    assert_eq!(c.read_field_begin().unwrap(), (String::new(), Type::I32, 1));
    let v: i32 = c.decode().unwrap();
    assert_eq!(v, 5);
    c.read_field_end().unwrap();
    assert_eq!(c.read_field_begin().unwrap(), (String::new(), Type::String, 2));
    c.skip(Type::String).unwrap();
    c.read_field_end().unwrap();
    assert_eq!(c.read_field_begin().unwrap(), (String::new(), Type::Stop, 0));
    c.read_struct_end().unwrap();
    c.read_message_end().unwrap();
    assert_eq!(c.into_protocol().remaining(), 0);
}

#[test]
fn handle_call_answers_under_the_call_s_name_and_id() {
    let mut c = client(Vec::new());
    c.sendcall(false, "a", &Empty {}).unwrap();
    c.sendcall(false, "echo", &simple("ping")).unwrap();
    let mut request = written(c);
    request.push(0x55);

    let mut server = reader(request);
    let (_, _, first) = server.read_message_begin().unwrap();
    assert_eq!(first, 1);
    server.skip(Type::Struct).unwrap();
    let (name, _, seq) = server.read_message_begin().unwrap();
    assert_eq!(seq, 2);
    handle_call(&mut server, &name, seq, |args: Simple| -> Result<Simple, Undeclared> { Ok(args) })
        .unwrap();
    assert_eq!(server.remaining(), 1);
    let answer = server.take_written();
    assert_eq!(answer, reply_bytes("echo", 2, &Ok(simple("ping"))));
}

#[test]
fn handle_call_fails_on_bad_arguments() {
    let mut server = reader(vec![0x0b, 0, 16, 0, 0]);
    let r = handle_call(&mut server, "echo", 1, |args: Simple| -> Result<Simple, Undeclared> {
        Ok(args)
    });
    assert!(matches!(r, Err(Error::TransportError(_))));
    assert_eq!(server.take_written(), Vec::<u8>::new());
}

#[test]
fn handle_oneway_answers_nothing() {
    let mut seen = None;
    let mut server = reader(vec![0x0b, 0, 16, 0, 0, 0, 1, b'x', 0x00, 0x55]);
    handle_oneway(&mut server, |args: Simple| {
        seen = args.key;
    })
    .unwrap();
    assert_eq!(seen.as_deref(), Some("x"));
    assert_eq!(server.remaining(), 1);
    assert_eq!(server.take_written(), Vec::<u8>::new());
}

#[test]
fn send_carries_the_given_sequence_id() {
    let mut p = reader(Vec::new());
    send(&mut p, "op", MessageType::Reply, 7, &simple("x")).unwrap();
    assert_eq!(
        p.take_written(),
        vec![
            0x80, 0x01, 0x00, 0x02, 0, 0, 0, 2, b'o', b'p', 0, 0, 0, 7, //
            0x0b, 0, 16, 0, 0, 0, 1, b'x', 0x00,
        ]
    );
    // an answer sent with the id of its call is the answer that `reply` frames
    let mut p = reader(Vec::new());
    send(&mut p, "op", MessageType::Reply, 7, &Many::default()).unwrap();
    let mut q = reader(Vec::new());
    q.write_message_begin("op", MessageType::Reply, 7).unwrap();
    q.write_field_stop().unwrap();
    assert_eq!(p.take_written(), q.take_written());
}

#[test]
fn receive_decodes_the_body_of_the_expected_reply() {
    let mut p = reader(Vec::new());
    send(&mut p, "op", MessageType::Reply, 3, &simple("x")).unwrap();
    let mut bytes = p.take_written();
    bytes.push(0x55);

    let mut p = reader(bytes.clone());
    let mut result = Simple::default();
    assert_eq!(receive(&mut p, "op", 3, &mut result).unwrap(), AppResult::Success);
    assert_eq!(result, simple("x"));
    assert_eq!(p.remaining(), 1);

    // a reply to another operation is turned down, and its body stepped over
    let mut p = reader(bytes.clone());
    let mut result = Simple::default();
    let r = receive(&mut p, "other", 3, &mut result);
    assert!(matches!(r, Err(Error::ProtocolError(ProtocolError::ProtocolViolation))));
    assert_eq!(result, Simple::default());
    assert_eq!(p.remaining(), 1);

    // a reply with another sequence id is turned down, and its body stepped over
    let mut p = reader(bytes);
    let mut result = Simple::default();
    let r = receive(&mut p, "op", 4, &mut result);
    assert!(matches!(r, Err(Error::ProtocolError(ProtocolError::ProtocolViolation))));
    assert_eq!(result, Simple::default());
    assert_eq!(p.remaining(), 1);
}

#[test]
fn receive_turns_down_what_is_no_reply() {
    for kind in [MessageType::Call, MessageType::Oneway] {
        let mut p = reader(Vec::new());
        send(&mut p, "op", kind, 3, &simple("x")).unwrap();
        let mut p = reader(p.take_written());
        let mut result = Simple::default();
        let r = receive(&mut p, "op", 3, &mut result);
        assert!(matches!(r, Err(Error::ProtocolError(ProtocolError::ProtocolViolation))));
        assert_eq!(result, Simple::default());
        assert_eq!(p.remaining(), 0);
    }
}

#[test]
fn receive_is_a_violation_even_where_the_body_breaks_off() {
    let mut p = reader(Vec::new());
    send(&mut p, "op", MessageType::Reply, 3, &simple("x")).unwrap();
    let mut bytes = p.take_written();
    bytes.truncate(bytes.len() - 3);
    let mut p = reader(bytes);
    let mut result = Simple::default();
    let r = receive(&mut p, "op", 9, &mut result);
    assert!(matches!(r, Err(Error::ProtocolError(ProtocolError::ProtocolViolation))));
}

#[test]
fn receive_body_fails_on_an_exception_message() {
    let mut p = reader(vec![1, 2, 3]);
    let mut result = simple("kept");
    let r = receive_body(&mut p, "op", 1, &mut result, "op", MessageType::Exception, 1);
    assert!(matches!(r, Err(Error::ProtocolError(ProtocolError::UserException))));
    assert_eq!(p.remaining(), 3);
    assert_eq!(p.take_written(), Vec::<u8>::new());
    assert_eq!(result, simple("kept"));

    // whatever name and id the exception message bears
    let mut p = reader(Vec::new());
    reply_exception_message(&mut p, "other", 9).unwrap();
    let mut p = reader(p.take_written());
    let r = receive(&mut p, "op", 1, &mut result);
    assert!(matches!(r, Err(Error::ProtocolError(ProtocolError::UserException))));
    assert_eq!(p.remaining(), 0);
    assert_eq!(result, simple("kept"));
}

#[test]
fn app_result_markers() {
    assert_ne!(AppResult::Success, AppResult::Exception);
    assert!(AppResult::Success < AppResult::Exception);
}

#[test]
fn same_text_compares_strings() {
    assert!(same_text("abc", "abc"));
    assert!(same_text("", ""));
    assert!(!same_text("abc", "abd"));
    assert!(!same_text("abc", "ab"));
}

struct Echo {
    calls: usize,
}

impl Processor<BinaryProtocol> for Echo {
    fn process(&mut self, proto: &mut BinaryProtocol, seq: i32) -> Result<(), Error> {
        self.calls += 1;
        handle_call(proto, "echo", seq, |args: Many| -> Result<Many, Undeclared> { Ok(args) })
    }
}

struct Failing;

impl Processor<BinaryProtocol> for Failing {
    fn process(&mut self, _proto: &mut BinaryProtocol, _seq: i32) -> Result<(), Error> {
        Err(Error::UserException)
    }
}

#[test]
fn registry_keeps_one_processor_for_each_name() {
    let mut registry: Registry<Echo> = Registry::new();
    assert_eq!(registry.len(), 0);
    assert!(!registry.contains("echo"));
    registry.register("echo", Echo { calls: 0 });
    registry.register("other", Echo { calls: 0 });
    assert_eq!(registry.len(), 2);
    assert!(registry.contains("echo"));
    assert!(registry.contains("other"));
    assert!(!registry.contains("ech"));
    registry.register("echo", Echo { calls: 0 });
    assert_eq!(registry.len(), 2);
}

#[test]
fn server_loop_handles_known_and_unknown_methods() {
    let args = Many { one: Some(1), two: Some(String::from("two")), three: None };
    let mut c = client(Vec::new());
    c.sendcall(false, "nope", &args).unwrap();
    c.sendcall(false, "echo", &args).unwrap();
    let request = written(c);

    let mut registry: Registry<Echo> = Registry::new();
    registry.register("echo", Echo { calls: 0 });
    let mut server = reader(request);

    // the unknown method is skipped, arguments and all, and nothing is answered
    assert!(matches!(serve_message(&mut registry, &mut server), Served::Unknown));
    assert_eq!(server.take_written(), Vec::<u8>::new());
    // the known method is processed
    assert!(matches!(serve_message(&mut registry, &mut server), Served::Processed));
    assert_eq!(server.remaining(), 0);
    let answer = server.take_written();
    // nothing more to read: the connection is done
    assert!(matches!(
        serve_message(&mut registry, &mut server),
        Served::Closed(Error::TransportError(_))
    ));

    // the answer is the one to the second call
    let mut c = client(answer);
    c.sendcall(false, "nope", &args).unwrap();
    let r: Result<Many, Undeclared> = call(&mut c, "echo", &args, Many::default()).unwrap();
    assert_eq!(r, Ok(args));
}

#[test]
fn server_reports_a_failing_processor() {
    let mut c = client(Vec::new());
    c.sendcall(false, "fail", &Empty {}).unwrap();
    let mut registry: Registry<Failing> = Registry::new();
    registry.register("fail", Failing);
    let mut server = reader(written(c));
    assert!(matches!(
        serve_message(&mut registry, &mut server),
        Served::Failed(Error::UserException)
    ));
}

#[test]
fn server_closes_on_a_bad_header() {
    let mut registry: Registry<Failing> = Registry::new();
    let mut server = reader(vec![0, 1, 0, 1, 0, 0, 0, 0, 0, 0, 0, 1]);
    assert!(matches!(
        serve_message(&mut registry, &mut server),
        Served::Closed(Error::ProtocolError(ProtocolError::BadVersion))
    ));
    // an unknown method with arguments that never end
    let mut c = client(Vec::new());
    c.sendcall(false, "nope", &Empty {}).unwrap();
    let mut request = written(c);
    request.pop();
    let mut server = reader(request);
    assert!(matches!(
        serve_message(&mut registry, &mut server),
        Served::Closed(Error::TransportError(_))
    ));
}

#[test]
fn message_length_finds_the_end_of_a_message() {
    let mut c = client(Vec::new());
    c.sendcall(false, "get", &simple("x")).unwrap();
    let first = written(c);
    assert_eq!(first.len(), 24);
    assert_eq!(message_length(&first).unwrap(), Some(24));

    // what follows the message does not count
    let mut two = first.clone();
    two.extend_from_slice(&first);
    assert_eq!(message_length(&two).unwrap(), Some(24));
    assert_eq!(message_length(&two[24..]).unwrap(), Some(24));

    // a message that has not arrived whole has no length yet
    for cut in 0..first.len() {
        assert_eq!(message_length(&first[..cut]).unwrap(), None);
    }
}

#[test]
fn message_length_of_an_exception_message_is_its_header() {
    let mut p = reader(Vec::new());
    reply_exception_message(&mut p, "m", 3).unwrap();
    let mut bytes = p.take_written();
    assert_eq!(bytes.len(), 13);
    bytes.extend_from_slice(&[1, 2, 3]);
    assert_eq!(message_length(&bytes).unwrap(), Some(13));
}

#[test]
fn message_length_reports_bad_bytes() {
    assert!(matches!(
        message_length(&[0, 1, 0, 1, 0, 0, 0, 0, 0, 0, 0, 1, 0]),
        Err(Error::ProtocolError(ProtocolError::BadVersion))
    ));
    // a field with a type code that is none
    let mut c = client(Vec::new());
    c.sendcall(false, "m", &Empty {}).unwrap();
    let mut bytes = written(c);
    bytes.pop();
    bytes.extend_from_slice(&[0x05, 0, 1]);
    assert!(matches!(
        message_length(&bytes),
        Err(Error::ProtocolError(ProtocolError::ProtocolViolation))
    ));
}

#[test]
fn client_codec_can_be_fed_and_drained() {
    let mut c = client(Vec::new());
    let seq = c.sendcall(false, "get", &Empty {}).unwrap();
    let request = c.protocol_mut().take_written();
    assert_eq!(message_length(&request).unwrap(), Some(request.len()));
    c.protocol_mut().feed(&reply_bytes("get", seq, &Ok(5i32)));
    let r: Result<i32, OperationExn> = read_reply(&mut c, "get", seq, 0).unwrap();
    assert_eq!(r, Ok(5));
    // the next call goes on counting
    assert_eq!(c.sendcall(false, "get", &Empty {}).unwrap(), 2);
}

#[test]
fn only_declared_exceptions_can_be_answered() {
    let bad = OperationExn::Bad(Exception::default());
    assert!(bad.declared());
    assert!(!OperationExn::Unknown.declared());
    assert!(!OperationExn::default().declared());
    assert!(!Undeclared.declared());
    assert_eq!(OperationExn::new_unknown(), OperationExn::Unknown);
}

#[test]
fn echo_processor_answers_with_the_arguments() {
    let mut c = client(Vec::new());
    c.sendcall(false, "first", &Empty {}).unwrap();
    c.sendcall(false, "echo", &simple("ping")).unwrap();
    let mut request = written(c);
    request.push(0x55);

    let mut registry: Registry<thrift::sample::Echo> = Registry::new();
    registry.register("echo", thrift::sample::Echo);
    let mut server = reader(request);
    assert!(matches!(serve_message(&mut registry, &mut server), Served::Unknown));
    assert!(matches!(serve_message(&mut registry, &mut server), Served::Processed));
    // the processor read its arguments and nothing behind them
    assert_eq!(server.remaining(), 1);
    // and answered under the id of the second call
    assert_eq!(server.take_written(), reply_bytes("echo", 2, &Ok(simple("ping"))));

    // arguments that break off fail the run, and nothing is answered
    let mut c = client(Vec::new());
    c.sendcall(false, "echo", &simple("ping")).unwrap();
    let mut request = written(c);
    request.truncate(request.len() - 2);
    let mut server = reader(request);
    assert!(matches!(
        serve_message(&mut registry, &mut server),
        Served::Failed(Error::TransportError(_))
    ));
    assert_eq!(server.take_written(), Vec::<u8>::new());
}

#[test]
fn the_processor_gets_the_id_from_the_header() {
    struct Recorder(std::rc::Rc<std::cell::RefCell<Vec<i32>>>);
    impl Processor<BinaryProtocol> for Recorder {
        fn process(&mut self, proto: &mut BinaryProtocol, seq: i32) -> Result<(), Error> {
            self.0.borrow_mut().push(seq);
            proto.skip(Type::Struct)
        }
    }
    let mut c = client(Vec::new());
    c.sendcall(true, "note", &Empty {}).unwrap();
    c.sendcall(true, "other", &Empty {}).unwrap();
    c.sendcall(true, "note", &Empty {}).unwrap();
    let notes = std::rc::Rc::new(std::cell::RefCell::new(Vec::new()));
    let others = std::rc::Rc::new(std::cell::RefCell::new(Vec::new()));
    let mut registry: Registry<Recorder> = Registry::new();
    registry.register("other", Recorder(others.clone()));
    registry.register("note", Recorder(notes.clone()));
    let mut server = reader(written(c));
    loop {
        match serve_message(&mut registry, &mut server) {
            Served::Processed => {}
            Served::Closed(_) => break,
            other => panic!("unexpected {:?}", other),
        }
    }
    // each processor ran once for each of its requests, with the id of that request
    assert_eq!(*notes.borrow(), vec![1, 3]);
    assert_eq!(*others.borrow(), vec![2]);
}
