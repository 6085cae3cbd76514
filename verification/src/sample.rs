//! A small schema: a few structs, an enumeration, a union, the exceptions
//! of a method, and some constants.

use crate::endian::be_i32;
use crate::processor::Processor;
use crate::protocol::format::{
    field_begin_wire, field_stop_wire, message_begin_wire, reports, Fault, Parsed, Stream,
};
use crate::protocol::helpers::{parse_enum, read_enum};
use crate::protocol::{
    Codec, Decode, Encode, FromNum, MessageType, Protocol, ThriftTyped, Type,
};
use crate::record::{
    decode_struct, encode_struct, lemma_declared_field_first, lemma_parse_no_fields,
    optional_field_wire, parse_fields, parse_struct, struct_wire, write_optional_field, Record,
};
use crate::service::{outcome_wire, reply, Exceptions, Undeclared};
use crate::Error;
use std::collections::{HashMap, HashSet};
use vstd::prelude::*;

verus! {

// ---- Simple: one optional string ----

/// A struct with one optional string, field 16.
#[derive(Clone, Debug, PartialEq, Eq, Hash)]
pub struct Simple {
    pub key: Option<String>,
}

/// The model of a `Simple`.
pub struct SimpleModel {
    pub key: Option<Seq<char>>,
}

impl DeepView for Simple {
    type V = SimpleModel;

    open spec fn deep_view(&self) -> SimpleModel {
        SimpleModel { key: self.key.deep_view() }
    }
}

impl Default for Simple {
    fn default() -> (r: Simple)
        ensures
            r.key is None,
    {
        Simple { key: None }
    }
}

impl Record for Simple {
    open spec fn declares(ty: Type, id: i16) -> bool {
        id == 16 && ty == Type::String
    }

    open spec fn blank() -> SimpleModel {
        SimpleModel { key: None }
    }

    open spec fn parse_field(m: SimpleModel, ty: Type, id: i16, input: Seq<u8>) -> Parsed<
        SimpleModel,
    > {
        match <Option<String> as Decode>::parse(input) {
            Err(f) => Err(f),
            Ok((key, rest)) => Ok((SimpleModel { key }, rest)),
        }
    }

    open spec fn fields_wire(&self) -> Seq<u8> {
        optional_field_wire(16, &self.key)
    }

    proof fn parse_field_shortens(m: SimpleModel, ty: Type, id: i16, input: Seq<u8>) {
        <Option<String> as Decode>::parse_shortens(input);
    }

    fn new_blank() -> (r: Self) {
        Simple { key: None }
    }

    fn read_field<P: Protocol>(&mut self, ty: Type, id: i16, protocol: &mut P) -> (r: Result<
        bool,
        Error,
    >) {
        if id == 16 && ty == <String as ThriftTyped>::typ() {
            self.key = <Option<String> as Decode>::decode(protocol)?;
            Ok(true)
        } else {
            Ok(false)
        }
    }

    fn write_fields<P: Protocol>(&self, protocol: &mut P) -> (r: Result<(), Error>) {
        write_optional_field(protocol, "key", 16, &self.key)
    }
}

impl ThriftTyped for Simple {
    open spec fn wire_type() -> Type {
        Type::Struct
    }

    fn typ() -> Type {
        Type::Struct
    }
}

impl Encode for Simple {
    open spec fn wire(&self) -> Seq<u8> {
        struct_wire(self)
    }

    fn encode<P: Protocol>(&self, protocol: &mut P) -> (r: Result<(), Error>) {
        encode_struct(self, "Simple", protocol)
    }
}

impl Decode for Simple {
    open spec fn parse(input: Seq<u8>) -> Parsed<SimpleModel> {
        parse_struct::<Simple>(input)
    }

    proof fn parse_shortens(input: Seq<u8>) {
        crate::record::lemma_parse_fields_shortens::<Simple>(Simple::blank(), input);
    }

    fn decode<P: Protocol>(protocol: &mut P) -> (r: Result<Self, Error>) {
        decode_struct(protocol)
    }
}

impl Codec for Simple {
    open spec fn faithful(&self) -> bool {
        self.key matches Some(k) ==> k.faithful()
    }

    proof fn round_trip(&self, rest: Seq<u8>) {
        let stop = field_stop_wire() + rest;
        assert(self.wire() + rest =~= self.fields_wire() + stop);
        lemma_parse_no_fields::<Simple>(rest);
        crate::record::lemma_stop_ends_fields::<Simple>(self.deep_view(), rest);
        match self.key {
            None => {
                assert(self.fields_wire() + stop =~= stop);
            },
            Some(k) => {
                let body = k.wire() + stop;
                assert(self.fields_wire() + stop =~= field_begin_wire(Type::String, 16) + body);
                lemma_declared_field_first::<Simple>(Simple::blank(), Type::String, 16, body);
                self.key.round_trip(stop);
            },
        }
    }

    proof fn skip_over(&self, rest: Seq<u8>) {
        crate::protocol::format::lemma_skip_struct(self.wire() + rest);
        crate::record::lemma_skip_optional_field(16, &self.key, field_stop_wire() + rest);
        crate::record::lemma_skip_stop(rest);
        lemma_regroup(
            optional_field_wire(16, &self.key),
            field_stop_wire(),
            rest,
            Seq::empty(),
            Seq::empty(),
        );
        assert(rest + Seq::<u8>::empty() =~= rest);
    }
}

// ---- Empty: no fields ----

/// A struct without fields.
#[derive(Clone, Copy, Debug, PartialEq, Eq, Hash)]
pub struct Empty {}

/// The model of an `Empty`.
pub struct EmptyModel {}

impl DeepView for Empty {
    type V = EmptyModel;

    open spec fn deep_view(&self) -> EmptyModel {
        EmptyModel {  }
    }
}

impl Default for Empty {
    fn default() -> (r: Empty) {
        Empty {  }
    }
}

impl Record for Empty {
    open spec fn declares(ty: Type, id: i16) -> bool {
        false
    }

    open spec fn blank() -> EmptyModel {
        EmptyModel {  }
    }

    open spec fn parse_field(m: EmptyModel, ty: Type, id: i16, input: Seq<u8>) -> Parsed<
        EmptyModel,
    > {
        Ok((m, input))
    }

    open spec fn fields_wire(&self) -> Seq<u8> {
        Seq::empty()
    }

    proof fn parse_field_shortens(m: EmptyModel, ty: Type, id: i16, input: Seq<u8>) {
    }

    fn new_blank() -> (r: Self) {
        Empty {  }
    }

    fn read_field<P: Protocol>(&mut self, ty: Type, id: i16, protocol: &mut P) -> (r: Result<
        bool,
        Error,
    >) {
        Ok(false)
    }

    fn write_fields<P: Protocol>(&self, protocol: &mut P) -> (r: Result<(), Error>) {
        proof {
            assert(protocol.stream().written + Seq::<u8>::empty() =~= protocol.stream().written);
        }
        Ok(())
    }
}

impl ThriftTyped for Empty {
    open spec fn wire_type() -> Type {
        Type::Struct
    }

    fn typ() -> Type {
        Type::Struct
    }
}

impl Encode for Empty {
    open spec fn wire(&self) -> Seq<u8> {
        struct_wire(self)
    }

    fn encode<P: Protocol>(&self, protocol: &mut P) -> (r: Result<(), Error>) {
        encode_struct(self, "Empty", protocol)
    }
}

impl Decode for Empty {
    open spec fn parse(input: Seq<u8>) -> Parsed<EmptyModel> {
        parse_struct::<Empty>(input)
    }

    proof fn parse_shortens(input: Seq<u8>) {
        crate::record::lemma_parse_fields_shortens::<Empty>(Empty::blank(), input);
    }

    fn decode<P: Protocol>(protocol: &mut P) -> (r: Result<Self, Error>) {
        decode_struct(protocol)
    }
}

impl Codec for Empty {
    open spec fn faithful(&self) -> bool {
        true
    }

    proof fn round_trip(&self, rest: Seq<u8>) {
        crate::record::lemma_stop_ends_fields::<Empty>(self.deep_view(), rest);
        assert(self.wire() + rest =~= field_stop_wire() + rest);
    }

    proof fn skip_over(&self, rest: Seq<u8>) {
        crate::protocol::format::lemma_skip_struct(self.wire() + rest);
        crate::record::lemma_skip_stop(rest);
        assert(self.wire() + rest =~= field_stop_wire() + rest);
    }
}

// ---- Many: three optional fields ----

/// A struct with an optional number (field 3), an optional string
/// (field 4) and an optional list of structs (field 9).
#[derive(Clone, Debug, PartialEq, Eq, Hash)]
pub struct Many {
    pub one: Option<i32>,
    pub two: Option<String>,
    pub three: Option<Vec<Simple>>,
}

/// The model of a `Many`.
pub struct ManyModel {
    pub one: Option<i32>,
    pub two: Option<Seq<char>>,
    pub three: Option<Seq<SimpleModel>>,
}

impl DeepView for Many {
    type V = ManyModel;

    open spec fn deep_view(&self) -> ManyModel {
        ManyModel {
            one: self.one.deep_view(),
            two: self.two.deep_view(),
            three: self.three.deep_view(),
        }
    }
}

impl Default for Many {
    fn default() -> (r: Many)
        ensures
            r.one is None,
            r.two is None,
            r.three is None,
    {
        Many { one: None, two: None, three: None }
    }
}

impl Record for Many {
    open spec fn declares(ty: Type, id: i16) -> bool {
        ||| id == 3 && ty == Type::I32
        ||| id == 4 && ty == Type::String
        ||| id == 9 && ty == Type::List
    }

    open spec fn blank() -> ManyModel {
        ManyModel { one: None, two: None, three: None }
    }

    open spec fn parse_field(m: ManyModel, ty: Type, id: i16, input: Seq<u8>) -> Parsed<ManyModel> {
        if id == 3 {
            match <Option<i32> as Decode>::parse(input) {
                Err(f) => Err(f),
                Ok((one, rest)) => Ok((ManyModel { one, ..m }, rest)),
            }
        } else if id == 4 {
            match <Option<String> as Decode>::parse(input) {
                Err(f) => Err(f),
                Ok((two, rest)) => Ok((ManyModel { two, ..m }, rest)),
            }
        } else {
            match <Option<Vec<Simple>> as Decode>::parse(input) {
                Err(f) => Err(f),
                Ok((three, rest)) => Ok((ManyModel { three, ..m }, rest)),
            }
        }
    }

    open spec fn fields_wire(&self) -> Seq<u8> {
        optional_field_wire(3, &self.one) + optional_field_wire(4, &self.two)
            + optional_field_wire(9, &self.three)
    }

    proof fn parse_field_shortens(m: ManyModel, ty: Type, id: i16, input: Seq<u8>) {
        <Option<i32> as Decode>::parse_shortens(input);
        <Option<String> as Decode>::parse_shortens(input);
        <Option<Vec<Simple>> as Decode>::parse_shortens(input);
    }

    fn new_blank() -> (r: Self) {
        Many { one: None, two: None, three: None }
    }

    fn read_field<P: Protocol>(&mut self, ty: Type, id: i16, protocol: &mut P) -> (r: Result<
        bool,
        Error,
    >) {
        if id == 3 && ty == <i32 as ThriftTyped>::typ() {
            self.one = <Option<i32> as Decode>::decode(protocol)?;
            Ok(true)
        } else if id == 4 && ty == <String as ThriftTyped>::typ() {
            self.two = <Option<String> as Decode>::decode(protocol)?;
            Ok(true)
        } else if id == 9 && ty == <Vec<Simple> as ThriftTyped>::typ() {
            self.three = <Option<Vec<Simple>> as Decode>::decode(protocol)?;
            Ok(true)
        } else {
            Ok(false)
        }
    }

    fn write_fields<P: Protocol>(&self, protocol: &mut P) -> (r: Result<(), Error>) {
        write_optional_field(protocol, "one", 3, &self.one)?;
        write_optional_field(protocol, "two", 4, &self.two)?;
        let r = write_optional_field(protocol, "three", 9, &self.three);
        proof {
            assert(protocol.stream().written =~= old(protocol).stream().written
                + self.fields_wire());
        }
        r
    }
}

impl ThriftTyped for Many {
    open spec fn wire_type() -> Type {
        Type::Struct
    }

    fn typ() -> Type {
        Type::Struct
    }
}

impl Encode for Many {
    open spec fn wire(&self) -> Seq<u8> {
        struct_wire(self)
    }

    fn encode<P: Protocol>(&self, protocol: &mut P) -> (r: Result<(), Error>) {
        encode_struct(self, "Many", protocol)
    }
}

impl Decode for Many {
    open spec fn parse(input: Seq<u8>) -> Parsed<ManyModel> {
        parse_struct::<Many>(input)
    }

    proof fn parse_shortens(input: Seq<u8>) {
        crate::record::lemma_parse_fields_shortens::<Many>(Many::blank(), input);
    }

    fn decode<P: Protocol>(protocol: &mut P) -> (r: Result<Self, Error>) {
        decode_struct(protocol)
    }
}

/// Reading field 3 of a `Many` sets `one` and goes on.
proof fn lemma_many_one(m: ManyModel, one: &Option<i32>, tail: Seq<u8>)
    ensures
        parse_fields::<Many>(m, optional_field_wire(3, one) + tail) == parse_fields::<Many>(
            match one {
                Some(v) => ManyModel { one: Some(*v), ..m },
                None => m,
            },
            tail,
        ),
{
    match one {
        None => {
            assert(optional_field_wire(3, one) + tail =~= tail);
        },
        Some(v) => {
            let body = v.wire() + tail;
            assert(optional_field_wire(3, one) + tail =~= field_begin_wire(Type::I32, 3) + body);
            lemma_declared_field_first::<Many>(m, Type::I32, 3, body);
            one.round_trip(tail);
        },
    }
}

/// Reading field 4 of a `Many` sets `two` and goes on.
proof fn lemma_many_two(m: ManyModel, two: &Option<String>, tail: Seq<u8>)
    requires
        two matches Some(s) ==> s.faithful(),
    ensures
        parse_fields::<Many>(m, optional_field_wire(4, two) + tail) == parse_fields::<Many>(
            match two {
                Some(s) => ManyModel { two: Some(s@), ..m },
                None => m,
            },
            tail,
        ),
{
    match two {
        None => {
            assert(optional_field_wire(4, two) + tail =~= tail);
        },
        Some(s) => {
            let body = s.wire() + tail;
            assert(optional_field_wire(4, two) + tail =~= field_begin_wire(Type::String, 4)
                + body);
            lemma_declared_field_first::<Many>(m, Type::String, 4, body);
            two.round_trip(tail);
        },
    }
}

/// Reading field 9 of a `Many` sets `three` and goes on.
proof fn lemma_many_three(m: ManyModel, three: &Option<Vec<Simple>>, tail: Seq<u8>)
    requires
        three matches Some(v) ==> v.faithful(),
    ensures
        parse_fields::<Many>(m, optional_field_wire(9, three) + tail) == parse_fields::<Many>(
            match three {
                Some(v) => ManyModel { three: Some(v.deep_view()), ..m },
                None => m,
            },
            tail,
        ),
{
    match three {
        None => {
            assert(optional_field_wire(9, three) + tail =~= tail);
        },
        Some(v) => {
            let body = v.wire() + tail;
            assert(optional_field_wire(9, three) + tail =~= field_begin_wire(Type::List, 9)
                + body);
            lemma_declared_field_first::<Many>(m, Type::List, 9, body);
            three.round_trip(tail);
        },
    }
}

/// Five byte sequences in a row are the same bytes however they are
/// grouped.
proof fn lemma_regroup(a: Seq<u8>, b: Seq<u8>, c: Seq<u8>, d: Seq<u8>, e: Seq<u8>)
    ensures
        a + b + c + d + e == a + (b + (c + (d + e))),
{
    assert(a + b + c + d + e =~= a + (b + (c + (d + e))));
}

/// The three fields of a `Many`, written in order in front of the stop
/// marker, are read back.
proof fn lemma_many_fields(value: &Many, rest: Seq<u8>)
    requires
        value.two matches Some(s) ==> s.faithful(),
        value.three matches Some(v) ==> v.faithful(),
    ensures
        parse_fields::<Many>(
            Many::blank(),
            optional_field_wire(3, &value.one) + (optional_field_wire(4, &value.two) + (
            optional_field_wire(9, &value.three) + (field_stop_wire() + rest))),
        ) == Ok::<(ManyModel, Seq<u8>), Fault>((value.deep_view(), rest)),
{
    let stop = field_stop_wire() + rest;
    let t2 = optional_field_wire(9, &value.three) + stop;
    let t1 = optional_field_wire(4, &value.two) + t2;
    let m0 = Many::blank();
    let m1 = ManyModel { one: value.one.deep_view(), ..m0 };
    let m2 = ManyModel { two: value.two.deep_view(), ..m1 };
    let m3 = value.deep_view();
    lemma_many_one(m0, &value.one, t1);
    lemma_many_two(m1, &value.two, t2);
    lemma_many_three(m2, &value.three, stop);
    crate::record::lemma_stop_ends_fields::<Many>(m3, rest);
}

impl Codec for Many {
    open spec fn faithful(&self) -> bool {
        &&& self.two matches Some(s) ==> s.faithful()
        &&& self.three matches Some(v) ==> v.faithful()
    }

    proof fn round_trip(&self, rest: Seq<u8>) {
        lemma_many_fields(self, rest);
        lemma_regroup(
            optional_field_wire(3, &self.one),
            optional_field_wire(4, &self.two),
            optional_field_wire(9, &self.three),
            field_stop_wire(),
            rest,
        );
    }

    proof fn skip_over(&self, rest: Seq<u8>) {
        crate::protocol::format::lemma_skip_struct(self.wire() + rest);
        let stop = field_stop_wire() + rest;
        let t2 = optional_field_wire(9, &self.three) + stop;
        let t1 = optional_field_wire(4, &self.two) + t2;
        crate::record::lemma_skip_optional_field(3, &self.one, t1);
        crate::record::lemma_skip_optional_field(4, &self.two, t2);
        crate::record::lemma_skip_optional_field(9, &self.three, stop);
        crate::record::lemma_skip_stop(rest);
        lemma_regroup(
            optional_field_wire(3, &self.one),
            optional_field_wire(4, &self.two),
            optional_field_wire(9, &self.three),
            field_stop_wire(),
            rest,
        );
    }
}

// ---- Operation: an enumeration ----

/// An enumeration with the numbers 1, 2 and 3.
#[derive(Copy, Clone, Debug, Hash, PartialEq, Eq, Structural, PartialOrd, Ord)]
pub enum Operation {
    Add,
    Sub,
    Clear,
}

impl DeepView for Operation {
    type V = Operation;

    open spec fn deep_view(&self) -> Operation {
        *self
    }
}

impl Default for Operation {
    fn default() -> (r: Operation)
        ensures
            r == Operation::Sub,
    {
        Operation::Sub
    }
}

impl Operation {
    /// The number of a value.
    pub open spec fn spec_code(self) -> i32 {
        match self {
            Operation::Add => 1,
            Operation::Sub => 2,
            Operation::Clear => 3,
        }
    }

    pub fn code(self) -> (c: i32)
        ensures
            c == self.spec_code(),
    {
        match self {
            Operation::Add => 1,
            Operation::Sub => 2,
            Operation::Clear => 3,
        }
    }
}

impl FromNum for Operation {
    open spec fn spec_from_num(num: i32) -> Option<Operation> {
        if num == 1 {
            Some(Operation::Add)
        } else if num == 2 {
            Some(Operation::Sub)
        } else if num == 3 {
            Some(Operation::Clear)
        } else {
            None
        }
    }

    fn from_num(num: i32) -> (v: Option<Operation>) {
        match num {
            1 => Some(Operation::Add),
            2 => Some(Operation::Sub),
            3 => Some(Operation::Clear),
            _ => None,
        }
    }
}

impl ThriftTyped for Operation {
    open spec fn wire_type() -> Type {
        Type::I32
    }

    fn typ() -> Type {
        Type::I32
    }
}

impl Encode for Operation {
    open spec fn wire(&self) -> Seq<u8> {
        be_i32(self.spec_code())
    }

    fn encode<P: Protocol>(&self, protocol: &mut P) -> (r: Result<(), Error>) {
        protocol.write_i32(self.code())
    }
}

impl Decode for Operation {
    open spec fn parse(input: Seq<u8>) -> Parsed<Operation> {
        parse_enum::<Operation>(input)
    }

    proof fn parse_shortens(input: Seq<u8>) {
    }

    fn decode<P: Protocol>(protocol: &mut P) -> (r: Result<Self, Error>) {
        read_enum(protocol)
    }
}

impl Codec for Operation {
    open spec fn faithful(&self) -> bool {
        true
    }

    proof fn round_trip(&self, rest: Seq<u8>) {
        crate::protocol::format::lemma_parse_i32(self.spec_code(), rest);
    }

    proof fn skip_over(&self, rest: Seq<u8>) {
        crate::protocol::format::lemma_parse_i32(self.spec_code(), rest);
    }
}

// ---- TestUnion: a union ----

/// A union of a string (field 1), a number (field 2), a list of structs
/// (field 4) and another number (field 5).
#[derive(Clone, Debug, PartialEq)]
pub enum TestUnion {
    Unknown,
    StringField(String),
    I32Field(i32),
    StructList(Vec<Simple>),
    OtherI32Field(i32),
}

/// The model of a `TestUnion`.
pub enum TestUnionModel {
    Unknown,
    StringField(Seq<char>),
    I32Field(i32),
    StructList(Seq<SimpleModel>),
    OtherI32Field(i32),
}

impl DeepView for TestUnion {
    type V = TestUnionModel;

    open spec fn deep_view(&self) -> TestUnionModel {
        match self {
            TestUnion::Unknown => TestUnionModel::Unknown,
            TestUnion::StringField(s) => TestUnionModel::StringField(s@),
            TestUnion::I32Field(v) => TestUnionModel::I32Field(*v),
            TestUnion::StructList(l) => TestUnionModel::StructList(l.deep_view()),
            TestUnion::OtherI32Field(v) => TestUnionModel::OtherI32Field(*v),
        }
    }
}

impl Default for TestUnion {
    fn default() -> (r: TestUnion)
        ensures
            r is Unknown,
    {
        TestUnion::Unknown
    }
}

impl Record for TestUnion {
    open spec fn declares(ty: Type, id: i16) -> bool {
        ||| id == 1 && ty == Type::String
        ||| id == 2 && ty == Type::I32
        ||| id == 4 && ty == Type::List
        ||| id == 5 && ty == Type::I32
    }

    open spec fn blank() -> TestUnionModel {
        TestUnionModel::Unknown
    }

    open spec fn parse_field(m: TestUnionModel, ty: Type, id: i16, input: Seq<u8>) -> Parsed<
        TestUnionModel,
    > {
        if id == 1 {
            match <String as Decode>::parse(input) {
                Err(f) => Err(f),
                Ok((v, rest)) => Ok((TestUnionModel::StringField(v), rest)),
            }
        } else if id == 2 {
            match <i32 as Decode>::parse(input) {
                Err(f) => Err(f),
                Ok((v, rest)) => Ok((TestUnionModel::I32Field(v), rest)),
            }
        } else if id == 4 {
            match <Vec<Simple> as Decode>::parse(input) {
                Err(f) => Err(f),
                Ok((v, rest)) => Ok((TestUnionModel::StructList(v), rest)),
            }
        } else {
            match <i32 as Decode>::parse(input) {
                Err(f) => Err(f),
                Ok((v, rest)) => Ok((TestUnionModel::OtherI32Field(v), rest)),
            }
        }
    }

    /// At most one field is written: that of the variant, and none for
    /// `Unknown`.
    open spec fn fields_wire(&self) -> Seq<u8> {
        match self {
            TestUnion::Unknown => Seq::empty(),
            TestUnion::StringField(s) => crate::record::required_field_wire(1, s),
            TestUnion::I32Field(v) => crate::record::required_field_wire(2, v),
            TestUnion::StructList(l) => crate::record::required_field_wire(4, l),
            TestUnion::OtherI32Field(v) => crate::record::required_field_wire(5, v),
        }
    }

    proof fn parse_field_shortens(m: TestUnionModel, ty: Type, id: i16, input: Seq<u8>) {
        <String as Decode>::parse_shortens(input);
        <i32 as Decode>::parse_shortens(input);
        <Vec<Simple> as Decode>::parse_shortens(input);
    }

    fn new_blank() -> (r: Self) {
        TestUnion::Unknown
    }

    fn read_field<P: Protocol>(&mut self, ty: Type, id: i16, protocol: &mut P) -> (r: Result<
        bool,
        Error,
    >) {
        if id == 1 && ty == <String as ThriftTyped>::typ() {
            *self = TestUnion::StringField(<String as Decode>::decode(protocol)?);
            Ok(true)
        } else if id == 2 && ty == <i32 as ThriftTyped>::typ() {
            *self = TestUnion::I32Field(<i32 as Decode>::decode(protocol)?);
            Ok(true)
        } else if id == 4 && ty == <Vec<Simple> as ThriftTyped>::typ() {
            *self = TestUnion::StructList(<Vec<Simple> as Decode>::decode(protocol)?);
            Ok(true)
        } else if id == 5 && ty == <i32 as ThriftTyped>::typ() {
            *self = TestUnion::OtherI32Field(<i32 as Decode>::decode(protocol)?);
            Ok(true)
        } else {
            Ok(false)
        }
    }

    fn write_fields<P: Protocol>(&self, protocol: &mut P) -> (r: Result<(), Error>) {
        match self {
            TestUnion::Unknown => {
                proof {
                    assert(protocol.stream().written + Seq::<u8>::empty()
                        =~= protocol.stream().written);
                }
                Ok(())
            },
            TestUnion::StringField(s) => crate::record::write_required_field(
                protocol,
                "StringField",
                1,
                s,
            ),
            TestUnion::I32Field(v) => crate::record::write_required_field(
                protocol,
                "I32Field",
                2,
                v,
            ),
            TestUnion::StructList(l) => crate::record::write_required_field(
                protocol,
                "StructList",
                4,
                l,
            ),
            TestUnion::OtherI32Field(v) => crate::record::write_required_field(
                protocol,
                "OtherI32Field",
                5,
                v,
            ),
        }
    }
}

impl crate::record::Choice for TestUnion {
    proof fn field_replaces(
        m1: TestUnionModel,
        m2: TestUnionModel,
        ty: Type,
        id: i16,
        input: Seq<u8>,
    ) {
    }
}

impl ThriftTyped for TestUnion {
    open spec fn wire_type() -> Type {
        Type::Struct
    }

    fn typ() -> Type {
        Type::Struct
    }
}

impl Encode for TestUnion {
    open spec fn wire(&self) -> Seq<u8> {
        struct_wire(self)
    }

    fn encode<P: Protocol>(&self, protocol: &mut P) -> (r: Result<(), Error>) {
        encode_struct(self, "TestUnion", protocol)
    }
}

impl Decode for TestUnion {
    open spec fn parse(input: Seq<u8>) -> Parsed<TestUnionModel> {
        parse_struct::<TestUnion>(input)
    }

    proof fn parse_shortens(input: Seq<u8>) {
        crate::record::lemma_parse_fields_shortens::<TestUnion>(TestUnion::blank(), input);
    }

    fn decode<P: Protocol>(protocol: &mut P) -> (r: Result<Self, Error>) {
        decode_struct(protocol)
    }
}

impl Codec for TestUnion {
    open spec fn faithful(&self) -> bool {
        match self {
            TestUnion::StringField(s) => s.faithful(),
            TestUnion::StructList(l) => l.faithful(),
            _ => true,
        }
    }

    proof fn round_trip(&self, rest: Seq<u8>) {
        let stop = field_stop_wire() + rest;
        let m = self.deep_view();
        let m0 = TestUnion::blank();
        match self {
            TestUnion::Unknown => {
                assert(self.wire() + rest =~= stop);
                crate::record::lemma_stop_ends_fields::<TestUnion>(m, rest);
            },
            TestUnion::StringField(s) => {
                assert(self.wire() + rest =~= field_begin_wire(Type::String, 1) + s.wire()
                    + field_stop_wire() + rest);
                assert(TestUnion::parse_field(m0, Type::String, 1, s.wire() + stop) == Ok::<
                    (TestUnionModel, Seq<u8>),
                    Fault,
                >((m, stop))) by {
                    s.round_trip(stop);
                }
                crate::record::lemma_single_field::<TestUnion>(
                    m0,
                    Type::String,
                    1,
                    s.wire(),
                    m,
                    rest,
                );
            },
            TestUnion::I32Field(v) => {
                assert(self.wire() + rest =~= field_begin_wire(Type::I32, 2) + v.wire()
                    + field_stop_wire() + rest);
                assert(TestUnion::parse_field(m0, Type::I32, 2, v.wire() + stop) == Ok::<
                    (TestUnionModel, Seq<u8>),
                    Fault,
                >((m, stop))) by {
                    v.round_trip(stop);
                }
                crate::record::lemma_single_field::<TestUnion>(m0, Type::I32, 2, v.wire(), m, rest);
            },
            TestUnion::StructList(l) => {
                assert(self.wire() + rest =~= field_begin_wire(Type::List, 4) + l.wire()
                    + field_stop_wire() + rest);
                assert(TestUnion::parse_field(m0, Type::List, 4, l.wire() + stop) == Ok::<
                    (TestUnionModel, Seq<u8>),
                    Fault,
                >((m, stop))) by {
                    l.round_trip(stop);
                }
                crate::record::lemma_single_field::<TestUnion>(
                    m0,
                    Type::List,
                    4,
                    l.wire(),
                    m,
                    rest,
                );
            },
            TestUnion::OtherI32Field(v) => {
                assert(self.wire() + rest =~= field_begin_wire(Type::I32, 5) + v.wire()
                    + field_stop_wire() + rest);
                assert(TestUnion::parse_field(m0, Type::I32, 5, v.wire() + stop) == Ok::<
                    (TestUnionModel, Seq<u8>),
                    Fault,
                >((m, stop))) by {
                    v.round_trip(stop);
                }
                crate::record::lemma_single_field::<TestUnion>(m0, Type::I32, 5, v.wire(), m, rest);
            },
        }
    }

    proof fn skip_over(&self, rest: Seq<u8>) {
        crate::protocol::format::lemma_skip_struct(self.wire() + rest);
        let stop = field_stop_wire() + rest;
        crate::record::lemma_skip_stop(rest);
        match self {
            TestUnion::Unknown => {
                assert(self.wire() + rest =~= stop);
            },
            TestUnion::StringField(s) => {
                crate::record::lemma_skip_required_field(1, s, stop);
                assert(self.wire() + rest =~= crate::record::required_field_wire(1, s) + stop);
            },
            TestUnion::I32Field(v) => {
                crate::record::lemma_skip_required_field(2, v, stop);
                assert(self.wire() + rest =~= crate::record::required_field_wire(2, v) + stop);
            },
            TestUnion::StructList(l) => {
                crate::record::lemma_skip_required_field(4, l, stop);
                assert(self.wire() + rest =~= crate::record::required_field_wire(4, l) + stop);
            },
            TestUnion::OtherI32Field(v) => {
                crate::record::lemma_skip_required_field(5, v, stop);
                assert(self.wire() + rest =~= crate::record::required_field_wire(5, v) + stop);
            },
        }
    }
}

// ---- Exception: what a method may throw ----

/// A struct with an optional name (field 0) and an optional message
/// (field 1).
#[derive(Clone, Debug, PartialEq, Eq, Hash)]
pub struct Exception {
    pub name: Option<String>,
    pub message: Option<String>,
}

/// The model of an `Exception`.
pub struct ExceptionModel {
    pub name: Option<Seq<char>>,
    pub message: Option<Seq<char>>,
}

impl DeepView for Exception {
    type V = ExceptionModel;

    open spec fn deep_view(&self) -> ExceptionModel {
        ExceptionModel { name: self.name.deep_view(), message: self.message.deep_view() }
    }
}

impl Default for Exception {
    fn default() -> (r: Exception)
        ensures
            r.name is None,
            r.message is None,
    {
        Exception { name: None, message: None }
    }
}

impl Record for Exception {
    open spec fn declares(ty: Type, id: i16) -> bool {
        (id == 0 || id == 1) && ty == Type::String
    }

    open spec fn blank() -> ExceptionModel {
        ExceptionModel { name: None, message: None }
    }

    open spec fn parse_field(m: ExceptionModel, ty: Type, id: i16, input: Seq<u8>) -> Parsed<
        ExceptionModel,
    > {
        match <Option<String> as Decode>::parse(input) {
            Err(f) => Err(f),
            Ok((text, rest)) => if id == 0 {
                Ok((ExceptionModel { name: text, ..m }, rest))
            } else {
                Ok((ExceptionModel { message: text, ..m }, rest))
            },
        }
    }

    open spec fn fields_wire(&self) -> Seq<u8> {
        optional_field_wire(0, &self.name) + optional_field_wire(1, &self.message)
    }

    proof fn parse_field_shortens(m: ExceptionModel, ty: Type, id: i16, input: Seq<u8>) {
        <Option<String> as Decode>::parse_shortens(input);
    }

    fn new_blank() -> (r: Self) {
        Exception { name: None, message: None }
    }

    fn read_field<P: Protocol>(&mut self, ty: Type, id: i16, protocol: &mut P) -> (r: Result<
        bool,
        Error,
    >) {
        if id == 0 && ty == <String as ThriftTyped>::typ() {
            self.name = <Option<String> as Decode>::decode(protocol)?;
            Ok(true)
        } else if id == 1 && ty == <String as ThriftTyped>::typ() {
            self.message = <Option<String> as Decode>::decode(protocol)?;
            Ok(true)
        } else {
            Ok(false)
        }
    }

    fn write_fields<P: Protocol>(&self, protocol: &mut P) -> (r: Result<(), Error>) {
        write_optional_field(protocol, "name", 0, &self.name)?;
        let r = write_optional_field(protocol, "message", 1, &self.message);
        proof {
            assert(protocol.stream().written =~= old(protocol).stream().written
                + self.fields_wire());
        }
        r
    }
}

impl ThriftTyped for Exception {
    open spec fn wire_type() -> Type {
        Type::Struct
    }

    fn typ() -> Type {
        Type::Struct
    }
}

impl Encode for Exception {
    open spec fn wire(&self) -> Seq<u8> {
        struct_wire(self)
    }

    fn encode<P: Protocol>(&self, protocol: &mut P) -> (r: Result<(), Error>) {
        encode_struct(self, "Exception", protocol)
    }
}

impl Decode for Exception {
    open spec fn parse(input: Seq<u8>) -> Parsed<ExceptionModel> {
        parse_struct::<Exception>(input)
    }

    proof fn parse_shortens(input: Seq<u8>) {
        crate::record::lemma_parse_fields_shortens::<Exception>(Exception::blank(), input);
    }

    fn decode<P: Protocol>(protocol: &mut P) -> (r: Result<Self, Error>) {
        decode_struct(protocol)
    }
}

/// The two fields of an `Exception`, written in order in front of the
/// stop marker, are read back.
proof fn lemma_exception_fields(value: &Exception, rest: Seq<u8>)
    requires
        value.name matches Some(s) ==> s.faithful(),
        value.message matches Some(s) ==> s.faithful(),
    ensures
        parse_fields::<Exception>(
            Exception::blank(),
            optional_field_wire(0, &value.name) + (optional_field_wire(1, &value.message) + (
            field_stop_wire() + rest)),
        ) == Ok::<(ExceptionModel, Seq<u8>), Fault>((value.deep_view(), rest)),
{
    let stop = field_stop_wire() + rest;
    let t1 = optional_field_wire(1, &value.message) + stop;
    let m0 = Exception::blank();
    let m1 = ExceptionModel { name: value.name.deep_view(), ..m0 };
    let m2 = value.deep_view();
    if let Some(s) = value.name {
        value.name.round_trip(t1);
    }
    crate::record::lemma_optional_field_first::<Exception, String>(m0, 0, &value.name, m1, t1);
    if let Some(s) = value.message {
        value.message.round_trip(stop);
    }
    crate::record::lemma_optional_field_first::<Exception, String>(
        m1,
        1,
        &value.message,
        m2,
        stop,
    );
    crate::record::lemma_stop_ends_fields::<Exception>(m2, rest);
}

impl Codec for Exception {
    open spec fn faithful(&self) -> bool {
        &&& self.name matches Some(s) ==> s.faithful()
        &&& self.message matches Some(s) ==> s.faithful()
    }

    proof fn round_trip(&self, rest: Seq<u8>) {
        lemma_exception_fields(self, rest);
        lemma_regroup(
            optional_field_wire(0, &self.name),
            optional_field_wire(1, &self.message),
            field_stop_wire(),
            rest,
            Seq::empty(),
        );
        assert(rest + Seq::<u8>::empty() =~= rest);
    }

    proof fn skip_over(&self, rest: Seq<u8>) {
        crate::protocol::format::lemma_skip_struct(self.wire() + rest);
        let stop = field_stop_wire() + rest;
        let t1 = optional_field_wire(1, &self.message) + stop;
        crate::record::lemma_skip_optional_field(0, &self.name, t1);
        crate::record::lemma_skip_optional_field(1, &self.message, stop);
        crate::record::lemma_skip_stop(rest);
        lemma_regroup(
            optional_field_wire(0, &self.name),
            optional_field_wire(1, &self.message),
            field_stop_wire(),
            rest,
            Seq::empty(),
        );
        assert(rest + Seq::<u8>::empty() =~= rest);
    }
}

/// The exceptions of a method that declares one, `Bad`, in field 1.
#[derive(Clone, Debug, PartialEq)]
pub enum OperationExn {
    Unknown,
    Bad(Exception),
}

/// The model of an `OperationExn`.
pub enum OperationExnModel {
    Unknown,
    Bad(ExceptionModel),
}

impl DeepView for OperationExn {
    type V = OperationExnModel;

    open spec fn deep_view(&self) -> OperationExnModel {
        match self {
            OperationExn::Unknown => OperationExnModel::Unknown,
            OperationExn::Bad(e) => OperationExnModel::Bad(e.deep_view()),
        }
    }
}

impl Default for OperationExn {
    fn default() -> (r: OperationExn)
        ensures
            r is Unknown,
    {
        OperationExn::Unknown
    }
}

impl Exceptions for OperationExn {
    open spec fn declares(ty: Type, id: i16) -> bool {
        id == 1 && ty == Type::Struct
    }

    open spec fn unknown() -> OperationExnModel {
        OperationExnModel::Unknown
    }

    open spec fn parse_exception(ty: Type, id: i16, input: Seq<u8>) -> Parsed<OperationExnModel> {
        match <Exception as Decode>::parse(input) {
            Err(f) => Err(f),
            Ok((e, rest)) => Ok((OperationExnModel::Bad(e), rest)),
        }
    }

    open spec fn is_declared(&self) -> bool {
        self is Bad
    }

    open spec fn tag(&self) -> (Type, i16) {
        (Type::Struct, 1)
    }

    open spec fn body_wire(&self) -> Seq<u8> {
        match self {
            OperationExn::Unknown => Seq::empty(),
            OperationExn::Bad(e) => e.wire(),
        }
    }

    open spec fn faithful(&self) -> bool {
        match self {
            OperationExn::Unknown => true,
            OperationExn::Bad(e) => e.faithful(),
        }
    }

    proof fn ids_are_positive(ty: Type, id: i16) {
    }

    proof fn parse_exception_shortens(ty: Type, id: i16, input: Seq<u8>) {
        <Exception as Decode>::parse_shortens(input);
    }

    proof fn round_trip(&self, rest: Seq<u8>) {
        if let OperationExn::Bad(e) = self {
            if e.faithful() {
                e.round_trip(rest);
            }
        }
    }

    fn new_unknown() -> (r: Self) {
        OperationExn::Unknown
    }

    fn declared(&self) -> (b: bool) {
        match self {
            OperationExn::Unknown => false,
            OperationExn::Bad(_) => true,
        }
    }

    fn read_exception<P: Protocol>(ty: Type, id: i16, protocol: &mut P) -> (r: Result<
        Option<Self>,
        Error,
    >) {
        if id == 1 && ty == <Exception as ThriftTyped>::typ() {
            let e = <Exception as Decode>::decode(protocol)?;
            Ok(Some(OperationExn::Bad(e)))
        } else {
            Ok(None)
        }
    }

    fn write_exception<P: Protocol>(&self, protocol: &mut P) -> (r: Result<(), Error>) {
        match self {
            OperationExn::Unknown => {
                proof {
                    assert(protocol.stream().written + Seq::<u8>::empty()
                        =~= protocol.stream().written);
                }
                Ok(())
            },
            OperationExn::Bad(e) => crate::record::write_required_field(protocol, "bad", 1, e),
        }
    }
}

// ---- Echo: a processor ----

/// The processor of the method "echo": it answers each call with the
/// arguments of the call.
#[derive(Clone, Copy, Debug)]
pub struct Echo;

impl<P: Protocol> Processor<P> for Echo {
    /// The arguments, a `Simple`, are read, and a reply with the name
    /// "echo" and the sequence id of the call is written that holds them as
    /// its value. Arguments that cannot be read fail the run, and nothing
    /// is written.
    open spec fn processed(
        &self,
        stream: Stream,
        seq: i32,
        left: Stream,
        r: Result<(), Error>,
    ) -> bool {
        match <Simple as Decode>::parse(stream.unread) {
            Err(f) => {
                &&& r matches Err(e)
                &&& reports(e, f)
                &&& left.written == stream.written
            },
            Ok((m, rest)) => {
                &&& r is Ok
                &&& left.unread == rest
                &&& exists|args: Simple|
                    {
                        &&& args.deep_view() == m
                        &&& left.written == stream.written + message_begin_wire(
                            "echo"@,
                            MessageType::Reply,
                            seq,
                        ) + #[trigger] outcome_wire::<Simple, Undeclared>(&Ok(args))
                    }
            },
        }
    }

    fn process(&mut self, proto: &mut P, seq: i32) -> (r: Result<(), Error>) {
        let args = <Simple as Decode>::decode(proto)?;
        let outcome: Result<Simple, Undeclared> = Ok(args);
        let r = reply(proto, "echo", seq, &outcome);
        proof {
            assert(proto.stream().written =~= old(proto).stream().written + message_begin_wire(
                "echo"@,
                MessageType::Reply,
                seq,
            ) + outcome_wire::<Simple, Undeclared>(&outcome));
        }
        r
    }
}

// ---- constants ----

/// The list 1, 2, 3.
pub fn list_const() -> (v: Vec<i32>)
    ensures
        v@ == seq![1i32, 2, 3],
{
    let mut v: Vec<i32> = Vec::new();
    v.push(1);
    v.push(2);
    v.push(3);
    assert(v@ =~= seq![1i32, 2, 3]);
    v
}

/// The list without elements.
pub fn empty_list() -> (v: Vec<i32>)
    ensures
        v@ == Seq::<i32>::empty(),
{
    Vec::new()
}

/// The list of the strings "hello" and "world".
pub fn string_list() -> (v: Vec<&'static str>)
    ensures
        v@.len() == 2,
        v@[0]@ == "hello"@,
        v@[1]@ == "world"@,
{
    let mut v: Vec<&'static str> = Vec::new();
    v.push("hello");
    v.push("world");
    v
}

/// The map from 1 to "foo" and from 2 to "bar".
pub fn map_const() -> (m: HashMap<i32, &'static str>)
    ensures
        m@.dom() == set![1i32, 2],
        m@[1]@ == "foo"@,
        m@[2]@ == "bar"@,
{
    broadcast use vstd::std_specs::hash::group_hash_axioms;

    let mut m: HashMap<i32, &'static str> = HashMap::new();
    m.insert(1, "foo");
    m.insert(2, "bar");
    assert(m@.dom() =~= set![1i32, 2]);
    m
}

/// The map without entries.
pub fn empty_map() -> (m: HashMap<i32, i32>)
    ensures
        m@ == Map::<i32, i32>::empty(),
{
    broadcast use vstd::std_specs::hash::group_hash_axioms;

    HashMap::new()
}

/// The set of 1, 2 and 3, built from 1, 2, 3, 3, 2: what is put in twice
/// is held once.
pub fn set_const() -> (s: HashSet<i32>)
    ensures
        s@ == set![1i32, 2, 3],
{
    broadcast use vstd::std_specs::hash::group_hash_axioms;

    let mut s: HashSet<i32> = HashSet::new();
    s.insert(1);
    s.insert(2);
    s.insert(3);
    s.insert(3);
    s.insert(2);
    assert(s@ =~= set![1i32, 2, 3]);
    s
}

/// The set without elements.
pub fn empty_set() -> (s: HashSet<i32>)
    ensures
        s@ == Set::<i32>::empty(),
{
    broadcast use vstd::std_specs::hash::group_hash_axioms;

    HashSet::new()
}

} // verus!
