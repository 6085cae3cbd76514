//! The codecs of sets and maps.

use crate::impls::{
    items_wire, lemma_list_round_trip, lemma_list_skipped, lemma_parse_items_shortens, models,
    parse_items, prepend,
};
use crate::protocol::format::{
    element_count, lemma_parse_map_begin, list_begin_wire, map_begin_wire, parse_list_begin,
    parse_map_begin, skip_entries, skip_value, Fault, Parsed,
};
use crate::protocol::{Codec, Decode, Encode, Protocol, ThriftTyped, Type};
use crate::Error;
use std::collections::{HashMap, HashSet};
use std::hash::Hash;
use vstd::prelude::*;
use vstd::std_specs::hash::{
    into_iter, into_iter_hash_keys, obeys_key_model, spec_hash_keys_iter, spec_hash_map_iter,
};
use vstd::std_specs::iter::IteratorSpec;

verus! {

/// A type whose values can be the elements of a set and the keys of a
/// map: its equality and hashing are those of its values, and each value
/// is its own model.
pub trait Key: Codec + Eq + Hash + DeepView<V = Self> {
    proof fn key_model()
        ensures
            obeys_key_model::<Self>(),
            forall|k: Self| #[trigger] k.deep_view() == k,
    ;
}

impl Key for bool {
    proof fn key_model() {
        broadcast use vstd::std_specs::hash::group_hash_axioms;

    }
}

impl Key for i8 {
    proof fn key_model() {
        broadcast use vstd::std_specs::hash::group_hash_axioms;

    }
}

impl Key for i16 {
    proof fn key_model() {
        broadcast use vstd::std_specs::hash::group_hash_axioms;

    }
}

impl Key for i32 {
    proof fn key_model() {
        broadcast use vstd::std_specs::hash::group_hash_axioms;

    }
}

impl Key for i64 {
    proof fn key_model() {
        broadcast use vstd::std_specs::hash::group_hash_axioms;

    }
}

/// The set of the values found by a parse.
pub open spec fn as_set<M>(p: Parsed<Seq<M>>) -> Parsed<Set<M>> {
    match p {
        Err(f) => Err(f),
        Ok((ms, rest)) => Ok((ms.to_set(), rest)),
    }
}

/// Each key is its own model: the models of some keys are the keys.
pub proof fn lemma_key_models<X: Key>(s: Seq<X>)
    ensures
        models(s) == s,
{
    X::key_model();
    assert(models(s) =~= s);
}

/// A set of keys is its own model.
pub proof fn lemma_key_set_model<X: Key>(s: Set<X>)
    ensures
        s.map(|x: X| x.deep_view()) == s,
{
    X::key_model();
    let f = |x: X| x.deep_view();
    assert forall|x: X| s.map(f).contains(x) <==> s.contains(x) by {
        if s.contains(x) {
            assert(f(x) == x);
        }
    }
    assert(s.map(f) =~= s);
}

/// A value put behind some values joins their set.
pub proof fn lemma_push_to_set<M>(s: Seq<M>, v: M)
    ensures
        s.push(v).to_set() == s.to_set().insert(v),
{
    let t = s.push(v);
    assert forall|x: M| t.to_set().contains(x) <==> s.to_set().insert(v).contains(x) by {
        if t.contains(x) {
            let i = choose|i: int| 0 <= i < t.len() && t[i] == x;
            if i < s.len() {
                assert(s[i] == x);
            }
        }
        if s.contains(x) {
            let i = choose|i: int| 0 <= i < s.len() && s[i] == x;
            assert(t[i] == x);
        }
        if x == v {
            assert(t[s.len() as int] == x);
        }
    }
    assert(t.to_set() =~= s.to_set().insert(v));
}

/// The elements of a set in the order in which the set hands them out.
pub open spec fn walk<X>(s: &HashSet<X>) -> Seq<X> {
    into_iter_hash_keys(spec_hash_keys_iter(s))
}

impl<X: ThriftTyped> ThriftTyped for HashSet<X> {
    open spec fn wire_type() -> Type {
        Type::TSet
    }

    fn typ() -> Type {
        Type::TSet
    }
}

impl<X: Key> Encode for HashSet<X> {
    open spec fn wire(&self) -> Seq<u8> {
        list_begin_wire(X::wire_type(), self@.len() as usize) + items_wire(walk(self))
    }

    fn encode<P: Protocol>(&self, protocol: &mut P) -> (r: Result<(), Error>) {
        broadcast use vstd::std_specs::hash::group_hash_axioms;

        proof {
            X::key_model();
        }
        protocol.write_set_begin(X::typ(), self.len())?;
        let ghost order = walk(self);
        proof {
            assert(order.skip(0) =~= order);
            assert(protocol.stream().written + items_wire(order) =~= old(
                protocol,
            ).stream().written + self.wire());
        }
        for x in it: self.iter()
            invariant
                order == it.seq().unref(),
                protocol.stream().unread == old(protocol).stream().unread,
                protocol.stream().written + items_wire(order.skip(it.index())) == old(
                    protocol,
                ).stream().written + self.wire(),
        {
            let ghost before = protocol.stream().written;
            let ghost i = it.index();
            x.encode(protocol)?;
            proof {
                let here = order.skip(i);
                assert(here[0] == *x);
                assert(here.skip(1) =~= order.skip(i + 1));
                assert(before + items_wire(here) =~= (before + here[0].wire()) + items_wire(
                    here.skip(1),
                ));
            }
        }
        proof {
            assert(order.skip(order.len() as int) =~= Seq::<X>::empty());
            assert(protocol.stream().written + Seq::<u8>::empty() =~= protocol.stream().written);
        }
        protocol.write_set_end()
    }
}

impl<X: Key> Decode for HashSet<X> {
    /// The elements found, as a set: what stands there twice is held
    /// once.
    open spec fn parse(input: Seq<u8>) -> Parsed<Set<X>> {
        match parse_list_begin(input) {
            Err(f) => Err(f),
            Ok(((elem_type, size), rest)) => if elem_type == X::wire_type() {
                as_set(parse_items::<X>(element_count(size as int), rest))
            } else {
                Err(Fault::ProtocolViolation)
            },
        }
    }

    proof fn parse_shortens(input: Seq<u8>) {
        if let Ok(((elem_type, size), rest)) = parse_list_begin(input) {
            lemma_parse_items_shortens::<X>(element_count(size as int), rest);
        }
    }

    fn decode<P: Protocol>(protocol: &mut P) -> (r: Result<Self, Error>) {
        broadcast use vstd::std_specs::hash::group_hash_axioms;

        proof {
            X::key_model();
        }
        let ghost start = protocol.stream().unread;
        let (elem_type, len) = protocol.read_set_begin()?;
        if elem_type == X::typ() {
            let mut ret: HashSet<X> = HashSet::new();
            let ghost mut done: Seq<X> = Seq::empty();
            let mut i: i32 = 0;
            proof {
                assert(done.to_set() =~= Set::<X>::empty());
            }
            while i < len
                invariant
                    0 <= i,
                    len > 0 ==> i <= len,
                    obeys_key_model::<X>(),
                    start == old(protocol).stream().unread,
                    protocol.stream().written == old(protocol).stream().written,
                    ret@ == done.to_set(),
                    Self::parse(start) == as_set(
                        prepend(
                            done,
                            parse_items::<X>(element_count(len - i), protocol.stream().unread),
                        ),
                    ),
                decreases len - i,
            {
                let v = X::decode(protocol)?;
                proof {
                    X::key_model();
                    lemma_push_to_set(done, v);
                    let more = parse_items::<X>(
                        element_count(len - i - 1),
                        protocol.stream().unread,
                    );
                    if let Ok((ms, rest)) = more {
                        assert(done + (seq![v.deep_view()] + ms) =~= done.push(v) + ms);
                    }
                    done = done.push(v);
                }
                ret.insert(v);
                i = i + 1;
            }
            protocol.read_set_end()?;
            proof {
                assert(done + Seq::<X>::empty() =~= done);
                lemma_key_set_model(ret@);
            }
            Ok(ret)
        } else {
            Err(Error::ProtocolError(crate::protocol::Error::ProtocolViolation))
        }
    }
}

impl<X: Key> Codec for HashSet<X> {
    /// The set has fewer than 2^31 elements, each of them faithful, and it
    /// hands out each of them once.
    open spec fn faithful(&self) -> bool {
        &&& self@.len() <= i32::MAX
        &&& walk(self).len() == self@.len()
        &&& walk(self).to_set() == self@
        &&& forall|i: int| 0 <= i < walk(self).len() ==> (#[trigger] walk(self)[i]).faithful()
    }

    proof fn round_trip(&self, rest: Seq<u8>) {
        lemma_list_round_trip::<X>(walk(self), self@.len() as usize, rest);
        lemma_key_models(walk(self));
        lemma_key_set_model(self@);
    }

    proof fn skip_over(&self, rest: Seq<u8>) {
        lemma_list_skipped::<X>(Type::TSet, walk(self), self@.len() as usize, rest);
    }
}

// ---- maps ----

/// The entries of a map in the order in which the map hands them out.
pub open spec fn walk_map<K, V>(m: &HashMap<K, V>) -> Seq<(K, V)> {
    into_iter(spec_hash_map_iter(m))
}

/// The bytes of some entries: each key followed by its value.
pub open spec fn entries_wire<K: Encode, V: Encode>(s: Seq<(K, V)>) -> Seq<u8>
    decreases s.len(),
{
    if s.len() == 0 {
        Seq::empty()
    } else {
        s[0].0.wire() + s[0].1.wire() + entries_wire(s.skip(1))
    }
}

/// The models of `count` entries at the front of `input`, in order.
pub open spec fn parse_entries<K: Decode, V: Decode>(count: nat, input: Seq<u8>) -> Parsed<
    Seq<(K::V, V::V)>,
>
    decreases count,
{
    if count == 0 {
        Ok((Seq::empty(), input))
    } else {
        match K::parse(input) {
            Err(f) => Err(f),
            Ok((k, rest)) => match V::parse(rest) {
                Err(f) => Err(f),
                Ok((v, rest2)) => prepend(
                    seq![(k, v)],
                    parse_entries::<K, V>((count - 1) as nat, rest2),
                ),
            },
        }
    }
}

/// The map that some entries make when they are put in one after the
/// other: of two entries with one key the later one stays.
pub open spec fn as_map<A, B>(entries: Seq<(A, B)>) -> Map<A, B>
    decreases entries.len(),
{
    if entries.len() == 0 {
        Map::empty()
    } else {
        as_map(entries.drop_last()).insert(entries.last().0, entries.last().1)
    }
}

/// The map of the entries found by a parse.
pub open spec fn collect_map<A, B>(p: Parsed<Seq<(A, B)>>) -> Parsed<Map<A, B>> {
    match p {
        Err(f) => Err(f),
        Ok((es, rest)) => Ok((as_map(es), rest)),
    }
}

/// The models of some entries with keys that are their own models.
pub open spec fn entry_models<K, V: DeepView>(s: Seq<(K, V)>) -> Seq<(K, V::V)> {
    Seq::new(s.len(), |i: int| (s[i].0, s[i].1.deep_view()))
}

/// What is left behind some entries is no longer than what was there.
pub proof fn lemma_parse_entries_shortens<K: Decode, V: Decode>(count: nat, input: Seq<u8>)
    ensures
        parse_entries::<K, V>(count, input) matches Ok((_, rest)) ==> rest.len() <= input.len(),
    decreases count,
{
    if count > 0 {
        K::parse_shortens(input);
        if let Ok((k, rest)) = K::parse(input) {
            V::parse_shortens(rest);
            if let Ok((v, rest2)) = V::parse(rest) {
                lemma_parse_entries_shortens::<K, V>((count - 1) as nat, rest2);
            }
        }
    }
}

/// Faithful entries written one after the other are read back in order.
pub proof fn lemma_entries_round_trip<K: Key, V: Codec>(s: Seq<(K, V)>, rest: Seq<u8>)
    requires
        forall|i: int| 0 <= i < s.len() ==> (#[trigger] s[i]).0.faithful() && s[i].1.faithful(),
    ensures
        parse_entries::<K, V>(s.len(), entries_wire(s) + rest) == Ok::<
            (Seq<(K, V::V)>, Seq<u8>),
            Fault,
        >((entry_models(s), rest)),
    decreases s.len(),
{
    if s.len() == 0 {
        assert(entries_wire(s) + rest =~= rest);
        assert(entry_models(s) =~= Seq::<(K, V::V)>::empty());
    } else {
        let tail = s.skip(1);
        let after_value = entries_wire(tail) + rest;
        let after_key = s[0].1.wire() + after_value;
        let input = s[0].0.wire() + after_key;
        assert(entries_wire(s) + rest == input) by {
            assert(entries_wire(s) + rest =~= input);
        }
        assert(s[0].0.faithful() && s[0].1.faithful());
        assert(K::parse(input) == Ok::<(K, Seq<u8>), Fault>((s[0].0, after_key))) by {
            K::key_model();
            s[0].0.round_trip(after_key);
        }
        assert(V::parse(after_key) == Ok::<(V::V, Seq<u8>), Fault>(
            (s[0].1.deep_view(), after_value),
        )) by {
            s[0].1.round_trip(after_value);
        }
        assert(parse_entries::<K, V>(tail.len(), after_value) == Ok::<
            (Seq<(K, V::V)>, Seq<u8>),
            Fault,
        >((entry_models(tail), rest))) by {
            assert forall|i: int| 0 <= i < tail.len() implies (#[trigger] tail[i]).0.faithful()
                && tail[i].1.faithful() by {
                assert(tail[i] == s[i + 1]);
            }
            lemma_entries_round_trip::<K, V>(tail, rest);
        }
        assert(seq![(s[0].0, s[0].1.deep_view())] + entry_models(tail) == entry_models(s)) by {
            assert(seq![(s[0].0, s[0].1.deep_view())] + entry_models(tail) =~= entry_models(s));
        }
    }
}

/// Faithful entries written one after the other are skipped as one.
pub proof fn lemma_entries_skipped<K: Codec, V: Codec>(s: Seq<(K, V)>, rest: Seq<u8>)
    requires
        forall|i: int| 0 <= i < s.len() ==> (#[trigger] s[i]).0.faithful() && s[i].1.faithful(),
    ensures
        skip_entries(K::wire_type(), V::wire_type(), s.len(), entries_wire(s) + rest) == Ok::<
            Seq<u8>,
            Fault,
        >(rest),
    decreases s.len(),
{
    if s.len() == 0 {
        assert(entries_wire(s) + rest =~= rest);
    } else {
        let tail = s.skip(1);
        let after_value = entries_wire(tail) + rest;
        let after_key = s[0].1.wire() + after_value;
        let input = s[0].0.wire() + after_key;
        assert(entries_wire(s) + rest == input) by {
            assert(entries_wire(s) + rest =~= input);
        }
        assert(s[0].0.faithful() && s[0].1.faithful());
        assert(skip_value(K::wire_type(), input) == Ok::<Seq<u8>, Fault>(after_key)) by {
            s[0].0.skip_over(after_key);
        }
        assert(skip_value(V::wire_type(), after_key) == Ok::<Seq<u8>, Fault>(after_value)) by {
            s[0].1.skip_over(after_value);
        }
        assert(skip_entries(K::wire_type(), V::wire_type(), tail.len(), after_value) == Ok::<
            Seq<u8>,
            Fault,
        >(rest)) by {
            assert forall|i: int| 0 <= i < tail.len() implies (#[trigger] tail[i]).0.faithful()
                && tail[i].1.faithful() by {
                assert(tail[i] == s[i + 1]);
            }
            lemma_entries_skipped::<K, V>(tail, rest);
        }
        assert(after_key.len() <= input.len());
        assert(after_value.len() <= input.len());
    }
}

/// A map of faithful entries, written behind its header, is read back:
/// the header names the two types and the count, and the entries follow
/// in order.
pub proof fn lemma_map_round_trip<K: Key, V: Codec>(s: Seq<(K, V)>, size: usize, rest: Seq<u8>)
    requires
        size == s.len(),
        size <= i32::MAX,
        forall|i: int| 0 <= i < s.len() ==> (#[trigger] s[i]).0.faithful() && s[i].1.faithful(),
    ensures
        parse_map_begin(
            map_begin_wire(K::wire_type(), V::wire_type(), size) + entries_wire(s) + rest,
        ) matches Ok(((key_type, value_type, count), body)) && key_type == K::wire_type()
            && value_type == V::wire_type() && parse_entries::<K, V>(
            element_count(count as int),
            body,
        ) == Ok::<(Seq<(K, V::V)>, Seq<u8>), Fault>((entry_models(s), rest)),
{
    let header = map_begin_wire(K::wire_type(), V::wire_type(), size);
    let body = entries_wire(s) + rest;
    let input = header + entries_wire(s) + rest;
    assert(input == header + body) by {
        assert(input =~= header + body);
    }
    lemma_parse_map_begin(K::wire_type(), V::wire_type(), size, body);
    lemma_entries_round_trip::<K, V>(s, rest);
}

/// A map of faithful entries, written behind its header, is skipped as
/// one.
pub proof fn lemma_map_skipped<K: Codec, V: Codec>(s: Seq<(K, V)>, size: usize, rest: Seq<u8>)
    requires
        size == s.len(),
        size <= i32::MAX,
        forall|i: int| 0 <= i < s.len() ==> (#[trigger] s[i]).0.faithful() && s[i].1.faithful(),
    ensures
        skip_value(
            Type::TMap,
            map_begin_wire(K::wire_type(), V::wire_type(), size) + entries_wire(s) + rest,
        ) == Ok::<Seq<u8>, Fault>(rest),
{
    let header = map_begin_wire(K::wire_type(), V::wire_type(), size);
    let body = entries_wire(s) + rest;
    let input = header + entries_wire(s) + rest;
    assert(input == header + body) by {
        assert(input =~= header + body);
    }
    lemma_parse_map_begin(K::wire_type(), V::wire_type(), size, body);
    assert(input.len() == 6 + body.len());
    lemma_entries_skipped::<K, V>(s, rest);
}

/// An entry put behind some entries is put into their map.
pub proof fn lemma_push_as_map<A, B>(s: Seq<(A, B)>, k: A, v: B)
    ensures
        as_map(s.push((k, v))) == as_map(s).insert(k, v),
{
    assert(s.push((k, v)).drop_last() =~= s);
}

/// A map with keys that are their own models: its model holds, under
/// each key, the model of the value.
pub proof fn lemma_key_map_model<K: Key, V: DeepView>(m: HashMap<K, V>)
    ensures
        m.deep_view() == m@.map_values(|v: V| v.deep_view()),
{
    broadcast use vstd::std_specs::hash::group_hash_axioms;

    K::key_model();
    let f = |k: K| k.deep_view();
    assert(vstd::relations::injective(f)) by {
        assert forall|a: K, b: K| #[trigger] f(a) == #[trigger] f(b) implies a == b by {}
    }
    vstd::std_specs::hash::lemma_hashmap_deepview_properties(m);
    vstd::std_specs::hash::lemma_hashmap_deepview_dom(m);
    lemma_key_set_model(m@.dom());
    let target = m@.map_values(|v: V| v.deep_view());
    assert(m.deep_view().dom() =~= target.dom());
    assert forall|k: K| m.deep_view().contains_key(k) implies m.deep_view()[k] == target[k] by {
        assert(m@.contains_key(k));
        assert(k.deep_view() == k);
    }
    assert(m.deep_view() =~= target);
}

impl<K: ThriftTyped, V: ThriftTyped> ThriftTyped for HashMap<K, V> {
    open spec fn wire_type() -> Type {
        Type::TMap
    }

    fn typ() -> Type {
        Type::TMap
    }
}

impl<K: Key, V: Encode> Encode for HashMap<K, V> {
    open spec fn wire(&self) -> Seq<u8> {
        map_begin_wire(K::wire_type(), V::wire_type(), self@.len() as usize) + entries_wire(
            walk_map(self),
        )
    }

    fn encode<P: Protocol>(&self, protocol: &mut P) -> (r: Result<(), Error>) {
        broadcast use vstd::std_specs::hash::group_hash_axioms;

        proof {
            K::key_model();
        }
        protocol.write_map_begin(K::typ(), V::typ(), self.len())?;
        let ghost order = walk_map(self);
        proof {
            assert(order.skip(0) =~= order);
            assert(protocol.stream().written + entries_wire(order) =~= old(
                protocol,
            ).stream().written + self.wire());
        }
        for entry in it: self.iter()
            invariant
                order == it.seq().unref(),
                protocol.stream().unread == old(protocol).stream().unread,
                protocol.stream().written + entries_wire(order.skip(it.index())) == old(
                    protocol,
                ).stream().written + self.wire(),
        {
            let ghost before = protocol.stream().written;
            let ghost i = it.index();
            let (k, v) = entry;
            k.encode(protocol)?;
            v.encode(protocol)?;
            proof {
                let here = order.skip(i);
                assert(here[0] == (*k, *v));
                assert(here.skip(1) =~= order.skip(i + 1));
                assert(before + entries_wire(here) =~= (before + here[0].0.wire()
                    + here[0].1.wire()) + entries_wire(here.skip(1)));
            }
        }
        proof {
            assert(order.skip(order.len() as int) =~= Seq::<(K, V)>::empty());
            assert(protocol.stream().written + Seq::<u8>::empty() =~= protocol.stream().written);
        }
        protocol.write_map_end()
    }
}

impl<K: Key, V: Decode> Decode for HashMap<K, V> {
    /// The entries found, as a map: of two entries with one key the later
    /// one stays.
    open spec fn parse(input: Seq<u8>) -> Parsed<Map<K, V::V>> {
        match parse_map_begin(input) {
            Err(f) => Err(f),
            Ok(((key_type, value_type, size), rest)) => if key_type == K::wire_type()
                && value_type == V::wire_type() {
                collect_map(parse_entries::<K, V>(element_count(size as int), rest))
            } else {
                Err(Fault::ProtocolViolation)
            },
        }
    }

    proof fn parse_shortens(input: Seq<u8>) {
        if let Ok(((key_type, value_type, size), rest)) = parse_map_begin(input) {
            lemma_parse_entries_shortens::<K, V>(element_count(size as int), rest);
        }
    }

    fn decode<P: Protocol>(protocol: &mut P) -> (r: Result<Self, Error>) {
        broadcast use vstd::std_specs::hash::group_hash_axioms;

        proof {
            K::key_model();
        }
        let ghost start = protocol.stream().unread;
        let (ktyp, vtyp, len) = protocol.read_map_begin()?;
        if ktyp == K::typ() && vtyp == V::typ() {
            let mut ret: HashMap<K, V> = HashMap::new();
            let ghost mut done: Seq<(K, V::V)> = Seq::empty();
            let mut i: i32 = 0;
            proof {
                assert(ret@.map_values(|v: V| v.deep_view()) =~= as_map(done));
            }
            while i < len
                invariant
                    0 <= i,
                    len > 0 ==> i <= len,
                    obeys_key_model::<K>(),
                    start == old(protocol).stream().unread,
                    protocol.stream().written == old(protocol).stream().written,
                    ret@.map_values(|v: V| v.deep_view()) == as_map(done),
                    Self::parse(start) == collect_map(
                        prepend(
                            done,
                            parse_entries::<K, V>(
                                element_count(len - i),
                                protocol.stream().unread,
                            ),
                        ),
                    ),
                decreases len - i,
            {
                let key = K::decode(protocol)?;
                let value = V::decode(protocol)?;
                proof {
                    K::key_model();
                    let entry = (key, value.deep_view());
                    lemma_push_as_map(done, key, value.deep_view());
                    let more = parse_entries::<K, V>(
                        element_count(len - i - 1),
                        protocol.stream().unread,
                    );
                    if let Ok((ms, rest)) = more {
                        assert(done + (seq![entry] + ms) =~= done.push(entry) + ms);
                    }
                    assert(ret@.insert(key, value).map_values(|v: V| v.deep_view())
                        =~= ret@.map_values(|v: V| v.deep_view()).insert(key, value.deep_view()));
                    done = done.push(entry);
                }
                ret.insert(key, value);
                i = i + 1;
            }
            protocol.read_map_end()?;
            proof {
                assert(done + Seq::<(K, V::V)>::empty() =~= done);
                lemma_key_map_model(ret);
            }
            Ok(ret)
        } else {
            Err(Error::ProtocolError(crate::protocol::Error::ProtocolViolation))
        }
    }
}

impl<K: Key, V: Codec> Codec for HashMap<K, V> {
    /// The map has fewer than 2^31 entries, each of them faithful, and
    /// the entries that it hands out make it up.
    open spec fn faithful(&self) -> bool {
        &&& self@.len() <= i32::MAX
        &&& walk_map(self).len() == self@.len()
        &&& as_map(entry_models(walk_map(self))) == self.deep_view()
        &&& forall|i: int|
            0 <= i < walk_map(self).len() ==> (#[trigger] walk_map(self)[i]).0.faithful()
                && walk_map(self)[i].1.faithful()
    }

    proof fn round_trip(&self, rest: Seq<u8>) {
        lemma_map_round_trip::<K, V>(walk_map(self), self@.len() as usize, rest);
    }

    proof fn skip_over(&self, rest: Seq<u8>) {
        lemma_map_skipped::<K, V>(walk_map(self), self@.len() as usize, rest);
    }
}

} // verus!
