//! The codecs of ordered sets and maps. They are written in the order of
//! their keys.

use crate::collections::{
    as_map, as_set, collect_map, entries_wire, entry_models, lemma_key_models,
    lemma_key_set_model, lemma_map_round_trip, lemma_map_skipped, lemma_parse_entries_shortens,
    lemma_push_as_map, lemma_push_to_set, parse_entries, Key,
};
use crate::impls::{
    items_wire, lemma_list_round_trip, lemma_list_skipped, lemma_parse_items_shortens,
    parse_items, prepend,
};
use crate::protocol::format::{
    element_count, list_begin_wire, map_begin_wire, parse_list_begin, parse_map_begin, Fault,
    Parsed,
};
use crate::protocol::{Codec, Decode, Encode, Protocol, ThriftTyped, Type};
use crate::Error;
use std::collections::{BTreeMap, BTreeSet};
use vstd::laws_cmp::obeys_cmp;
use vstd::prelude::*;
use vstd::std_specs::btree::{
    into_iter, into_iter_btree_keys, key_obeys_cmp_spec, spec_btree_keys_iter,
    spec_btree_map_iter,
};
use vstd::std_specs::iter::IteratorSpec;

verus! {

/// A key with a total order that the ordered collections can rely on.
pub trait OrderedKey: Key + Ord {
    proof fn key_order()
        ensures
            obeys_cmp::<Self>(),
            key_obeys_cmp_spec::<Self>(),
    ;
}

impl OrderedKey for i8 {
    proof fn key_order() {
        broadcast use {vstd::laws_cmp::group_laws_cmp, vstd::std_specs::btree::group_btree_axioms};

    }
}

impl OrderedKey for i16 {
    proof fn key_order() {
        broadcast use {vstd::laws_cmp::group_laws_cmp, vstd::std_specs::btree::group_btree_axioms};

    }
}

impl OrderedKey for i32 {
    proof fn key_order() {
        broadcast use {vstd::laws_cmp::group_laws_cmp, vstd::std_specs::btree::group_btree_axioms};

    }
}

impl OrderedKey for i64 {
    proof fn key_order() {
        broadcast use {vstd::laws_cmp::group_laws_cmp, vstd::std_specs::btree::group_btree_axioms};

    }
}

// ---- sets ----

/// The elements of an ordered set in the order in which the set hands
/// them out.
pub open spec fn walk_ordered<X>(s: &BTreeSet<X>) -> Seq<X> {
    into_iter_btree_keys(spec_btree_keys_iter(s))
}

impl<X: ThriftTyped> ThriftTyped for BTreeSet<X> {
    open spec fn wire_type() -> Type {
        Type::TSet
    }

    fn typ() -> Type {
        Type::TSet
    }
}

impl<X: OrderedKey> Encode for BTreeSet<X> {
    open spec fn wire(&self) -> Seq<u8> {
        list_begin_wire(X::wire_type(), self@.len() as usize) + items_wire(walk_ordered(self))
    }

    fn encode<P: Protocol>(&self, protocol: &mut P) -> (r: Result<(), Error>) {
        broadcast use vstd::std_specs::btree::group_btree_axioms;

        proof {
            X::key_order();
        }
        protocol.write_set_begin(X::typ(), self.len())?;
        let ghost order = walk_ordered(self);
        proof {
            assert(order.skip(0) =~= order);
            assert(protocol.stream().written + items_wire(order) =~= old(
                protocol,
            ).stream().written + self.wire());
        }
        for x in it: self.iter()
            invariant
                order == it.seq().unref(),
                protocol.stream().unread == old(protocol).stream().unread,
                protocol.stream().written + items_wire(order.skip(it.index())) == old(
                    protocol,
                ).stream().written + self.wire(),
        {
            let ghost before = protocol.stream().written;
            let ghost i = it.index();
            x.encode(protocol)?;
            proof {
                let here = order.skip(i);
                assert(here[0] == *x);
                assert(here.skip(1) =~= order.skip(i + 1));
                assert(before + items_wire(here) =~= (before + here[0].wire()) + items_wire(
                    here.skip(1),
                ));
            }
        }
        proof {
            assert(order.skip(order.len() as int) =~= Seq::<X>::empty());
            assert(protocol.stream().written + Seq::<u8>::empty() =~= protocol.stream().written);
        }
        protocol.write_set_end()
    }
}

impl<X: OrderedKey> Decode for BTreeSet<X> {
    /// The elements found, as a set: what stands there twice is held
    /// once.
    open spec fn parse(input: Seq<u8>) -> Parsed<Set<X>> {
        match parse_list_begin(input) {
            Err(f) => Err(f),
            Ok(((elem_type, size), rest)) => if elem_type == X::wire_type() {
                as_set(parse_items::<X>(element_count(size as int), rest))
            } else {
                Err(Fault::ProtocolViolation)
            },
        }
    }

    proof fn parse_shortens(input: Seq<u8>) {
        if let Ok(((elem_type, size), rest)) = parse_list_begin(input) {
            lemma_parse_items_shortens::<X>(element_count(size as int), rest);
        }
    }

    fn decode<P: Protocol>(protocol: &mut P) -> (r: Result<Self, Error>) {
        broadcast use vstd::std_specs::btree::group_btree_axioms;

        let ghost start = protocol.stream().unread;
        let (elem_type, len) = protocol.read_set_begin()?;
        if elem_type == X::typ() {
            let mut ret: BTreeSet<X> = BTreeSet::new();
            let ghost mut done: Seq<X> = Seq::empty();
            let mut i: i32 = 0;
            proof {
                assert(done.to_set() =~= Set::<X>::empty());
            }
            while i < len
                invariant
                    0 <= i,
                    len > 0 ==> i <= len,
                    start == old(protocol).stream().unread,
                    protocol.stream().written == old(protocol).stream().written,
                    ret@ == done.to_set(),
                    Self::parse(start) == as_set(
                        prepend(
                            done,
                            parse_items::<X>(element_count(len - i), protocol.stream().unread),
                        ),
                    ),
                decreases len - i,
            {
                let v = X::decode(protocol)?;
                proof {
                    X::key_model();
                    X::key_order();
                    lemma_push_to_set(done, v);
                    let more = parse_items::<X>(
                        element_count(len - i - 1),
                        protocol.stream().unread,
                    );
                    if let Ok((ms, rest)) = more {
                        assert(done + (seq![v.deep_view()] + ms) =~= done.push(v) + ms);
                    }
                    done = done.push(v);
                }
                ret.insert(v);
                i = i + 1;
            }
            protocol.read_set_end()?;
            proof {
                assert(done + Seq::<X>::empty() =~= done);
                lemma_key_set_model(ret@);
            }
            Ok(ret)
        } else {
            Err(Error::ProtocolError(crate::protocol::Error::ProtocolViolation))
        }
    }
}

impl<X: OrderedKey> Codec for BTreeSet<X> {
    /// The set has fewer than 2^31 elements, each of them faithful, and it
    /// hands out each of them once.
    open spec fn faithful(&self) -> bool {
        &&& self@.len() <= i32::MAX
        &&& walk_ordered(self).len() == self@.len()
        &&& walk_ordered(self).to_set() == self@
        &&& forall|i: int|
            0 <= i < walk_ordered(self).len() ==> (#[trigger] walk_ordered(self)[i]).faithful()
    }

    proof fn round_trip(&self, rest: Seq<u8>) {
        lemma_list_round_trip::<X>(walk_ordered(self), self@.len() as usize, rest);
        lemma_key_models(walk_ordered(self));
        lemma_key_set_model(self@);
    }

    proof fn skip_over(&self, rest: Seq<u8>) {
        lemma_list_skipped::<X>(Type::TSet, walk_ordered(self), self@.len() as usize, rest);
    }
}

// ---- maps ----

/// The entries of an ordered map in the order in which the map hands
/// them out.
pub open spec fn walk_ordered_map<K, V>(m: &BTreeMap<K, V>) -> Seq<(K, V)> {
    into_iter(spec_btree_map_iter(m))
}

/// An ordered map with keys that are their own models: its model holds,
/// under each key, the model of the value.
pub proof fn lemma_ordered_map_model<K: OrderedKey, V: DeepView>(m: BTreeMap<K, V>)
    ensures
        m.deep_view() == m@.map_values(|v: V| v.deep_view()),
{
    broadcast use vstd::std_specs::btree::group_btree_axioms;

    K::key_model();
    let f = |k: K| k.deep_view();
    assert(vstd::relations::injective(f)) by {
        assert forall|a: K, b: K| #[trigger] f(a) == #[trigger] f(b) implies a == b by {}
    }
    vstd::std_specs::btree::lemma_btree_map_deepview_properties(m);
    vstd::std_specs::btree::lemma_btree_map_deepview_dom(m);
    lemma_key_set_model(m@.dom());
    let target = m@.map_values(|v: V| v.deep_view());
    assert(m.deep_view().dom() =~= target.dom());
    assert forall|k: K| m.deep_view().contains_key(k) implies m.deep_view()[k] == target[k] by {
        assert(m@.contains_key(k));
        assert(k.deep_view() == k);
    }
    assert(m.deep_view() =~= target);
}

impl<K: ThriftTyped, V: ThriftTyped> ThriftTyped for BTreeMap<K, V> {
    open spec fn wire_type() -> Type {
        Type::TMap
    }

    fn typ() -> Type {
        Type::TMap
    }
}

impl<K: OrderedKey, V: Encode> Encode for BTreeMap<K, V> {
    open spec fn wire(&self) -> Seq<u8> {
        map_begin_wire(K::wire_type(), V::wire_type(), self@.len() as usize) + entries_wire(
            walk_ordered_map(self),
        )
    }

    fn encode<P: Protocol>(&self, protocol: &mut P) -> (r: Result<(), Error>) {
        broadcast use vstd::std_specs::btree::group_btree_axioms;

        proof {
            K::key_order();
        }
        protocol.write_map_begin(K::typ(), V::typ(), self.len())?;
        let ghost order = walk_ordered_map(self);
        proof {
            assert(order.skip(0) =~= order);
            assert(protocol.stream().written + entries_wire(order) =~= old(
                protocol,
            ).stream().written + self.wire());
        }
        for entry in it: self.iter()
            invariant
                order == it.seq().unref(),
                protocol.stream().unread == old(protocol).stream().unread,
                protocol.stream().written + entries_wire(order.skip(it.index())) == old(
                    protocol,
                ).stream().written + self.wire(),
        {
            let ghost before = protocol.stream().written;
            let ghost i = it.index();
            let (k, v) = entry;
            k.encode(protocol)?;
            v.encode(protocol)?;
            proof {
                let here = order.skip(i);
                assert(here[0] == (*k, *v));
                assert(here.skip(1) =~= order.skip(i + 1));
                assert(before + entries_wire(here) =~= (before + here[0].0.wire()
                    + here[0].1.wire()) + entries_wire(here.skip(1)));
            }
        }
        proof {
            assert(order.skip(order.len() as int) =~= Seq::<(K, V)>::empty());
            assert(protocol.stream().written + Seq::<u8>::empty() =~= protocol.stream().written);
        }
        protocol.write_map_end()
    }
}

impl<K: OrderedKey, V: Decode> Decode for BTreeMap<K, V> {
    /// The entries found, as a map: of two entries with one key the later
    /// one stays.
    open spec fn parse(input: Seq<u8>) -> Parsed<Map<K, V::V>> {
        match parse_map_begin(input) {
            Err(f) => Err(f),
            Ok(((key_type, value_type, size), rest)) => if key_type == K::wire_type()
                && value_type == V::wire_type() {
                collect_map(parse_entries::<K, V>(element_count(size as int), rest))
            } else {
                Err(Fault::ProtocolViolation)
            },
        }
    }

    proof fn parse_shortens(input: Seq<u8>) {
        if let Ok(((key_type, value_type, size), rest)) = parse_map_begin(input) {
            lemma_parse_entries_shortens::<K, V>(element_count(size as int), rest);
        }
    }

    fn decode<P: Protocol>(protocol: &mut P) -> (r: Result<Self, Error>) {
        broadcast use vstd::std_specs::btree::group_btree_axioms;

        let ghost start = protocol.stream().unread;
        let (ktyp, vtyp, len) = protocol.read_map_begin()?;
        if ktyp == K::typ() && vtyp == V::typ() {
            let mut ret: BTreeMap<K, V> = BTreeMap::new();
            let ghost mut done: Seq<(K, V::V)> = Seq::empty();
            let mut i: i32 = 0;
            proof {
                assert(ret@.map_values(|v: V| v.deep_view()) =~= as_map(done));
            }
            while i < len
                invariant
                    0 <= i,
                    len > 0 ==> i <= len,
                    start == old(protocol).stream().unread,
                    protocol.stream().written == old(protocol).stream().written,
                    ret@.map_values(|v: V| v.deep_view()) == as_map(done),
                    Self::parse(start) == collect_map(
                        prepend(
                            done,
                            parse_entries::<K, V>(
                                element_count(len - i),
                                protocol.stream().unread,
                            ),
                        ),
                    ),
                decreases len - i,
            {
                let key = K::decode(protocol)?;
                let value = V::decode(protocol)?;
                proof {
                    K::key_model();
                    K::key_order();
                    let entry = (key, value.deep_view());
                    lemma_push_as_map(done, key, value.deep_view());
                    let more = parse_entries::<K, V>(
                        element_count(len - i - 1),
                        protocol.stream().unread,
                    );
                    if let Ok((ms, rest)) = more {
                        assert(done + (seq![entry] + ms) =~= done.push(entry) + ms);
                    }
                    assert(ret@.insert(key, value).map_values(|v: V| v.deep_view())
                        =~= ret@.map_values(|v: V| v.deep_view()).insert(key, value.deep_view()));
                    done = done.push(entry);
                }
                ret.insert(key, value);
                i = i + 1;
            }
            protocol.read_map_end()?;
            proof {
                assert(done + Seq::<(K, V::V)>::empty() =~= done);
                lemma_ordered_map_model(ret);
            }
            Ok(ret)
        } else {
            Err(Error::ProtocolError(crate::protocol::Error::ProtocolViolation))
        }
    }
}

impl<K: OrderedKey, V: Codec> Codec for BTreeMap<K, V> {
    /// The map has fewer than 2^31 entries, each of them faithful, and
    /// the entries that it hands out make it up.
    open spec fn faithful(&self) -> bool {
        &&& self@.len() <= i32::MAX
        &&& walk_ordered_map(self).len() == self@.len()
        &&& as_map(entry_models(walk_ordered_map(self))) == self.deep_view()
        &&& forall|i: int|
            0 <= i < walk_ordered_map(self).len() ==> (#[trigger] walk_ordered_map(
                self,
            )[i]).0.faithful() && walk_ordered_map(self)[i].1.faithful()
    }

    proof fn round_trip(&self, rest: Seq<u8>) {
        lemma_map_round_trip::<K, V>(walk_ordered_map(self), self@.len() as usize, rest);
    }

    proof fn skip_over(&self, rest: Seq<u8>) {
        lemma_map_skipped::<K, V>(walk_ordered_map(self), self@.len() as usize, rest);
    }
}

} // verus!
