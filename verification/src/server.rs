//! The serving side of a connection: the registry of the methods that a
//! server offers, and the handling of one request.
//!
//! Accepting connections and running one loop of requests for each, on
//! one thread or on a pool, is the caller's part.

use crate::processor::Processor;
use crate::protocol::format::{parse_message_begin, reports, skip_value, Stream};
use crate::protocol::helpers::same_text;
use crate::protocol::{Protocol, Type};
use crate::Error;
use vstd::prelude::*;

verus! {

/// The methods of a server: each name with its processor.
pub struct Registry<H> {
    entries: Vec<(String, H)>,
}

/// How the handling of one request ended.
#[derive(Debug)]
pub enum Served {
    /// The method's processor ran and returned without an error.
    Processed,
    /// The method's processor ran and returned this error.
    Failed(Error),
    /// No method of that name is registered. The arguments were skipped,
    /// so that the next request can be read.
    Unknown,
    /// No request could be read, or the arguments of an unknown method
    /// could not be skipped: the connection is of no more use.
    Closed(Error),
}

impl<H> Registry<H> {
    /// The names of the registered methods, in the order of their
    /// registration.
    pub closed spec fn names(&self) -> Seq<Seq<char>> {
        Seq::new(self.entries@.len(), |i: int| self.entries@[i].0@)
    }

    /// The processors of the registered methods, each at the place of its
    /// name.
    pub closed spec fn processors(&self) -> Seq<H> {
        Seq::new(self.entries@.len(), |i: int| self.entries@[i].1)
    }

    /// Whether a method of this name is registered.
    pub open spec fn knows(&self, name: Seq<char>) -> bool {
        self.names().contains(name)
    }

    /// A registry without methods.
    pub fn new() -> (r: Self)
        ensures
            r.names() == Seq::<Seq<char>>::empty(),
            r.processors() == Seq::<H>::empty(),
            r.names().no_duplicates(),
    {
        let r = Registry { entries: Vec::new() };
        assert(r.names() =~= Seq::<Seq<char>>::empty());
        assert(r.processors() =~= Seq::<H>::empty());
        r
    }

    /// The number of registered methods.
    pub fn len(&self) -> (n: usize)
        ensures
            n == self.names().len(),
    {
        self.entries.len()
    }

    /// Where the method of this name stands, if it is registered.
    fn position(&self, name: &str) -> (r: Option<usize>)
        ensures
            match r {
                Some(i) => i < self.names().len() && self.names()[i as int] == name@,
                None => !self.knows(name@),
            },
    {
        let mut i: usize = 0;
        while i < self.entries.len()
            invariant
                i <= self.entries@.len(),
                forall|j: int| 0 <= j < i ==> self.names()[j] != name@,
            decreases self.entries@.len() - i,
        {
            if same_text(self.entries[i].0.as_str(), name) {
                return Some(i);
            }
            i = i + 1;
        }
        None
    }

    /// Whether a method of this name is registered.
    pub fn contains(&self, name: &str) -> (b: bool)
        ensures
            b == self.knows(name@),
    {
        match self.position(name) {
            Some(i) => {
                assert(self.names()[i as int] == name@);
                true
            },
            None => false,
        }
    }

    /// Registers a processor under a name. A processor that was
    /// registered under that name before is replaced.
    pub fn register(&mut self, name: &str, processor: H)
        ensures
            final(self).knows(name@),
            forall|other: Seq<char>|
                other != name@ ==> (final(self).knows(other) <==> old(self).knows(other)),
            old(self).knows(name@) ==> {
                &&& final(self).names() == old(self).names()
                &&& exists|i: int|
                    0 <= i < old(self).names().len() && #[trigger] old(self).names()[i] == name@
                        && final(self).processors() == old(self).processors().update(
                        i,
                        processor,
                    )
            },
            !old(self).knows(name@) ==> {
                &&& final(self).names() == old(self).names().push(name@)
                &&& final(self).processors() == old(self).processors().push(processor)
            },
            old(self).names().no_duplicates() ==> final(self).names().no_duplicates(),
    {
        let ghost before = self.names();
        let ghost handlers = self.processors();
        match self.position(name) {
            Some(i) => {
                self.entries.set(i, (name.to_owned(), processor));
                assert(self.names() =~= before);
                assert(self.names()[i as int] == name@);
                assert(self.processors() =~= handlers.update(i as int, processor));
                assert(before[i as int] == name@);
            },
            None => {
                self.entries.push((name.to_owned(), processor));
                assert(self.names() =~= before.push(name@));
                assert(self.processors() =~= handlers.push(processor));
                assert(before.no_duplicates() ==> before.push(name@).no_duplicates()) by {
                    if before.no_duplicates() {
                        let after = before.push(name@);
                        assert forall|a: int, b: int|
                            0 <= a < after.len() && 0 <= b < after.len() && a != b implies after[a]
                            != after[b] by {
                            if a < before.len() && b < before.len() {
                                assert(before[a] != before[b]);
                            } else if a < before.len() {
                                assert(before[a] != name@);
                            } else {
                                assert(before[b] != name@);
                            }
                        }
                    }
                }
                assert(self.names()[before.len() as int] == name@);
                assert forall|other: Seq<char>| other != name@ implies (self.names().contains(other)
                    <==> before.contains(other)) by {
                    if self.names().contains(other) {
                        let j = choose|j: int|
                            0 <= j < self.names().len() && self.names()[j] == other;
                        assert(before[j] == other);
                    }
                    if before.contains(other) {
                        let j = choose|j: int| 0 <= j < before.len() && before[j] == other;
                        assert(self.names()[j] == other);
                    }
                }
            },
        }
    }
}

/// How the handling of a request ended, given what its processor
/// returned.
pub open spec fn served(r: Result<(), Error>, s: Served) -> bool {
    match r {
        Ok(_) => s is Processed,
        Err(e) => s == Served::Failed(e),
    }
}

/// Handles one request: reads its header, and lets the processor of the
/// method work on it. A request for a method that is not registered is
/// skipped, so that the stream stays in step.
///
/// The processor registered under the name in the header is run once, on
/// the stream as it stands behind the header and with the sequence id
/// from the header. What it leaves and returns is what this function
/// leaves and returns; no other processor is touched.
pub fn serve_message<P: Protocol, H: Processor<P>>(
    registry: &mut Registry<H>,
    protocol: &mut P,
) -> (s: Served)
    ensures
        final(registry).names() == old(registry).names(),
        final(registry).processors().len() == old(registry).processors().len(),
        s is Unknown || s is Closed ==> final(registry).processors() == old(
            registry,
        ).processors(),
        match parse_message_begin(old(protocol).stream().unread) {
            Err(f) => s matches Served::Closed(e) && reports(e, f),
            Ok(((name, _, id), rest)) => if old(registry).knows(name) {
                exists|i: int, r: Result<(), Error>|
                    {
                        &&& 0 <= i < old(registry).names().len()
                        &&& old(registry).names()[i] == name
                        &&& #[trigger] old(registry).processors()[i].processed(
                            Stream { unread: rest, written: old(protocol).stream().written },
                            id,
                            final(protocol).stream(),
                            r,
                        )
                        &&& served(r, s)
                        &&& final(registry).processors() == old(registry).processors().update(
                            i,
                            final(registry).processors()[i],
                        )
                    }
            } else {
                &&& final(protocol).stream().written == old(protocol).stream().written
                &&& match skip_value(Type::Struct, rest) {
                    Ok(rest2) => s is Unknown && final(protocol).stream().unread == rest2,
                    Err(f) => s matches Served::Closed(e) && reports(e, f),
                }
            },
        },
{
    let (name, _ty, id) = match protocol.read_message_begin() {
        Ok(header) => header,
        Err(e) => {
            return Served::Closed(e);
        },
    };
    match registry.position(name.as_str()) {
        Some(i) => {
            assert(registry.names()[i as int] == name@);
            let ghost names = registry.names();
            let ghost handlers = registry.processors();
            let ghost at = protocol.stream();
            let entry = &mut registry.entries[i];
            let r = entry.1.process(protocol, id);
            let s = match r {
                Ok(()) => Served::Processed,
                Err(e) => Served::Failed(e),
            };
            proof {
                assert(registry.names() =~= names);
                assert(registry.processors() =~= handlers.update(
                    i as int,
                    registry.processors()[i as int],
                ));
                assert(at == Stream {
                    unread: at.unread,
                    written: old(protocol).stream().written,
                });
                assert(handlers[i as int].processed(at, id, protocol.stream(), r));
                assert(served(r, s));
            }
            s
        },
        None => match protocol.skip(Type::Struct) {
            Ok(()) => Served::Unknown,
            Err(e) => Served::Closed(e),
        },
    }
}

} // verus!
