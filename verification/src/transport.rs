//! A transport that lives in memory: the bytes that arrived, of which a
//! prefix has been read, and the bytes written so far.

use crate::endian::{
    be_i16, be_i32, be_i64, be_i8, be_u64, i16_from_be, i32_from_be, i64_from_be, i8_from_be,
    u64_from_be,
};
use podio::{BigEndian, ReadPodExt, WritePodExt};
use vstd::prelude::*;

verus! {

/// `std::io::Error`: the error of a failed read or write, carried through
/// as it comes.
#[verifier::external_type_specification]
#[verifier::external_body]
pub struct ExIoError(std::io::Error);

/// `podio::ReadPodExt::read_i8` on the bytes of `input` from `pos` on: the
/// byte at `pos` as an `i8`, or an error where no byte is left.
#[verifier::external_body]
fn podio_read_i8(input: &[u8], pos: usize) -> (r: Result<i8, std::io::Error>)
    requires
        pos <= input@.len(),
    ensures
        r is Ok <==> pos + 1 <= input@.len(),
        r matches Ok(v) ==> v == i8_from_be(input@.subrange(pos as int, pos + 1)),
{
    let mut rest = &input[pos..];
    rest.read_i8()
}

/// `podio::ReadPodExt::read_i16::<BigEndian>` on the bytes of `input` from
/// `pos` on: the next two bytes as a big-endian `i16`, or an error where
/// fewer than two are left.
#[verifier::external_body]
fn podio_read_i16(input: &[u8], pos: usize) -> (r: Result<i16, std::io::Error>)
    requires
        pos <= input@.len(),
    ensures
        r is Ok <==> pos + 2 <= input@.len(),
        r matches Ok(v) ==> v == i16_from_be(input@.subrange(pos as int, pos + 2)),
{
    let mut rest = &input[pos..];
    rest.read_i16::<BigEndian>()
}

/// `podio::ReadPodExt::read_i32::<BigEndian>` on the bytes of `input` from
/// `pos` on: the next four bytes as a big-endian `i32`, or an error where
/// fewer than four are left.
#[verifier::external_body]
fn podio_read_i32(input: &[u8], pos: usize) -> (r: Result<i32, std::io::Error>)
    requires
        pos <= input@.len(),
    ensures
        r is Ok <==> pos + 4 <= input@.len(),
        r matches Ok(v) ==> v == i32_from_be(input@.subrange(pos as int, pos + 4)),
{
    let mut rest = &input[pos..];
    rest.read_i32::<BigEndian>()
}

/// `podio::ReadPodExt::read_i64::<BigEndian>` on the bytes of `input` from
/// `pos` on: the next eight bytes as a big-endian `i64`, or an error where
/// fewer than eight are left.
#[verifier::external_body]
fn podio_read_i64(input: &[u8], pos: usize) -> (r: Result<i64, std::io::Error>)
    requires
        pos <= input@.len(),
    ensures
        r is Ok <==> pos + 8 <= input@.len(),
        r matches Ok(v) ==> v == i64_from_be(input@.subrange(pos as int, pos + 8)),
{
    let mut rest = &input[pos..];
    rest.read_i64::<BigEndian>()
}

/// `podio::ReadPodExt::read_u64::<BigEndian>` on the bytes of `input` from
/// `pos` on: the next eight bytes as a big-endian `u64`, or an error where
/// fewer than eight are left.
#[verifier::external_body]
fn podio_read_u64(input: &[u8], pos: usize) -> (r: Result<u64, std::io::Error>)
    requires
        pos <= input@.len(),
    ensures
        r is Ok <==> pos + 8 <= input@.len(),
        r matches Ok(v) ==> v == u64_from_be(input@.subrange(pos as int, pos + 8)),
{
    let mut rest = &input[pos..];
    rest.read_u64::<BigEndian>()
}

/// `podio::ReadPodExt::read_exact` on the bytes of `input` from `pos` on,
/// where at least `len` bytes are left: a copy of the next `len` bytes.
#[verifier::external_body]
fn podio_read_exact(input: &[u8], pos: usize, len: usize) -> (r: Result<Vec<u8>, std::io::Error>)
    requires
        pos + len <= input@.len(),
    ensures
        r is Ok,
        r matches Ok(v) ==> v@ == input@.subrange(pos as int, pos + len),
{
    let mut rest = &input[pos..];
    rest.read_exact(len)
}

/// `std::io::Error::from` on `std::io::ErrorKind::UnexpectedEof`: the error
/// of a read that found fewer bytes than it was asked for.
#[verifier::external_body]
fn unexpected_eof() -> std::io::Error {
    std::io::Error::from(std::io::ErrorKind::UnexpectedEof)
}

/// `podio::WritePodExt::write_i8` on a vector: appends the byte of `v`.
#[verifier::external_body]
fn podio_write_i8(out: &mut Vec<u8>, v: i8) -> (r: Result<(), std::io::Error>)
    ensures
        r is Ok,
        final(out)@ == old(out)@ + be_i8(v),
{
    out.write_i8(v)
}

/// `podio::WritePodExt::write_i16::<BigEndian>` on a vector: appends the
/// two bytes of `v`, most significant first.
#[verifier::external_body]
fn podio_write_i16(out: &mut Vec<u8>, v: i16) -> (r: Result<(), std::io::Error>)
    ensures
        r is Ok,
        final(out)@ == old(out)@ + be_i16(v),
{
    out.write_i16::<BigEndian>(v)
}

/// `podio::WritePodExt::write_i32::<BigEndian>` on a vector: appends the
/// four bytes of `v`, most significant first.
#[verifier::external_body]
fn podio_write_i32(out: &mut Vec<u8>, v: i32) -> (r: Result<(), std::io::Error>)
    ensures
        r is Ok,
        final(out)@ == old(out)@ + be_i32(v),
{
    out.write_i32::<BigEndian>(v)
}

/// `podio::WritePodExt::write_i64::<BigEndian>` on a vector: appends the
/// eight bytes of `v`, most significant first.
#[verifier::external_body]
fn podio_write_i64(out: &mut Vec<u8>, v: i64) -> (r: Result<(), std::io::Error>)
    ensures
        r is Ok,
        final(out)@ == old(out)@ + be_i64(v),
{
    out.write_i64::<BigEndian>(v)
}

/// `podio::WritePodExt::write_u64::<BigEndian>` on a vector: appends the
/// eight bytes of `v`, most significant first.
#[verifier::external_body]
fn podio_write_u64(out: &mut Vec<u8>, v: u64) -> (r: Result<(), std::io::Error>)
    ensures
        r is Ok,
        final(out)@ == old(out)@ + be_u64(v),
{
    out.write_u64::<BigEndian>(v)
}

/// The bytes that arrived, and how many of them have been read.
#[derive(Debug)]
struct Incoming {
    bytes: Vec<u8>,
    pos: usize,
}

impl Clone for Incoming {
    fn clone(&self) -> (r: Incoming) {
        proof {
            use_type_invariant(self);
        }
        Incoming { bytes: self.bytes.clone(), pos: self.pos }
    }
}

impl Incoming {
    #[verifier::type_invariant]
    spec fn well_formed(self) -> bool {
        self.pos <= self.bytes@.len()
    }

    closed spec fn unread(&self) -> Seq<u8> {
        self.bytes@.skip(self.pos as int)
    }

    fn remaining(&self) -> (n: usize)
        ensures
            n == self.unread().len(),
    {
        proof {
            use_type_invariant(self);
        }
        self.bytes.len() - self.pos
    }

    fn read_i8(&mut self) -> (r: Result<i8, std::io::Error>)
        ensures
            r is Ok <==> old(self).unread().len() >= 1,
            r is Ok ==> final(self).unread() == old(self).unread().skip(1),
            r is Err ==> final(self).unread() == old(self).unread(),
            r matches Ok(v) ==> v == i8_from_be(old(self).unread().take(1)),
    {
        proof {
            use_type_invariant(&*self);
            assert(self.bytes@.len() == self.bytes.len());
        }
        let r = podio_read_i8(self.bytes.as_slice(), self.pos);
        if r.is_ok() {
            assert(self.bytes@.subrange(self.pos as int, self.pos + 1) == self.unread().take(1));
            self.pos = self.pos + 1;
            assert(self.unread() == old(self).unread().skip(1));
        }
        r
    }

    fn read_i16(&mut self) -> (r: Result<i16, std::io::Error>)
        ensures
            r is Ok <==> old(self).unread().len() >= 2,
            r is Ok ==> final(self).unread() == old(self).unread().skip(2),
            r is Err ==> final(self).unread() == old(self).unread(),
            r matches Ok(v) ==> v == i16_from_be(old(self).unread().take(2)),
    {
        proof {
            use_type_invariant(&*self);
            assert(self.bytes@.len() == self.bytes.len());
        }
        let r = podio_read_i16(self.bytes.as_slice(), self.pos);
        if r.is_ok() {
            assert(self.bytes@.subrange(self.pos as int, self.pos + 2) == self.unread().take(2));
            self.pos = self.pos + 2;
            assert(self.unread() == old(self).unread().skip(2));
        }
        r
    }

    fn read_i32(&mut self) -> (r: Result<i32, std::io::Error>)
        ensures
            r is Ok <==> old(self).unread().len() >= 4,
            r is Ok ==> final(self).unread() == old(self).unread().skip(4),
            r is Err ==> final(self).unread() == old(self).unread(),
            r matches Ok(v) ==> v == i32_from_be(old(self).unread().take(4)),
    {
        proof {
            use_type_invariant(&*self);
            assert(self.bytes@.len() == self.bytes.len());
        }
        let r = podio_read_i32(self.bytes.as_slice(), self.pos);
        if r.is_ok() {
            assert(self.bytes@.subrange(self.pos as int, self.pos + 4) == self.unread().take(4));
            self.pos = self.pos + 4;
            assert(self.unread() == old(self).unread().skip(4));
        }
        r
    }

    fn read_i64(&mut self) -> (r: Result<i64, std::io::Error>)
        ensures
            r is Ok <==> old(self).unread().len() >= 8,
            r is Ok ==> final(self).unread() == old(self).unread().skip(8),
            r is Err ==> final(self).unread() == old(self).unread(),
            r matches Ok(v) ==> v == i64_from_be(old(self).unread().take(8)),
    {
        proof {
            use_type_invariant(&*self);
            assert(self.bytes@.len() == self.bytes.len());
        }
        let r = podio_read_i64(self.bytes.as_slice(), self.pos);
        if r.is_ok() {
            assert(self.bytes@.subrange(self.pos as int, self.pos + 8) == self.unread().take(8));
            self.pos = self.pos + 8;
            assert(self.unread() == old(self).unread().skip(8));
        }
        r
    }

    fn read_u64(&mut self) -> (r: Result<u64, std::io::Error>)
        ensures
            r is Ok <==> old(self).unread().len() >= 8,
            r is Ok ==> final(self).unread() == old(self).unread().skip(8),
            r is Err ==> final(self).unread() == old(self).unread(),
            r matches Ok(v) ==> v == u64_from_be(old(self).unread().take(8)),
    {
        proof {
            use_type_invariant(&*self);
            assert(self.bytes@.len() == self.bytes.len());
        }
        let r = podio_read_u64(self.bytes.as_slice(), self.pos);
        if r.is_ok() {
            assert(self.bytes@.subrange(self.pos as int, self.pos + 8) == self.unread().take(8));
            self.pos = self.pos + 8;
            assert(self.unread() == old(self).unread().skip(8));
        }
        r
    }

    fn read_exact(&mut self, count: usize) -> (r: Result<Vec<u8>, std::io::Error>)
        ensures
            r is Ok <==> old(self).unread().len() >= count,
            r is Ok ==> final(self).unread() == old(self).unread().skip(count as int),
            r is Err ==> final(self).unread() == old(self).unread(),
            r matches Ok(v) ==> v@ == old(self).unread().take(count as int),
    {
        proof {
            use_type_invariant(&*self);
        }
        if count > self.bytes.len() - self.pos {
            return Err(unexpected_eof());
        }
        let r = podio_read_exact(self.bytes.as_slice(), self.pos, count);
        assert(self.bytes@.subrange(self.pos as int, self.pos + count) == self.unread().take(
            count as int,
        ));
        self.pos = self.pos + count;
        assert(self.unread() == old(self).unread().skip(count as int));
        r
    }

    fn feed(&mut self, bytes: &[u8])
        ensures
            final(self).unread() == old(self).unread() + bytes@,
    {
        proof {
            use_type_invariant(&*self);
        }
        let mut fresh: Vec<u8> = Vec::new();
        let start = self.pos;
        let end = self.bytes.len();
        fresh.extend_from_slice(vstd::slice::slice_subrange(self.bytes.as_slice(), start, end));
        fresh.extend_from_slice(bytes);
        assert(fresh@ == old(self).unread() + bytes@);
        *self = Incoming { bytes: fresh, pos: 0 };
    }
}

/// An in-memory byte transport.
#[derive(Debug, Clone)]
pub struct MemoryTransport {
    incoming: Incoming,
    output: Vec<u8>,
}

impl MemoryTransport {
    /// The bytes that have arrived and have not been read yet.
    pub closed spec fn unread(&self) -> Seq<u8> {
        self.incoming.unread()
    }

    /// The bytes written so far and not yet taken out.
    pub closed spec fn written(&self) -> Seq<u8> {
        self.output@
    }

    /// A transport on which `input` has arrived and nothing was written.
    pub fn new(input: Vec<u8>) -> (t: MemoryTransport)
        ensures
            t.unread() == input@,
            t.written() == Seq::<u8>::empty(),
    {
        MemoryTransport { incoming: Incoming { bytes: input, pos: 0 }, output: Vec::new() }
    }

    /// The number of bytes that are left to read.
    pub fn remaining(&self) -> (n: usize)
        ensures
            n == self.unread().len(),
    {
        self.incoming.remaining()
    }

    /// Adds bytes that arrived after what is already there.
    pub fn feed(&mut self, bytes: &[u8])
        ensures
            final(self).unread() == old(self).unread() + bytes@,
            final(self).written() == old(self).written(),
    {
        self.incoming.feed(bytes)
    }

    /// Hands out the bytes written so far, and starts over with none.
    pub fn take_written(&mut self) -> (out: Vec<u8>)
        ensures
            out@ == old(self).written(),
            final(self).written() == Seq::<u8>::empty(),
            final(self).unread() == old(self).unread(),
    {
        let mut out: Vec<u8> = Vec::new();
        std::mem::swap(&mut out, &mut self.output);
        out
    }

    /// Reads one byte as an `i8`. Fails, reading nothing, where none is left.
    pub fn read_i8(&mut self) -> (r: Result<i8, std::io::Error>)
        ensures
            final(self).written() == old(self).written(),
            r is Ok <==> old(self).unread().len() >= 1,
            r is Ok ==> final(self).unread() == old(self).unread().skip(1),
            r is Err ==> final(self).unread() == old(self).unread(),
            r matches Ok(v) ==> v == i8_from_be(old(self).unread().take(1)),
    {
        self.incoming.read_i8()
    }

    /// Reads two bytes as a big-endian `i16`. Fails, reading nothing,
    /// where fewer are left.
    pub fn read_i16(&mut self) -> (r: Result<i16, std::io::Error>)
        ensures
            final(self).written() == old(self).written(),
            r is Ok <==> old(self).unread().len() >= 2,
            r is Ok ==> final(self).unread() == old(self).unread().skip(2),
            r is Err ==> final(self).unread() == old(self).unread(),
            r matches Ok(v) ==> v == i16_from_be(old(self).unread().take(2)),
    {
        self.incoming.read_i16()
    }

    /// Reads four bytes as a big-endian `i32`. Fails, reading nothing,
    /// where fewer are left.
    pub fn read_i32(&mut self) -> (r: Result<i32, std::io::Error>)
        ensures
            final(self).written() == old(self).written(),
            r is Ok <==> old(self).unread().len() >= 4,
            r is Ok ==> final(self).unread() == old(self).unread().skip(4),
            r is Err ==> final(self).unread() == old(self).unread(),
            r matches Ok(v) ==> v == i32_from_be(old(self).unread().take(4)),
    {
        self.incoming.read_i32()
    }

    /// Reads eight bytes as a big-endian `i64`. Fails, reading nothing,
    /// where fewer are left.
    pub fn read_i64(&mut self) -> (r: Result<i64, std::io::Error>)
        ensures
            final(self).written() == old(self).written(),
            r is Ok <==> old(self).unread().len() >= 8,
            r is Ok ==> final(self).unread() == old(self).unread().skip(8),
            r is Err ==> final(self).unread() == old(self).unread(),
            r matches Ok(v) ==> v == i64_from_be(old(self).unread().take(8)),
    {
        self.incoming.read_i64()
    }

    /// Reads eight bytes as a big-endian `u64`. Fails, reading nothing,
    /// where fewer are left.
    pub fn read_u64(&mut self) -> (r: Result<u64, std::io::Error>)
        ensures
            final(self).written() == old(self).written(),
            r is Ok <==> old(self).unread().len() >= 8,
            r is Ok ==> final(self).unread() == old(self).unread().skip(8),
            r is Err ==> final(self).unread() == old(self).unread(),
            r matches Ok(v) ==> v == u64_from_be(old(self).unread().take(8)),
    {
        self.incoming.read_u64()
    }

    /// Reads the next `count` bytes. Fails, reading nothing, where fewer
    /// are left.
    pub fn read_exact(&mut self, count: usize) -> (r: Result<Vec<u8>, std::io::Error>)
        ensures
            final(self).written() == old(self).written(),
            r is Ok <==> old(self).unread().len() >= count,
            r is Ok ==> final(self).unread() == old(self).unread().skip(count as int),
            r is Err ==> final(self).unread() == old(self).unread(),
            r matches Ok(v) ==> v@ == old(self).unread().take(count as int),
    {
        self.incoming.read_exact(count)
    }

    /// Writes the byte of an `i8`.
    pub fn write_i8(&mut self, v: i8) -> (r: Result<(), std::io::Error>)
        ensures
            r is Ok,
            final(self).written() == old(self).written() + be_i8(v),
            final(self).unread() == old(self).unread(),
    {
        podio_write_i8(&mut self.output, v)
    }

    /// Writes the two bytes of an `i16`, most significant first.
    pub fn write_i16(&mut self, v: i16) -> (r: Result<(), std::io::Error>)
        ensures
            r is Ok,
            final(self).written() == old(self).written() + be_i16(v),
            final(self).unread() == old(self).unread(),
    {
        podio_write_i16(&mut self.output, v)
    }

    /// Writes the four bytes of an `i32`, most significant first.
    pub fn write_i32(&mut self, v: i32) -> (r: Result<(), std::io::Error>)
        ensures
            r is Ok,
            final(self).written() == old(self).written() + be_i32(v),
            final(self).unread() == old(self).unread(),
    {
        podio_write_i32(&mut self.output, v)
    }

    /// Writes the eight bytes of an `i64`, most significant first.
    pub fn write_i64(&mut self, v: i64) -> (r: Result<(), std::io::Error>)
        ensures
            r is Ok,
            final(self).written() == old(self).written() + be_i64(v),
            final(self).unread() == old(self).unread(),
    {
        podio_write_i64(&mut self.output, v)
    }

    /// Writes the eight bytes of a `u64`, most significant first.
    pub fn write_u64(&mut self, v: u64) -> (r: Result<(), std::io::Error>)
        ensures
            r is Ok,
            final(self).written() == old(self).written() + be_u64(v),
            final(self).unread() == old(self).unread(),
    {
        podio_write_u64(&mut self.output, v)
    }

    /// Writes `bytes` as they are.
    pub fn write_all(&mut self, bytes: &[u8]) -> (r: Result<(), std::io::Error>)
        ensures
            r is Ok,
            final(self).written() == old(self).written() + bytes@,
            final(self).unread() == old(self).unread(),
    {
        self.output.extend_from_slice(bytes);
        Ok(())
    }

    /// Nothing is buffered beyond what `written` shows, so there is
    /// nothing to push on.
    pub fn flush(&mut self) -> (r: Result<(), std::io::Error>)
        ensures
            r is Ok,
            final(self).written() == old(self).written(),
            final(self).unread() == old(self).unread(),
    {
        Ok(())
    }
}

} // verus!
