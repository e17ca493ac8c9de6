//! Little-endian integers and null-terminated strings over byte streams.
use vstd::prelude::*;
use vstd::bytes::*;
use vstd::slice::slice_subrange;
use vstd::utf8::*;
use vstd::string::StringSliceAdditionalSpecFns;

use crate::error::Error;

verus! {

broadcast use vstd::utf8::group_utf8_lib;

/// The result of reading a `u8` at position `p` of `d`.
pub open spec fn read_u8_at(d: Seq<u8>, p: int) -> Result<(u8, int), Error> {
    if 0 <= p && p + 1 <= d.len() {
        Ok((d[p], p + 1))
    } else {
        Err(Error::IOError)
    }
}

/// The result of reading a little-endian `u32` at position `p` of `d`.
pub open spec fn read_u32_at(d: Seq<u8>, p: int) -> Result<(u32, int), Error> {
    if 0 <= p && p + 4 <= d.len() {
        Ok((spec_u32_from_le_bytes(d.subrange(p, p + 4)), p + 4))
    } else {
        Err(Error::IOError)
    }
}

/// The result of reading a little-endian `u64` at position `p` of `d`.
pub open spec fn read_u64_at(d: Seq<u8>, p: int) -> Result<(u64, int), Error> {
    if 0 <= p && p + 8 <= d.len() {
        Ok((spec_u64_from_le_bytes(d.subrange(p, p + 8)), p + 8))
    } else {
        Err(Error::IOError)
    }
}

/// The number of bytes from `p` up to the first null byte, or up to the end of `d`.
pub open spec fn cstr_len(d: Seq<u8>, p: int) -> nat
    decreases d.len() - p,
{
    if p < 0 || p >= d.len() || d[p] == 0 {
        0
    } else {
        1 + cstr_len(d, p + 1)
    }
}

/// The result of reading a null-terminated string at position `p` of `d`: its
/// characters and the position after it. At the end of the stream the string
/// holds what is left, with no terminator to consume.
pub open spec fn read_cstr_at(d: Seq<u8>, p: int) -> Result<(Seq<char>, int), Error> {
    let e = p + cstr_len(d, p);
    let bytes = d.subrange(p, e);
    let next = if e < d.len() { e + 1 } else { e };
    if !(0 <= p <= d.len()) {
        Ok((Seq::empty(), p))
    } else if valid_utf8(bytes) {
        Ok((decode_utf8(bytes), next))
    } else {
        Err(Error::UTF8Error)
    }
}

/// The bytes of `s` as a null-terminated string.
pub open spec fn cstr_bytes(s: Seq<char>) -> Seq<u8> {
    encode_utf8(s).push(0u8)
}

/// Whether `s` can be written as a null-terminated string.
pub open spec fn writable_cstr(s: Seq<char>) -> bool {
    !encode_utf8(s).contains(0u8)
}

/// Relies on `String::from_utf8`: it succeeds exactly on valid UTF-8, and the
/// string then holds the decoded characters.
#[verifier::external_body]
fn string_from_utf8(bytes: Vec<u8>) -> (r: Option<String>)
    ensures
        r is Some <==> valid_utf8(bytes@),
        r matches Some(s) ==> s@ == decode_utf8(bytes@),
{
    String::from_utf8(bytes).ok()
}

/// A byte stream held in memory with a read position.
pub struct ByteReader {
    data: Vec<u8>,
    pos: usize,
}

impl ByteReader {
    /// A stream over `data`, positioned at its start.
    pub fn new(data: Vec<u8>) -> (r: Self)
        ensures
            r.bytes() == data@,
            r.pos() == 0,
    {
        ByteReader { data, pos: 0 }
    }

    pub closed spec fn bytes(&self) -> Seq<u8> {
        self.data@
    }

    pub closed spec fn pos(&self) -> nat {
        self.pos as nat
    }

    /// The current read position.
    pub fn position(&self) -> (r: usize)
        ensures
            r == self.pos(),
    {
        self.pos
    }

    /// Gives back the bytes of the stream.
    pub fn into_data(self) -> (r: Vec<u8>)
        ensures
            r@ == self.bytes(),
    {
        self.data
    }

    /// All bytes of the stream.
    pub fn data(&self) -> (r: &Vec<u8>)
        ensures
            r@ == self.bytes(),
    {
        &self.data
    }
}

/// Reading fixed-width little-endian integers and null-terminated strings.
/// Each read returns the number of bytes consumed together with the value.
pub trait BinaryReader {
    spec fn stream(&self) -> Seq<u8>;

    spec fn at(&self) -> int;

    fn read_u8(&mut self) -> (r: Result<(usize, u8), Error>)
        ensures
            final(self).stream() == old(self).stream(),
            match read_u8_at(old(self).stream(), old(self).at()) {
                Ok((v, q)) => r == Ok::<(usize, u8), Error>((1usize, v)) && final(self).at() == q,
                Err(e) => r == Err::<(usize, u8), Error>(e) && final(self).at() == old(self).at(),
            },
    ;

    fn read_u32(&mut self) -> (r: Result<(usize, u32), Error>)
        ensures
            final(self).stream() == old(self).stream(),
            match read_u32_at(old(self).stream(), old(self).at()) {
                Ok((v, q)) => r == Ok::<(usize, u32), Error>((4usize, v)) && final(self).at() == q,
                Err(e) => r == Err::<(usize, u32), Error>(e) && final(self).at() == old(self).at(),
            },
    ;

    fn read_u64(&mut self) -> (r: Result<(usize, u64), Error>)
        ensures
            final(self).stream() == old(self).stream(),
            match read_u64_at(old(self).stream(), old(self).at()) {
                Ok((v, q)) => r == Ok::<(usize, u64), Error>((8usize, v)) && final(self).at() == q,
                Err(e) => r == Err::<(usize, u64), Error>(e) && final(self).at() == old(self).at(),
            },
    ;

    fn read_c_string(&mut self) -> (r: Result<(usize, String), Error>)
        ensures
            final(self).stream() == old(self).stream(),
            match read_cstr_at(old(self).stream(), old(self).at()) {
                Ok((s, q)) => r matches Ok((n, v)) && v@ == s && n == q - old(self).at()
                    && final(self).at() == q,
                Err(e) => r == Err::<(usize, String), Error>(e) && final(self).at() == old(self).at(),
            },
    ;
}

impl BinaryReader for ByteReader {
    open spec fn stream(&self) -> Seq<u8> {
        self.bytes()
    }

    open spec fn at(&self) -> int {
        self.pos() as int
    }

    fn read_u8(&mut self) -> (r: Result<(usize, u8), Error>) {
        if self.pos < self.data.len() {
            let v = self.data[self.pos];
            self.pos = self.pos + 1;
            Ok((1, v))
        } else {
            Err(Error::IOError)
        }
    }

    fn read_u32(&mut self) -> (r: Result<(usize, u32), Error>) {
        if self.pos <= self.data.len() && self.data.len() - self.pos >= 4 {
            let b = slice_subrange(self.data.as_slice(), self.pos, self.pos + 4);
            let v = u32_from_le_bytes(b);
            self.pos = self.pos + 4;
            Ok((4, v))
        } else {
            Err(Error::IOError)
        }
    }

    fn read_u64(&mut self) -> (r: Result<(usize, u64), Error>) {
        if self.pos <= self.data.len() && self.data.len() - self.pos >= 8 {
            let b = slice_subrange(self.data.as_slice(), self.pos, self.pos + 8);
            let v = u64_from_le_bytes(b);
            self.pos = self.pos + 8;
            Ok((8, v))
        } else {
            Err(Error::IOError)
        }
    }

    fn read_c_string(&mut self) -> (r: Result<(usize, String), Error>) {
        let start = self.pos;
        if start > self.data.len() {
            return Ok((0, String::new()));
        }
        let mut end = start;
        let mut buf: Vec<u8> = Vec::new();
        while end < self.data.len() && self.data[end] != 0
            invariant
                start <= end <= self.data@.len(),
                buf@ == self.data@.subrange(start as int, end as int),
                cstr_len(self.data@, start as int) == (end - start) + cstr_len(self.data@, end as int),
            decreases self.data@.len() - end,
        {
            buf.push(self.data[end]);
            end = end + 1;
        }
        let next = if end < self.data.len() { end + 1 } else { end };
        match string_from_utf8(buf) {
            Some(s) => {
                self.pos = next;
                Ok((next - start, s))
            },
            None => Err(Error::UTF8Error),
        }
    }
}

/// Writing fixed-width little-endian integers and null-terminated strings.
/// Each write returns the number of bytes written.
pub trait BinaryWriter {
    spec fn sink(&self) -> Seq<u8>;

    fn write_u8(&mut self, val: u8) -> (r: Result<usize, Error>)
        ensures
            r == Ok::<usize, Error>(1usize),
            final(self).sink() == old(self).sink().push(val),
    ;

    fn write_u32(&mut self, val: u32) -> (r: Result<usize, Error>)
        ensures
            r == Ok::<usize, Error>(4usize),
            final(self).sink() == old(self).sink() + spec_u32_to_le_bytes(val),
    ;

    fn write_u64(&mut self, val: u64) -> (r: Result<usize, Error>)
        ensures
            r == Ok::<usize, Error>(8usize),
            final(self).sink() == old(self).sink() + spec_u64_to_le_bytes(val),
    ;

    /// Fails with `InvalidString`, writing nothing, when the string holds a null byte.
    fn write_c_string(&mut self, val: &str) -> (r: Result<usize, Error>)
        ensures
            writable_cstr(val@) ==> r == Ok::<usize, Error>((encode_utf8(val@).len() + 1) as usize)
                && final(self).sink() == old(self).sink() + cstr_bytes(val@),
            !writable_cstr(val@) ==> r == Err::<usize, Error>(Error::InvalidString)
                && final(self).sink() == old(self).sink(),
    ;
}

/// Appends the bytes of `b` to `v`.
fn push_all(v: &mut Vec<u8>, b: &[u8])
    ensures
        final(v)@ == old(v)@ + b@,
{
    let mut i: usize = 0;
    while i < b.len()
        invariant
            i <= b@.len(),
            v@ == old(v)@ + b@.subrange(0, i as int),
        decreases b@.len() - i,
    {
        v.push(b[i]);
        i = i + 1;
        assert(b@.subrange(0, i as int) == b@.subrange(0, i - 1).push(b@[i - 1]));
    }
    assert(b@.subrange(0, b@.len() as int) == b@);
}

impl BinaryWriter for Vec<u8> {
    open spec fn sink(&self) -> Seq<u8> {
        self@
    }

    fn write_u8(&mut self, val: u8) -> (r: Result<usize, Error>) {
        self.push(val);
        Ok(1)
    }

    fn write_u32(&mut self, val: u32) -> (r: Result<usize, Error>) {
        let b = u32_to_le_bytes(val);
        push_all(self, b.as_slice());
        Ok(4)
    }

    fn write_u64(&mut self, val: u64) -> (r: Result<usize, Error>) {
        let b = u64_to_le_bytes(val);
        push_all(self, b.as_slice());
        Ok(8)
    }

    fn write_c_string(&mut self, val: &str) -> (r: Result<usize, Error>) {
        let bytes = val.as_bytes();
        let mut i: usize = 0;
        while i < bytes.len()
            invariant
                i <= bytes@.len(),
                bytes@ == encode_utf8(val@),
                forall|k: int| 0 <= k < i ==> bytes@[k] != 0,
            decreases bytes@.len() - i,
        {
            if bytes[i] == 0 {
                return Err(Error::InvalidString);
            }
            i = i + 1;
        }
        push_all(self, bytes);
        self.push(0);
        let total = self.len();
        assert(bytes@.len() + 1 <= total);
        Ok(bytes.len() + 1)
    }
}

} // verus!
