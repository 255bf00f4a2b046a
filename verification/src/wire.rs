//! The byte stream the replication layer hands a codec.
//!
//! A codec writes its frame into a [`Writer`] and reads one back from a
//! [`Reader`]. The stream types belong to the serialization crate; this module
//! names what they hold — the bytes written so far, and the bytes not yet read —
//! and moves frames through them one byte at a time.

use vstd::prelude::*;
use lightyear_serde::SerializationError;
use lightyear_serde::reader::{ReadInteger, Reader};
use lightyear_serde::writer::{WriteInteger, Writer};
use crate::frame::{decoded_count, lemma_decoded_count_bounded};

verus! {

/// The replication layer's read cursor over a received buffer.
#[verifier::external_type_specification]
#[verifier::external_body]
pub struct ExReader(Reader);

/// The replication layer's growable output buffer.
#[verifier::external_type_specification]
#[verifier::external_body]
pub struct ExWriter(Writer);

/// Why a read or write on the stream failed.
#[verifier::external_type_specification]
#[verifier::external_body]
pub struct ExSerializationError(SerializationError);

/// The bytes of `r` from its position to its end: what is left to read.
pub uninterp spec fn unread(r: Reader) -> Seq<u8>;

/// The bytes written into `w` so far.
pub uninterp spec fn written(w: Writer) -> Seq<u8>;

/// Read one byte. `ReadInteger::read_u8` reads exactly one byte from the
/// cursor: when one is left it returns it and advances past it, and when none
/// is left it fails.
#[verifier::external_body]
fn read_byte(reader: &mut Reader) -> (r: Result<u8, SerializationError>)
    ensures
        match r {
            Ok(b) => {
                &&& unread(*old(reader)).len() > 0
                &&& b == unread(*old(reader))[0]
                &&& unread(*final(reader)) == unread(*old(reader)).drop_first()
            },
            Err(_) => unread(*old(reader)).len() == 0,
        },
{
    match reader.read_u8() {
        Ok(b) => Ok(b),
        Err(e) => Err(SerializationError::from(e)),
    }
}

/// How many more bytes a buffer holding `buf` can take: the buffer is a
/// `BytesMut`, which never grows past `isize::MAX` bytes.
pub open spec fn room(buf: Seq<u8>) -> nat {
    if buf.len() < isize::MAX as int {
        (isize::MAX as int - buf.len()) as nat
    } else {
        0
    }
}

/// What a buffer holding `buf` holds after `frame` is written into it: all of
/// the frame when it fits, else as much of it as there is room for.
pub open spec fn after_write(buf: Seq<u8>, frame: Seq<u8>) -> Seq<u8> {
    if frame.len() <= room(buf) {
        buf + frame
    } else {
        buf + frame.take(room(buf) as int)
    }
}

/// Write one byte. `WriteInteger::write_u8` is `write_all` of the one byte into
/// the stream's `bytes::buf::Writer<BytesMut>`, whose `write` copies as many
/// bytes as `BytesMut::remaining_mut` (`isize::MAX` less the length) allows.
/// So the byte is appended and the call succeeds exactly when the buffer has
/// room; with no room nothing is copied and `write_all` fails.
#[verifier::external_body]
fn write_byte(writer: &mut Writer, b: u8) -> (r: Result<(), SerializationError>)
    ensures
        r is Ok <==> room(written(*old(writer))) > 0,
        r is Ok ==> written(*final(writer)) == written(*old(writer)).push(b),
        r is Err ==> written(*final(writer)) == written(*old(writer)),
{
    match writer.write_u8(b) {
        Ok(()) => Ok(()),
        Err(e) => Err(SerializationError::from(e)),
    }
}

/// Write a whole frame, byte by byte. Succeeds exactly when the buffer has room
/// for the whole frame, and then the buffer holds what it held before followed
/// by the frame; otherwise it takes as much of the frame as it has room for.
pub fn write_frame(frame: &[u8], writer: &mut Writer) -> (r: Result<(), SerializationError>)
    ensures
        r is Ok <==> frame@.len() <= room(written(*old(writer))),
        written(*final(writer)) == after_write(written(*old(writer)), frame@),
{
    let ghost start = written(*writer);
    let mut i: usize = 0;
    while i < frame.len()
        invariant
            i <= frame@.len(),
            i <= room(start),
            start == written(*old(writer)),
            written(*writer) == start + frame@.take(i as int),
        decreases frame@.len() - i,
    {
        let res = write_byte(writer, frame[i]);
        match res {
            Ok(()) => {},
            Err(e) => {
                return Err(e);
            },
        }
        assert(frame@.take(i + 1) =~= frame@.take(i as int).push(frame@[i as int]));
        i += 1;
    }
    assert(frame@.take(frame@.len() as int) =~= frame@);
    Ok(())
}

/// Read exactly `n` bytes. Succeeds exactly when at least `n` are left, and
/// then returns the next `n` and advances past them.
pub fn read_exact_frame(reader: &mut Reader, n: usize) -> (r: Result<Vec<u8>, SerializationError>)
    ensures
        r is Ok <==> unread(*old(reader)).len() >= n,
        r matches Ok(bytes) ==> {
            &&& bytes@ == unread(*old(reader)).take(n as int)
            &&& unread(*final(reader)) == unread(*old(reader)).skip(n as int)
        },
{
    let ghost start = unread(*reader);
    let mut out: Vec<u8> = Vec::new();
    let mut i: usize = 0;
    while i < n
        invariant
            i <= n,
            start == unread(*old(reader)),
            i <= start.len(),
            out@ == start.take(i as int),
            unread(*reader) == start.skip(i as int),
        decreases n - i,
    {
        let res = read_byte(reader);
        match res {
            Ok(b) => {
                out.push(b);
                assert(start.skip(i as int)[0] == start[i as int]);
                assert(start.take(i + 1) =~= start.take(i as int).push(start[i as int]));
                assert(start.skip(i as int).drop_first() =~= start.skip(i + 1));
            },
            Err(e) => {
                return Err(e);
            },
        }
        i += 1;
    }
    Ok(out)
}

/// How many bytes a counted frame whose count byte is `count` spans: the count
/// byte, then `count` entries of `len` bytes.
pub open spec fn counted_frame_len(count: u8, len: nat) -> nat {
    1 + (count as nat) * len
}

/// Read a counted frame of `len`-byte entries: the count byte, then exactly as
/// many entries as it claims. Succeeds exactly when that many bytes are left,
/// and then returns them and advances past them — the frame sizes itself, so it
/// can share a buffer with whatever follows it.
pub fn read_counted_frame(reader: &mut Reader, len: usize) -> (r: Result<
    Vec<u8>,
    SerializationError,
>)
    requires
        0 < len <= 64,
    ensures
        r is Ok <==> (unread(*old(reader)).len() >= 1 && unread(*old(reader)).len()
            >= counted_frame_len(unread(*old(reader))[0], len as nat)),
        r matches Ok(bytes) ==> {
            let n = counted_frame_len(unread(*old(reader))[0], len as nat) as int;
            &&& bytes@ == unread(*old(reader)).take(n)
            &&& unread(*final(reader)) == unread(*old(reader)).skip(n)
        },
{
    let ghost start = unread(*reader);
    let count = match read_byte(reader) {
        Ok(b) => b,
        Err(e) => {
            return Err(e);
        },
    };
    assert((count as usize) * len <= 255 * 64) by (nonlinear_arith)
        requires
            count <= 255,
            len <= 64,
    ;
    let body_len = count as usize * len;
    let rest = match read_exact_frame(reader, body_len) {
        Ok(rest) => rest,
        Err(e) => {
            return Err(e);
        },
    };
    let mut frame: Vec<u8> = Vec::with_capacity(1 + body_len);
    frame.push(count);
    let mut i: usize = 0;
    while i < rest.len()
        invariant
            i <= rest@.len(),
            frame@ == seq![count] + rest@.take(i as int),
        decreases rest@.len() - i,
    {
        frame.push(rest[i]);
        assert(rest@.take(i + 1) =~= rest@.take(i as int).push(rest@[i as int]));
        i += 1;
    }
    proof {
        assert(rest@.take(rest@.len() as int) =~= rest@);
        assert(start.drop_first().take(body_len as int) =~= start.take(1 + body_len).drop_first());
        assert(frame@ =~= start.take(1 + body_len));
        assert(start.drop_first().skip(body_len as int) =~= start.skip(1 + body_len));
    }
    Ok(frame)
}

} // verus!
