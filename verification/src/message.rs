//! The messages of the console, and how they are framed on the wire: four
//! bytes with the length of the payload, least significant first, and then
//! the payload.
use crate::decimal::{decimal, push_decimal};
use bytes::Buf;
use bytes::BytesMut;
use vstd::prelude::*;
use vstd::slice::*;
use vstd::string::*;

verus! {

/// The port of the console.
pub const PORT: u16 = 6379;

/// The longest payload that a frame may hold.
pub const MAX: usize = 8 * 1024 * 1024;

/// A message of the console.
#[derive(Debug)]
pub enum Message {
    Text(String),
}

/// Why a frame is refused.
#[derive(Debug)]
pub enum FrameError {
    /// The payload, of the given length, is longer than [`MAX`].
    TooLarge(usize),
}

/// The codec of the console: it frames payloads and takes frames apart.
pub struct JsonCodec;

/// `bytes::BytesMut`: a buffer of bytes, which grows at its end and is taken
/// from at its start.
#[verifier::external_type_specification]
#[verifier::external_body]
pub struct ExBytesMut(bytes::BytesMut);

/// The bytes that a buffer holds, first to last.
pub uninterp spec fn contents(buf: BytesMut) -> Seq<u8>;

/// `BytesMut::len`: how many bytes the buffer holds.
#[verifier::external_body]
fn buffer_len(buf: &BytesMut) -> (n: usize)
    ensures
        n == contents(*buf).len(),
{
    buf.len()
}

/// `BytesMut::as_ref`: the bytes that the buffer holds, as a slice.
#[verifier::external_body]
fn buffer_bytes(buf: &BytesMut) -> (bytes: &[u8])
    ensures
        bytes@ == contents(*buf),
{
    buf.as_ref()
}

/// `BytesMut::reserve`: room is made for `additional` more bytes, and the
/// bytes held stay as they are. It panics where the new capacity overflows, so
/// the bytes held and the new ones together must fit in one allocation.
#[verifier::external_body]
fn buffer_reserve(buf: &mut BytesMut, additional: usize)
    requires
        contents(*old(buf)).len() + additional <= isize::MAX,
    ensures
        contents(*final(buf)) == contents(*old(buf)),
{
    buf.reserve(additional)
}

/// `BytesMut::extend_from_slice`: the bytes of `extend` are appended. Room is
/// reserved for them first, so all together must fit in one allocation.
#[verifier::external_body]
fn buffer_extend(buf: &mut BytesMut, extend: &[u8])
    requires
        contents(*old(buf)).len() + extend@.len() <= isize::MAX,
    ensures
        contents(*final(buf)) == contents(*old(buf)) + extend@,
{
    buf.extend_from_slice(extend)
}

/// `Buf::advance` of `BytesMut`: the first `cnt` bytes leave the buffer. It
/// panics where the buffer holds fewer.
#[verifier::external_body]
fn buffer_advance(buf: &mut BytesMut, cnt: usize)
    requires
        cnt <= contents(*old(buf)).len(),
    ensures
        contents(*final(buf)) == contents(*old(buf)).subrange(
            cnt as int,
            contents(*old(buf)).len() as int,
        ),
{
    buf.advance(cnt)
}

/// The four bytes of a length, least significant first.
pub open spec fn length_bytes(n: u32) -> Seq<u8> {
    seq![
        (n % 256) as u8,
        (n / 0x100 % 256) as u8,
        (n / 0x1_0000 % 256) as u8,
        (n / 0x100_0000) as u8,
    ]
}

/// The length that the first four bytes of `s` give.
pub open spec fn frame_length(s: Seq<u8>) -> int
    recommends
        s.len() >= 4,
{
    s[0] + s[1] * 0x100 + s[2] * 0x1_0000 + s[3] * 0x100_0000
}

/// The frame of a payload: its length, and then the payload itself.
pub open spec fn frame(payload: Seq<u8>) -> Seq<u8>
    recommends
        payload.len() <= MAX,
{
    length_bytes(payload.len() as u32) + payload
}

/// The length that a frame starts with is read back as it was written.
pub proof fn lemma_frame_length(n: u32, rest: Seq<u8>)
    ensures
        frame_length(length_bytes(n) + rest) == n,
{
    let s = length_bytes(n) + rest;
    assert(s[0] == (n % 256) as u8);
    assert(s[1] == (n / 0x100 % 256) as u8);
    assert(s[2] == (n / 0x1_0000 % 256) as u8);
    assert(s[3] == (n / 0x100_0000) as u8);
}

/// What was framed is read back: where the bytes held start with the frame of
/// a payload, the length read is that of the payload, the payload follows the
/// four bytes of the length, and after it comes what came after the frame.
pub proof fn lemma_frame_read_back(payload: Seq<u8>, rest: Seq<u8>)
    requires
        payload.len() <= MAX,
    ensures
        frame_length(frame(payload) + rest) == payload.len(),
        (frame(payload) + rest).subrange(4, 4 + payload.len() as int) == payload,
        (frame(payload) + rest).subrange(
            4 + payload.len() as int,
            (frame(payload) + rest).len() as int,
        )
            == rest,
{
    let n = payload.len() as u32;
    let held = frame(payload) + rest;
    assert(held =~= length_bytes(n) + (payload + rest));
    lemma_frame_length(n, payload + rest);
    assert(held.subrange(4, 4 + payload.len() as int) =~= payload);
    assert(held.subrange(4 + payload.len() as int, held.len() as int) =~= rest);
}

impl FrameError {
    /// What the error says.
    pub open spec fn spec_message(&self) -> Seq<char> {
        match self {
            FrameError::TooLarge(len) => "Frame of length "@ + decimal(*len as nat)
                + " is too large."@,
        }
    }

    /// What the error says.
    pub fn message(&self) -> (r: String)
        ensures
            r@ == self.spec_message(),
    {
        match self {
            FrameError::TooLarge(len) => {
                let mut r = String::from_str("Frame of length ");
                push_decimal(&mut r, *len as u64);
                r.append(" is too large.");
                assert(r@ =~= self.spec_message());
                r
            },
        }
    }
}

impl JsonCodec {
    pub fn new() -> (r: Self)
        ensures
            r == JsonCodec,
    {
        JsonCodec {  }
    }

    /// Appends to `dst` the frame of the payload `ser`, unless the payload is
    /// longer than [`MAX`].
    pub fn encode(&mut self, ser: &[u8], dst: &mut BytesMut) -> (r: Result<(), FrameError>)
        requires
            ser@.len() <= MAX ==> contents(*old(dst)).len() + 4 + ser@.len() <= isize::MAX,
        ensures
            ser@.len() > MAX ==> r == Err::<(), FrameError>(FrameError::TooLarge(ser@.len() as usize))
                && contents(*final(dst)) == contents(*old(dst)),
            ser@.len() <= MAX ==> r is Ok && contents(*final(dst)) == contents(*old(dst)) + frame(
                ser@,
            ),
    {
        if ser.len() > MAX {
            return Err(FrameError::TooLarge(ser.len()));
        }
        // The length fits: it is at most MAX.
        let len = ser.len() as u32;
        let len_slice: [u8; 4] = [
            (len % 256) as u8,
            (len / 0x100 % 256) as u8,
            (len / 0x1_0000 % 256) as u8,
            (len / 0x100_0000) as u8,
        ];
        assert(len_slice@ =~= length_bytes(len));
        buffer_reserve(dst, 4 + ser.len());
        buffer_extend(dst, len_slice.as_slice());
        buffer_extend(dst, ser);
        assert(contents(*dst) =~= contents(*old(dst)) + frame(ser@));
        Ok(())
    }

    /// Appends to `dst` the frame of the payload `ser`, as [`JsonCodec::encode`]
    /// does, if `dst` can grow by the frame; gives nothing, and leaves `dst` as
    /// it is, if it cannot.
    pub fn encode_if_room(&mut self, ser: &[u8], dst: &mut BytesMut) -> (r: Option<
        Result<(), FrameError>,
    >)
        ensures
            ({
                let held = contents(*old(dst));
                if ser@.len() > MAX {
                    r == Some(Err::<(), FrameError>(FrameError::TooLarge(ser@.len() as usize)))
                        && contents(*final(dst)) == held
                } else if held.len() + 4 + ser@.len() <= isize::MAX {
                    r matches Some(Ok(_)) && contents(*final(dst)) == held + frame(ser@)
                } else {
                    r is None && contents(*final(dst)) == held
                }
            }),
    {
        if ser.len() <= MAX {
            let held = buffer_len(dst);
            let most: usize = isize::MAX as usize;
            if held > most || most - held < 4 + ser.len() {
                return None;
            }
        }
        Some(self.encode(ser, dst))
    }

    /// Takes the first frame out of `src` and gives its payload, once the
    /// whole frame is there. Until then nothing leaves `src`. A frame that
    /// announces a payload longer than [`MAX`] is refused.
    pub fn decode(&mut self, src: &mut BytesMut) -> (r: Result<Option<Vec<u8>>, FrameError>)
        ensures
            ({
                let held = contents(*old(src));
                if held.len() < 4 {
                    r matches Ok(None) && contents(*final(src)) == held
                } else if frame_length(held) > MAX {
                    r == Err::<Option<Vec<u8>>, FrameError>(
                        FrameError::TooLarge(frame_length(held) as usize),
                    ) && contents(*final(src)) == held
                } else if held.len() < 4 + frame_length(held) {
                    r matches Ok(None) && contents(*final(src)) == held
                } else {
                    &&& r matches Ok(Some(data)) && data@ == held.subrange(
                        4,
                        4 + frame_length(held),
                    )
                    &&& contents(*final(src)) == held.subrange(
                        4 + frame_length(held),
                        held.len() as int,
                    )
                }
            }),
    {
        let held = buffer_len(src);
        if held < 4 {
            // Not enough data to read the length.
            return Ok(None);
        }
        let bytes = buffer_bytes(src);
        let length: usize = (bytes[0] as u32 + bytes[1] as u32 * 0x100 + bytes[2] as u32 * 0x1_0000
            + bytes[3] as u32 * 0x100_0000) as usize;
        if length > MAX {
            return Err(FrameError::TooLarge(length));
        }
        if held < 4 + length {
            // The whole frame has not arrived yet: room is made for it.
            buffer_reserve(src, 4 + length - held);
            return Ok(None);
        }
        let data = slice_to_vec(slice_subrange(bytes, 4, 4 + length));
        buffer_advance(src, 4 + length);
        Ok(Some(data))
    }
}

} // verus!
