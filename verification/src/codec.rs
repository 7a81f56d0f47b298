//! Transmission framing: a 4-byte big-endian length followed by the payload.
use vstd::prelude::*;

use crate::error::ServerError;

verus! {

/// The largest payload the protocol accepts: 4 MiB.
pub const MAX_MESSAGE_SIZE: u32 = 4 * 1024 * 1024;

/// The four big-endian bytes of `n`.
pub open spec fn be32(n: u32) -> Seq<u8> {
    seq![(n >> 24) as u8, (n >> 16) as u8, (n >> 8) as u8, n as u8]
}

/// The value read back from four big-endian bytes.
pub open spec fn be32_val(b0: u8, b1: u8, b2: u8, b3: u8) -> u32 {
    ((b0 as u32) << 24) | ((b1 as u32) << 16) | ((b2 as u32) << 8) | (b3 as u32)
}

/// Reading the four big-endian bytes of `n` gives `n` back.
pub proof fn lemma_be32_round_trip(n: u32)
    ensures
        be32_val((n >> 24) as u8, (n >> 16) as u8, (n >> 8) as u8, n as u8) == n,
{
    assert(((((n >> 24) as u8) as u32) << 24) | ((((n >> 16) as u8) as u32) << 16) | ((((n
        >> 8) as u8) as u32) << 8) | ((n as u8) as u32) == n) by (bit_vector);
}

/// A whole frame: the length prefix, then the payload itself.
pub open spec fn frame_spec(payload: Seq<u8>) -> Seq<u8> {
    be32(payload.len() as u32) + payload
}

/// The result of reading one frame out of `b` starting at `start`:
/// the payload and the offset just after it, or nothing when the bytes do
/// not hold a whole frame of an acceptable length.
pub open spec fn decode_frame_spec(b: Seq<u8>, start: int) -> Option<(Seq<u8>, int)> {
    if start + 4 > b.len() {
        None
    } else {
        let n = be32_val(b[start], b[start + 1], b[start + 2], b[start + 3]);
        if n > MAX_MESSAGE_SIZE || start + 4 + n > b.len() {
            None
        } else {
            Some((b.subrange(start + 4, start + 4 + n), start + 4 + n))
        }
    }
}

/// A framed payload of an acceptable length reads back byte for byte, and
/// a payload over the size limit fails to decode.
pub proof fn lemma_frame_round_trip(payload: Seq<u8>)
    requires
        payload.len() <= u32::MAX,
    ensures
        payload.len() <= MAX_MESSAGE_SIZE ==> decode_frame_spec(frame_spec(payload), 0) == Some(
            (payload, 4 + payload.len() as int),
        ),
        payload.len() > MAX_MESSAGE_SIZE ==> decode_frame_spec(frame_spec(payload), 0) is None,
{
    let n = payload.len() as u32;
    lemma_be32_round_trip(n);
    let framed = frame_spec(payload);
    assert(framed[0] == (n >> 24) as u8);
    assert(framed[1] == (n >> 16) as u8);
    assert(framed[2] == (n >> 8) as u8);
    assert(framed[3] == n as u8);
    if payload.len() <= MAX_MESSAGE_SIZE {
        assert(framed.subrange(4, 4 + n as int) =~= payload);
    }
}

/// Append the frame of `data` to `out`: the length as four big-endian
/// bytes, then the bytes of `data`. A payload over the 4 MiB protocol
/// limit fails with a transmission error, leaving `out` alone.
pub fn write_message_raw(out: &mut Vec<u8>, data: &Vec<u8>) -> (r: Result<(), ServerError>)
    ensures
        r is Ok <==> data@.len() <= MAX_MESSAGE_SIZE,
        r is Ok ==> final(out)@ == old(out)@ + frame_spec(data@),
        r matches Err(e) ==> e is Transmission && final(out)@ == old(out)@,
    {
    let len = data.len();
    if len as u64 > MAX_MESSAGE_SIZE as u64 {
        return ServerError::transmission_error(String::from_str("Data is too large !"));
    }
    let n = len as u32;
    out.push((n >> 24) as u8);
    out.push((n >> 16) as u8);
    out.push((n >> 8) as u8);
    out.push(n as u8);
    let mut k: usize = 0;
    while k < len
        invariant
            0 <= k <= len,
            len == data@.len(),
            out@ == old(out)@ + be32(len as u32) + data@.subrange(0, k as int),
        decreases len - k,
    {
        out.push(data[k]);
        k = k + 1;
    }
    proof {
        assert(out@ =~= old(out)@ + frame_spec(data@));
    }
    Ok(())
}

/// Read one frame out of `buf` starting at offset `start`; on success the
/// payload bytes and the offset just past the frame. A missing prefix, a
/// length over the 4 MiB limit and a short payload all fail.
pub fn read_message_raw(buf: &Vec<u8>, start: usize) -> (r: Result<(Vec<u8>, usize), ServerError>)
    requires
        start <= buf@.len(),
    ensures
        match r {
            Ok(p) => decode_frame_spec(buf@, start as int) == Some((p.0@, p.1 as int)) && p.1
                <= buf@.len(),
            Err(e) => decode_frame_spec(buf@, start as int) is None && e is Transmission,
        },
{
    if buf.len() - start < 4 {
        return ServerError::transmission_error(String::from_str("Missing frame header"));
    }
    let n = be32_read(buf[start], buf[start + 1], buf[start + 2], buf[start + 3]);
    if n > MAX_MESSAGE_SIZE {
        return ServerError::transmission_error(String::from_str("Received message is too big !"));
    }
    if (n as u64) > (buf.len() - start - 4) as u64 {
        return ServerError::transmission_error(String::from_str("Frame payload is short"));
    }
    let mut payload: Vec<u8> = Vec::new();
    let base = start + 4;
    let buf_len = buf.len();
    let mut k: usize = 0;
    while k < n as usize
        invariant
            0 <= k <= n,
            buf_len == buf@.len(),
            base + n <= buf_len,
            payload@ == buf@.subrange(base as int, base + k as int),
        decreases n as usize - k,
    {
        payload.push(buf[base + k]);
        k = k + 1;
    }
    proof {
        assert(payload@ =~= buf@.subrange(start + 4, start + 4 + n as int));
    }
    Ok((payload, base + n as usize))
}

/// The value of four big-endian bytes.
pub fn be32_read(b0: u8, b1: u8, b2: u8, b3: u8) -> (r: u32)
    ensures
        r == be32_val(b0, b1, b2, b3),
{
    ((b0 as u32) << 24) | ((b1 as u32) << 16) | ((b2 as u32) << 8) | (b3 as u32)
}

/// Serialize `message` canonically and append its frame to `out`.
///
/// Fails with a serializer error on a message whose strings cannot go on
/// the wire unescaped, and with a transmission error when the encoding is
/// over the 4 MiB frame limit; in both cases `out` is unchanged.
pub fn write_message(out: &mut Vec<u8>, message: &crate::messages::Message) -> (r: Result<
    (),
    ServerError,
>)
    ensures
        r is Ok <==> vstd::utf8::is_ascii_chars(crate::json::enc_message(message@))
            && crate::json::enc_message(message@).len() <= MAX_MESSAGE_SIZE,
        r is Ok ==> final(out)@ == old(out)@ + frame_spec(
            crate::json::ascii_of(crate::json::enc_message(message@)),
        ),
        r matches Err(e) ==> final(out)@ == old(out)@ && (e is SerializerError
            || e is Transmission),
{
    let enc = crate::json::encode_message(message);
    let es = enc.as_str();
    if !es.is_ascii() {
        return Err(
            ServerError::SerializerError(String::from_str("Message is not plain text")),
        );
    }
    let eb = es.as_bytes();
    let mut data: Vec<u8> = Vec::new();
    let n = eb.len();
    let mut k: usize = 0;
    while k < n
        invariant
            0 <= k <= n,
            n == eb@.len(),
            data@ == eb@.subrange(0, k as int),
        decreases n - k,
    {
        data.push(eb[k]);
        k = k + 1;
    }
    proof {
        broadcast use vstd::string::is_ascii_spec_bytes;

        assert(vstd::string::is_ascii(es));
        assert(data@ =~= eb@);
        assert(data@ =~= crate::json::ascii_of(crate::json::enc_message(message@)));
    }
    write_message_raw(out, &data)
}

/// Read one frame out of `buf` at `start` and decode its payload.
///
/// On success, the frame payload is exactly the canonical encoding of the
/// returned message, and the returned offset points just past the frame.
/// A framing failure reports `Transmission`; a frame whose payload is not
/// a canonical message reports `SerializerError`.
pub fn read_message(buf: &Vec<u8>, start: usize) -> (r: Result<
    (crate::messages::Message, usize),
    ServerError,
>)
    requires
        start <= buf@.len(),
    ensures
        r matches Ok(p) ==> {
            &&& vstd::utf8::is_ascii_chars(crate::json::enc_message(p.0@))
            &&& decode_frame_spec(buf@, start as int) == Some(
                (crate::json::ascii_of(crate::json::enc_message(p.0@)), p.1 as int),
            )
            &&& p.1 <= buf@.len()
        },
        r matches Err(e) ==> {
            &&& (decode_frame_spec(buf@, start as int) is None <==> e is Transmission)
            &&& (decode_frame_spec(buf@, start as int) is Some <==> e is SerializerError)
        },
        forall|d: crate::messages::MoveDirection|
            (match decode_frame_spec(buf@, start as int) {
                Some(p) => p.0 == crate::json::ascii_of(
                    #[trigger] crate::json::enc_message(
                        crate::messages::MessageV::Move(d),
                    ),
                ),
                None => false,
            }) ==> r is Ok,
{
    let (payload, next) = match read_message_raw(buf, start) {
        Ok(p) => p,
        Err(e) => {
            return Err(e);
        },
    };
    let message = match crate::json::decode_message(&payload) {
        Ok(m) => m,
        Err(e) => {
            return Err(e);
        },
    };
    Ok((message, next))
}

} // verus!
