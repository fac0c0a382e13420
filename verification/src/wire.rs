//! Length-prefixed framing: a frame is the length of its payload as eight
//! little-endian bytes, followed by the payload.
use vstd::prelude::*;
use vstd::utf8::*;
use vstd::string::*;

verus! {

broadcast use {vstd::utf8::encode_utf8_valid_utf8, vstd::utf8::encode_utf8_decode_utf8};

/// The eight little-endian bytes of `n`.
pub open spec fn le_bytes(n: u64) -> Seq<u8> {
    seq![
        (n & 0xff) as u8,
        ((n >> 8) & 0xff) as u8,
        ((n >> 16) & 0xff) as u8,
        ((n >> 24) & 0xff) as u8,
        ((n >> 32) & 0xff) as u8,
        ((n >> 40) & 0xff) as u8,
        ((n >> 48) & 0xff) as u8,
        ((n >> 56) & 0xff) as u8,
    ]
}

/// The number that eight little-endian bytes stand for.
pub open spec fn le_value(b: Seq<u8>) -> int
    recommends
        b.len() == 8,
{
    b[0] + b[1] * 0x100 + b[2] * 0x1_0000 + b[3] * 0x100_0000 + b[4] * 0x1_0000_0000
        + b[5] * 0x100_0000_0000 + b[6] * 0x1_0000_0000_0000 + b[7] * 0x100_0000_0000_0000
}

/// The frame that carries `payload`.
pub open spec fn frame(payload: Seq<u8>) -> Seq<u8>
    recommends
        payload.len() <= u64::MAX,
{
    le_bytes(payload.len() as u64) + payload
}

/// Why a frame could not be read from a buffer.
#[derive(Debug, Clone, Copy, PartialEq, Eq, Structural)]
pub enum FrameError {
    /// The buffer ends inside the frame: it holds some, but not all, of the
    /// eight length bytes, or fewer payload bytes than the length announces.
    Truncated,
    /// The payload of a text frame is not UTF-8. The protocol has no answer
    /// for such a frame: it is a fault of the peer, on which the client and
    /// the server stop (panic) rather than go on.
    InvalidUtf8,
}

/// What reading a text frame from the start of `bytes` gives: `Ok(None)`,
/// which stands for "no string", for an empty buffer (the peer has closed the
/// connection and nothing arrived) and for a frame of length zero;
/// `Ok(Some((text, used)))` for a frame of `used` bytes whose payload is the
/// UTF-8 encoding of `text`; `InvalidUtf8` for a whole frame whose payload is
/// not UTF-8, the one input on which the programs stop; `Truncated` where the
/// buffer ends inside the frame.
pub open spec fn read_text_frame(bytes: Seq<u8>) -> Result<Option<(Seq<char>, int)>, FrameError> {
    if bytes.len() == 0 {
        Ok(None)
    } else if bytes.len() < 8 {
        Err(FrameError::Truncated)
    } else {
        let size = le_value(bytes.subrange(0, 8));
        if size == 0 {
            Ok(None)
        } else if bytes.len() < 8 + size {
            Err(FrameError::Truncated)
        } else {
            let payload = bytes.subrange(8, 8 + size);
            if valid_utf8(payload) {
                Ok(Some((decode_utf8(payload), 8 + size)))
            } else {
                Err(FrameError::InvalidUtf8)
            }
        }
    }
}

proof fn lemma_le_value_of_bytes(n: u64)
    ensures
        le_value(le_bytes(n)) == n,
{
    let b0 = n & 0xff;
    let b1 = (n >> 8) & 0xff;
    let b2 = (n >> 16) & 0xff;
    let b3 = (n >> 24) & 0xff;
    let b4 = (n >> 32) & 0xff;
    let b5 = (n >> 40) & 0xff;
    let b6 = (n >> 48) & 0xff;
    let b7 = (n >> 56) & 0xff;
    assert(b0 + b1 * 0x100 + b2 * 0x1_0000 + b3 * 0x100_0000 + b4 * 0x1_0000_0000
        + b5 * 0x100_0000_0000 + b6 * 0x1_0000_0000_0000 + b7 * 0x100_0000_0000_0000 == n)
        by (bit_vector)
        requires
            b0 == n & 0xff,
            b1 == (n >> 8) & 0xff,
            b2 == (n >> 16) & 0xff,
            b3 == (n >> 24) & 0xff,
            b4 == (n >> 32) & 0xff,
            b5 == (n >> 40) & 0xff,
            b6 == (n >> 48) & 0xff,
            b7 == (n >> 56) & 0xff,
    ;
    assert(b0 < 256 && b1 < 256 && b2 < 256 && b3 < 256 && b4 < 256 && b5 < 256 && b6 < 256
        && b7 < 256) by (bit_vector)
        requires
            b0 == n & 0xff,
            b1 == (n >> 8) & 0xff,
            b2 == (n >> 16) & 0xff,
            b3 == (n >> 24) & 0xff,
            b4 == (n >> 32) & 0xff,
            b5 == (n >> 40) & 0xff,
            b6 == (n >> 48) & 0xff,
            b7 == (n >> 56) & 0xff,
    ;
}

/// Writing a length as its eight bytes and reading them back gives the length.
pub proof fn lemma_size_roundtrip(n: u64)
    ensures
        le_value(le_bytes(n)) == n,
{
    lemma_le_value_of_bytes(n);
}

/// Eight bytes read as a length and written again are the same eight bytes.
pub proof fn lemma_bytes_roundtrip(b: Seq<u8>)
    requires
        b.len() == 8,
    ensures
        0 <= le_value(b) <= u64::MAX,
        le_bytes(le_value(b) as u64) == b,
{
    let (b0, b1, b2, b3, b4, b5, b6, b7) = (b[0], b[1], b[2], b[3], b[4], b[5], b[6], b[7]);
    let v = le_value(b);
    assert(0 <= v <= u64::MAX);
    let n = v as u64;
    assert(n == b0 as u64 | (b1 as u64) << 8 | (b2 as u64) << 16 | (b3 as u64) << 24
        | (b4 as u64) << 32 | (b5 as u64) << 40 | (b6 as u64) << 48 | (b7 as u64) << 56
        ) by (bit_vector)
        requires
            n == b0 + b1 * 0x100 + b2 * 0x1_0000 + b3 * 0x100_0000 + b4 * 0x1_0000_0000
                + b5 * 0x100_0000_0000 + b6 * 0x1_0000_0000_0000 + b7 * 0x100_0000_0000_0000,
    ;
    assert(((n & 0xff) as u8) == b0 && (((n >> 8) & 0xff) as u8) == b1
        && (((n >> 16) & 0xff) as u8) == b2 && (((n >> 24) & 0xff) as u8) == b3
        && (((n >> 32) & 0xff) as u8) == b4 && (((n >> 40) & 0xff) as u8) == b5
        && (((n >> 48) & 0xff) as u8) == b6 && (((n >> 56) & 0xff) as u8) == b7)
        by (bit_vector)
        requires
            n == b0 as u64 | (b1 as u64) << 8 | (b2 as u64) << 16 | (b3 as u64) << 24
                | (b4 as u64) << 32 | (b5 as u64) << 40 | (b6 as u64) << 48 | (b7 as u64) << 56,
    ;
    assert(le_bytes(n) =~= b);
}

/// The eight little-endian bytes that carry a frame length.
pub fn encode_size(n: u64) -> (b: [u8; 8])
    ensures
        b@ == le_bytes(n),
{
    let b = [
        (n & 0xff) as u8,
        ((n >> 8) & 0xff) as u8,
        ((n >> 16) & 0xff) as u8,
        ((n >> 24) & 0xff) as u8,
        ((n >> 32) & 0xff) as u8,
        ((n >> 40) & 0xff) as u8,
        ((n >> 48) & 0xff) as u8,
        ((n >> 56) & 0xff) as u8,
    ];
    assert(b@ =~= le_bytes(n));
    b
}

/// The frame length that eight little-endian bytes carry.
pub fn decode_size(b: &[u8; 8]) -> (n: u64)
    ensures
        n == le_value(b@),
{
    let n: u64 = b[0] as u64 + b[1] as u64 * 0x100 + b[2] as u64 * 0x1_0000 + b[3] as u64
        * 0x100_0000 + b[4] as u64 * 0x1_0000_0000 + b[5] as u64 * 0x100_0000_0000 + b[6] as u64
        * 0x1_0000_0000_0000 + b[7] as u64 * 0x100_0000_0000_0000;
    n
}

/// Calls `std::str::from_utf8`. As std documents, the call succeeds exactly
/// on well-formed UTF-8, and the string it gives then holds the characters
/// that the bytes encode.
#[verifier::external_body]
fn utf8_str(bytes: &[u8]) -> (r: Option<&str>)
    ensures
        r is Some <==> valid_utf8(bytes@),
        r matches Some(s) ==> s@ == decode_utf8(bytes@),
{
    std::str::from_utf8(bytes).ok()
}

/// The frame that carries `payload`: its length in eight little-endian bytes,
/// then the payload itself.
pub fn encode_message(payload: &[u8]) -> (r: Vec<u8>)
    ensures
        r@ == frame(payload@),
{
    let size = encode_size(payload.len() as u64);
    let mut r: Vec<u8> = Vec::new();
    let mut i: usize = 0;
    while i < 8
        invariant
            0 <= i <= 8,
            r@ == size@.subrange(0, i as int),
        decreases 8 - i,
    {
        r.push(size[i]);
        i = i + 1;
    }
    let mut j: usize = 0;
    while j < payload.len()
        invariant
            0 <= j <= payload.len(),
            r@ == size@ + payload@.subrange(0, j as int),
        decreases payload.len() - j,
    {
        r.push(payload[j]);
        j = j + 1;
    }
    assert(payload@.subrange(0, payload@.len() as int) =~= payload@);
    r
}

/// The frame in which a string is sent: its UTF-8 encoding, prefixed by the
/// length of that encoding.
pub fn encode_text(s: &str) -> (r: Vec<u8>)
    ensures
        r@ == frame(encode_utf8(s@)),
{
    encode_message(s.as_bytes())
}

/// The string that a frame payload carries, or `InvalidUtf8` when the payload
/// is not UTF-8: a fault of the peer that has no answer in the protocol, on
/// which the programs stop (panic).
pub fn decode_payload(payload: &[u8]) -> (r: Result<String, FrameError>)
    ensures
        valid_utf8(payload@) ==> (r matches Ok(s) && s@ == decode_utf8(payload@)),
        !valid_utf8(payload@) ==> r == Err::<String, FrameError>(FrameError::InvalidUtf8),
{
    match utf8_str(payload) {
        Some(s) => Ok(s.to_owned()),
        None => Err(FrameError::InvalidUtf8),
    }
}

/// Reads a text frame from the start of `bytes`, as a connection delivers it;
/// see [`read_text_frame`]. An empty buffer, or a length of zero, reads as
/// "no string"; an `InvalidUtf8` error marks the frame on which the programs
/// stop (panic).
pub fn decode_text_frame(bytes: &[u8]) -> (r: Result<Option<(String, usize)>, FrameError>)
    ensures
        match r {
            Ok(None) => read_text_frame(bytes@) == Ok::<Option<(Seq<char>, int)>, FrameError>(None),
            Ok(Some((s, used))) => read_text_frame(bytes@) == Ok::<Option<(Seq<char>, int)>, FrameError>(
                Some((s@, used as int)),
            ),
            Err(e) => read_text_frame(bytes@) == Err::<Option<(Seq<char>, int)>, FrameError>(e),
        },
{
    if bytes.len() == 0 {
        return Ok(None);
    }
    if bytes.len() < 8 {
        return Err(FrameError::Truncated);
    }
    let head: [u8; 8] = [bytes[0], bytes[1], bytes[2], bytes[3], bytes[4], bytes[5], bytes[6], bytes[7]];
    assert(head@ =~= bytes@.subrange(0, 8));
    let size = decode_size(&head);
    if size == 0 {
        return Ok(None);
    }
    if ((bytes.len() - 8) as u64) < size {
        return Err(FrameError::Truncated);
    }
    let end: usize = 8 + size as usize;
    let mut payload: Vec<u8> = Vec::new();
    let mut i: usize = 8;
    while i < end
        invariant
            8 <= i <= end,
            end <= bytes.len(),
            payload@ == bytes@.subrange(8, i as int),
        decreases end - i,
    {
        payload.push(bytes[i]);
        assert(bytes@.subrange(8, i + 1) =~= bytes@.subrange(8, i as int).push(bytes[i as int]));
        i = i + 1;
    }
    match decode_payload(payload.as_slice()) {
        Ok(s) => Ok(Some((s, end))),
        Err(e) => Err(e),
    }
}

/// What a write gives back: the frame of a string, read from the start of any
/// buffer that begins with it, yields the string and the frame's length; the
/// frame of the empty string reads as "no string".
pub proof fn lemma_text_frame_roundtrip(s: Seq<char>, rest: Seq<u8>)
    requires
        encode_utf8(s).len() <= u64::MAX,
    ensures
        s.len() == 0 ==> read_text_frame(frame(encode_utf8(s)) + rest)
            == Ok::<Option<(Seq<char>, int)>, FrameError>(None),
        s.len() > 0 ==> read_text_frame(frame(encode_utf8(s)) + rest)
            == Ok::<Option<(Seq<char>, int)>, FrameError>(Some((s, 8 + encode_utf8(s).len() as int))),
{
    let p = encode_utf8(s);
    let n = p.len() as u64;
    let bytes = frame(p) + rest;
    lemma_le_value_of_bytes(n);
    assert(bytes.subrange(0, 8) =~= le_bytes(n));
    assert(bytes.subrange(8, 8 + n) =~= p);
    lemma_encode_utf8_empty(s);
}

/// A string encodes to no bytes exactly when it is empty.
proof fn lemma_encode_utf8_empty(s: Seq<char>)
    ensures
        encode_utf8(s).len() == 0 <==> s.len() == 0,
{
    if s.len() > 0 {
        let c = s[0] as u32;
        vstd::utf8::char_is_scalar(s[0]);
        assert(encode_scalar(c).len() > 0);
        assert(encode_utf8(s) == encode_scalar(c) + encode_utf8(s.drop_first()));
    }
}

/// The outcome of one read from a connection: a count of bytes (zero when the
/// peer has closed it), or a failure.
#[derive(Debug, Clone, Copy, PartialEq, Eq, Structural)]
pub enum ReadEvent {
    Received(usize),
    Failed,
}

/// The length bytes are little-endian: byte `i` holds the `i`-th base-256
/// digit of the length, least significant first.
pub proof fn lemma_le_bytes_digits(n: u64)
    ensures
        le_bytes(n).len() == 8,
        le_bytes(n)[0] == n % 0x100,
        le_bytes(n)[1] == (n / 0x100) % 0x100,
        le_bytes(n)[2] == (n / 0x1_0000) % 0x100,
        le_bytes(n)[3] == (n / 0x100_0000) % 0x100,
        le_bytes(n)[4] == (n / 0x1_0000_0000) % 0x100,
        le_bytes(n)[5] == (n / 0x100_0000_0000) % 0x100,
        le_bytes(n)[6] == (n / 0x1_0000_0000_0000) % 0x100,
        le_bytes(n)[7] == (n / 0x100_0000_0000_0000) % 0x100,
{
    assert((n & 0xff) as u8 == n % 0x100 && ((n >> 8) & 0xff) as u8 == (n / 0x100) % 0x100
        && ((n >> 16) & 0xff) as u8 == (n / 0x1_0000) % 0x100
        && ((n >> 24) & 0xff) as u8 == (n / 0x100_0000) % 0x100
        && ((n >> 32) & 0xff) as u8 == (n / 0x1_0000_0000) % 0x100
        && ((n >> 40) & 0xff) as u8 == (n / 0x100_0000_0000) % 0x100
        && ((n >> 48) & 0xff) as u8 == (n / 0x1_0000_0000_0000) % 0x100
        && ((n >> 56) & 0xff) as u8 == (n / 0x100_0000_0000_0000) % 0x100) by (bit_vector);
}

/// A frame is exactly its eight length bytes followed by the payload, and
/// nothing else: `8 + |p|` bytes, the first eight carrying `|p|`.
pub proof fn lemma_frame_layout(p: Seq<u8>)
    requires
        p.len() <= u64::MAX,
    ensures
        frame(p).len() == 8 + p.len(),
        frame(p) == le_bytes(p.len() as u64) + p,
        frame(p).take(8) == le_bytes(p.len() as u64),
        frame(p).skip(8) == p,
        le_value(frame(p).take(8)) == p.len(),
{
    let h = le_bytes(p.len() as u64);
    assert((h + p).take(8) =~= h);
    assert((h + p).skip(8) =~= p);
    lemma_le_value_of_bytes(p.len() as u64);
}

/// Reading what a peer sends: eight little-endian length bytes for `n`
/// followed by `n` payload bytes (and whatever comes after) reads as the
/// decoded payload and `8 + n` bytes used when the payload is non-empty
/// UTF-8, as "no string" when `n` is zero, and as `InvalidUtf8` when the
/// payload is not UTF-8; fewer payload bytes than `n`, or a buffer that
/// stops inside the eight length bytes, read as `Truncated`; an empty buffer
/// reads as "no string".
pub proof fn lemma_read_sent_bytes(n: u64, p: Seq<u8>, rest: Seq<u8>)
    ensures
        p.len() == n && n > 0 && valid_utf8(p) ==> read_text_frame(le_bytes(n) + p + rest)
            == Ok::<Option<(Seq<char>, int)>, FrameError>(Some((decode_utf8(p), 8 + n))),
        n == 0 ==> read_text_frame(le_bytes(n) + rest) == Ok::<Option<(Seq<char>, int)>, FrameError>(None),
        p.len() == n && n > 0 && !valid_utf8(p) ==> read_text_frame(le_bytes(n) + p + rest)
            == Err::<Option<(Seq<char>, int)>, FrameError>(FrameError::InvalidUtf8),
        p.len() < n ==> read_text_frame(le_bytes(n) + p) == Err::<Option<(Seq<char>, int)>, FrameError>(
            FrameError::Truncated),
        0 < rest.len() < 8 ==> read_text_frame(rest) == Err::<Option<(Seq<char>, int)>, FrameError>(
            FrameError::Truncated),
        read_text_frame(Seq::<u8>::empty()) == Ok::<Option<(Seq<char>, int)>, FrameError>(None),
{
    lemma_le_value_of_bytes(n);
    let h = le_bytes(n);
    let b = h + p + rest;
    assert(b.subrange(0, 8) =~= h);
    if p.len() == n {
        assert(b.subrange(8, 8 + n) =~= p);
    }
    let c = h + rest;
    assert(c.subrange(0, 8) =~= h);
    let d = h + p;
    assert(d.subrange(0, 8) =~= h);
}

} // verus!
