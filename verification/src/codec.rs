//! The backend's wire format.
//!
//! A `bool` is one byte, `1` for true and `0` for false; any non-zero byte
//! reads back as true. A string is its UTF-8 length as a big-endian `u64`
//! followed by its UTF-8 bytes. A [`Request`] is its `write_intent` flag
//! followed by its `content`.

use vstd::prelude::*;
use vstd::slice::{slice_subrange, slice_to_vec};
use vstd::utf8::*;
use crate::request::Request;
use crate::text::string_from_utf8;

verus! {

broadcast use {encode_utf8_valid_utf8, encode_utf8_decode_utf8, decode_utf8_encode_utf8};

/// Why a frame could not be read.
#[derive(Debug, Clone, Copy, PartialEq, Eq, Structural)]
pub enum DecodeError {
    /// The bytes end before the frame does.
    Truncated,
    /// The text of the frame is not valid UTF-8.
    InvalidUtf8,
}

/// Number of bytes of the length prefix of a string frame.
pub const LEN_PREFIX: usize = 8;

/// The byte that stands for `b`.
pub open spec fn bool_byte(b: bool) -> u8 {
    if b {
        1u8
    } else {
        0u8
    }
}

/// The frame of a `bool`.
pub open spec fn bool_frame(b: bool) -> Seq<u8> {
    seq![bool_byte(b)]
}

/// Reading a `bool` frame from the front of `bytes`: the value and the number
/// of bytes it takes.
pub open spec fn parse_bool(bytes: Seq<u8>) -> Result<(bool, nat), DecodeError> {
    if bytes.len() < 1 {
        Err(DecodeError::Truncated)
    } else {
        Ok((bytes[0] != 0, 1))
    }
}

/// The eight big-endian bytes of `n`, most significant first.
pub open spec fn u64_be_bytes(n: u64) -> Seq<u8> {
    seq![
        ((n >> 56u64) & 0xff) as u8,
        ((n >> 48u64) & 0xff) as u8,
        ((n >> 40u64) & 0xff) as u8,
        ((n >> 32u64) & 0xff) as u8,
        ((n >> 24u64) & 0xff) as u8,
        ((n >> 16u64) & 0xff) as u8,
        ((n >> 8u64) & 0xff) as u8,
        (n & 0xff) as u8,
    ]
}

/// The number whose big-endian bytes are the first eight of `b`.
pub open spec fn u64_from_be(b: Seq<u8>) -> u64
    recommends
        b.len() >= 8,
{
    ((b[0] as u64) << 56u64) | ((b[1] as u64) << 48u64) | ((b[2] as u64) << 40u64) | ((
    b[3] as u64) << 32u64) | ((b[4] as u64) << 24u64) | ((b[5] as u64) << 16u64) | ((
    b[6] as u64) << 8u64) | (b[7] as u64)
}

/// The frame of a string whose characters are `s`.
pub open spec fn string_frame(s: Seq<char>) -> Seq<u8> {
    u64_be_bytes(encode_utf8(s).len() as u64) + encode_utf8(s)
}

/// Whether a string can be framed: its UTF-8 length fits the `u64` prefix.
pub open spec fn frameable(s: Seq<char>) -> bool {
    encode_utf8(s).len() <= u64::MAX
}

/// Reading a string frame from the front of `bytes`: the characters and the
/// number of bytes the frame takes.
pub open spec fn parse_string(bytes: Seq<u8>) -> Result<(Seq<char>, nat), DecodeError> {
    if bytes.len() < LEN_PREFIX {
        Err(DecodeError::Truncated)
    } else {
        let n: u64 = u64_from_be(bytes);
        if bytes.len() < LEN_PREFIX + n {
            Err(DecodeError::Truncated)
        } else {
            let body = bytes.subrange(LEN_PREFIX as int, LEN_PREFIX + n);
            if valid_utf8(body) {
                Ok((decode_utf8(body), (LEN_PREFIX + n) as nat))
            } else {
                Err(DecodeError::InvalidUtf8)
            }
        }
    }
}

/// The frame of a request with the given flag and content.
pub open spec fn request_frame(write_intent: bool, content: Seq<char>) -> Seq<u8> {
    bool_frame(write_intent) + string_frame(content)
}

/// Reading a request frame from the front of `bytes`: the flag, the
/// content, and the number of bytes the frame takes.
pub open spec fn parse_request(bytes: Seq<u8>) -> Result<(bool, Seq<char>, nat), DecodeError> {
    match parse_bool(bytes) {
        Err(e) => Err(e),
        Ok((flag, n)) => match parse_string(bytes.subrange(n as int, bytes.len() as int)) {
            Err(e) => Err(e),
            Ok((content, m)) => Ok((flag, content, n + m)),
        },
    }
}

/// Reading back the big-endian bytes of a number gives the number.
pub proof fn lemma_u64_be_roundtrip(n: u64)
    ensures
        u64_from_be(u64_be_bytes(n)) == n,
{
    let b = u64_be_bytes(n);
    let b0: u8 = b[0];
    let b1: u8 = b[1];
    let b2: u8 = b[2];
    let b3: u8 = b[3];
    let b4: u8 = b[4];
    let b5: u8 = b[5];
    let b6: u8 = b[6];
    let b7: u8 = b[7];
    assert(b0 == ((n >> 56u64) & 0xff) as u8);
    assert(b7 == (n & 0xff) as u8);
    assert(((b0 as u64) << 56u64) | ((b1 as u64) << 48u64) | ((b2 as u64) << 40u64) | ((
    b3 as u64) << 32u64) | ((b4 as u64) << 24u64) | ((b5 as u64) << 16u64) | ((b6 as u64)
        << 8u64) | (b7 as u64) == n) by (bit_vector)
        requires
            b0 == ((n >> 56u64) & 0xff) as u8,
            b1 == ((n >> 48u64) & 0xff) as u8,
            b2 == ((n >> 40u64) & 0xff) as u8,
            b3 == ((n >> 32u64) & 0xff) as u8,
            b4 == ((n >> 24u64) & 0xff) as u8,
            b5 == ((n >> 16u64) & 0xff) as u8,
            b6 == ((n >> 8u64) & 0xff) as u8,
            b7 == (n & 0xff) as u8,
    ;
}

/// Eight bytes are the big-endian bytes of the number they stand for.
pub proof fn lemma_u64_be_canonical(b: Seq<u8>)
    requires
        b.len() == 8,
    ensures
        u64_be_bytes(u64_from_be(b)) == b,
{
    let n: u64 = u64_from_be(b);
    let b0: u8 = b[0];
    let b1: u8 = b[1];
    let b2: u8 = b[2];
    let b3: u8 = b[3];
    let b4: u8 = b[4];
    let b5: u8 = b[5];
    let b6: u8 = b[6];
    let b7: u8 = b[7];
    assert(b0 == ((n >> 56u64) & 0xff) as u8 && b1 == ((n >> 48u64) & 0xff) as u8 && b2 == ((n
        >> 40u64) & 0xff) as u8 && b3 == ((n >> 32u64) & 0xff) as u8 && b4 == ((n >> 24u64)
        & 0xff) as u8 && b5 == ((n >> 16u64) & 0xff) as u8 && b6 == ((n >> 8u64) & 0xff) as u8
        && b7 == (n & 0xff) as u8) by (bit_vector)
        requires
            n == ((b0 as u64) << 56u64) | ((b1 as u64) << 48u64) | ((b2 as u64) << 40u64) | ((
            b3 as u64) << 32u64) | ((b4 as u64) << 24u64) | ((b5 as u64) << 16u64) | ((
            b6 as u64) << 8u64) | (b7 as u64),
    ;
    assert(u64_be_bytes(n) =~= b);
}


/// Appends the frame of `b` to `out`.
pub fn put_bool(out: &mut Vec<u8>, b: bool)
    ensures
        final(out)@ == old(out)@ + bool_frame(b),
{
    let byte: u8 = if b {
        1
    } else {
        0
    };
    out.push(byte);
}

/// Appends the big-endian bytes of `n` to `out`.
pub fn put_u64(out: &mut Vec<u8>, n: u64)
    ensures
        final(out)@ == old(out)@ + u64_be_bytes(n),
        final(out)@.len() == old(out)@.len() + 8,
        forall|k: int|
            0 <= k < 8 ==> #[trigger] final(out)@[old(out)@.len() + k] as int == (n as int
                / pow256((7 - k) as nat) as int) % 256,
{
    proof {
        lemma_u64_be_digits(n);
    }
    out.push(((n >> 56u64) & 0xff) as u8);
    out.push(((n >> 48u64) & 0xff) as u8);
    out.push(((n >> 40u64) & 0xff) as u8);
    out.push(((n >> 32u64) & 0xff) as u8);
    out.push(((n >> 24u64) & 0xff) as u8);
    out.push(((n >> 16u64) & 0xff) as u8);
    out.push(((n >> 8u64) & 0xff) as u8);
    out.push((n & 0xff) as u8);
}

/// Appends the frame of `s` to `out`.
pub fn put_str(out: &mut Vec<u8>, s: &str)
    ensures
        final(out)@ == old(out)@ + string_frame(s@),
{
    let bytes = s.as_bytes();
    put_u64(out, bytes.len() as u64);
    let mut body = slice_to_vec(bytes);
    out.append(&mut body);
}

/// The frame of `b`: one byte, `1` for true and `0` for false.
pub fn encode_bool(b: bool) -> (out: Vec<u8>)
    ensures
        out@ == bool_frame(b),
{
    let mut out = Vec::new();
    put_bool(&mut out, b);
    out
}

/// The frame of `s`: its UTF-8 length as a big-endian `u64`, then its UTF-8
/// bytes.
pub fn encode_string(s: &str) -> (out: Vec<u8>)
    ensures
        out@ == string_frame(s@),
{
    let mut out = Vec::new();
    put_str(&mut out, s);
    out
}

/// The frame of `request`: its flag, then its content.
pub fn encode_request(request: &Request) -> (out: Vec<u8>)
    ensures
        out@ == request_frame(request.write_intent, request.content@),
{
    let mut out = Vec::new();
    put_bool(&mut out, request.write_intent);
    put_str(&mut out, request.content.as_str());
    out
}

/// Reads a `bool` frame from the front of `bytes`.
pub fn decode_bool(bytes: &[u8]) -> (res: Result<(bool, usize), DecodeError>)
    ensures
        match res {
            Ok((b, n)) => parse_bool(bytes@) == Ok::<(bool, nat), DecodeError>((b, n as nat)),
            Err(e) => parse_bool(bytes@) == Err::<(bool, nat), DecodeError>(e),
        },
{
    if bytes.len() < 1 {
        Err(DecodeError::Truncated)
    } else {
        Ok((bytes[0] != 0, 1))
    }
}

/// Reads the length prefix of a string frame: the big-endian number in the
/// first eight bytes of `header`.
pub fn decode_len(header: &[u8]) -> (res: Result<u64, DecodeError>)
    ensures
        match res {
            Ok(n) => header@.len() >= LEN_PREFIX && n == u64_from_be(header@) && n as int
                == header@[0] * pow256(7) + header@[1] * pow256(6) + header@[2] * pow256(5)
                + header@[3] * pow256(4) + header@[4] * pow256(3) + header@[5] * pow256(2)
                + header@[6] * pow256(1) + header@[7],
            Err(e) => header@.len() < LEN_PREFIX && e == DecodeError::Truncated,
        },
{
    if header.len() < LEN_PREFIX {
        return Err(DecodeError::Truncated);
    }
    proof {
        lemma_u64_from_be_digits(header@);
    }
    let n: u64 = ((header[0] as u64) << 56u64) | ((header[1] as u64) << 48u64) | ((
    header[2] as u64) << 40u64) | ((header[3] as u64) << 32u64) | ((header[4] as u64) << 24u64)
        | ((header[5] as u64) << 16u64) | ((header[6] as u64) << 8u64) | (header[7] as u64);
    Ok(n)
}

/// The text that the body of a string frame holds.
pub fn decode_text(body: Vec<u8>) -> (res: Result<String, DecodeError>)
    ensures
        match res {
            Ok(s) => valid_utf8(body@) && s@ == decode_utf8(body@),
            Err(e) => !valid_utf8(body@) && e == DecodeError::InvalidUtf8,
        },
{
    match string_from_utf8(body) {
        Some(s) => Ok(s),
        None => Err(DecodeError::InvalidUtf8),
    }
}

/// Reads a string frame from the front of `bytes`.
pub fn decode_string(bytes: &[u8]) -> (res: Result<(String, usize), DecodeError>)
    ensures
        match res {
            Ok((s, n)) => parse_string(bytes@) == Ok::<(Seq<char>, nat), DecodeError>(
                (s@, n as nat),
            ),
            Err(e) => parse_string(bytes@) == Err::<(Seq<char>, nat), DecodeError>(e),
        },
{
    let n: u64 = match decode_len(bytes) {
        Ok(n) => n,
        Err(e) => return Err(e),
    };
    let rest: usize = bytes.len() - LEN_PREFIX;
    if (rest as u64) < n {
        return Err(DecodeError::Truncated);
    }
    let end: usize = LEN_PREFIX + n as usize;
    let body = slice_to_vec(slice_subrange(bytes, LEN_PREFIX, end));
    match decode_text(body) {
        Ok(s) => Ok((s, end)),
        Err(e) => Err(e),
    }
}

/// Reads a request frame from the front of `bytes`.
pub fn decode_request(bytes: &[u8]) -> (res: Result<(Request, usize), DecodeError>)
    ensures
        match res {
            Ok((r, n)) => parse_request(bytes@) == Ok::<(bool, Seq<char>, nat), DecodeError>(
                (r.write_intent, r.content@, n as nat),
            ),
            Err(e) => parse_request(bytes@) == Err::<(bool, Seq<char>, nat), DecodeError>(e),
        },
{
    let (write_intent, n) = match decode_bool(bytes) {
        Ok(v) => v,
        Err(e) => return Err(e),
    };
    let tail = slice_subrange(bytes, n, bytes.len());
    let (content, m) = match decode_string(tail) {
        Ok(v) => v,
        Err(e) => return Err(e),
    };
    Ok((Request { write_intent, content }, n + m))
}


/// Reading the big-endian number at the front of `b` looks at the first
/// eight bytes only.
proof fn lemma_u64_from_be_prefix(a: Seq<u8>, b: Seq<u8>)
    requires
        a.len() >= 8,
        b.len() >= 8,
        forall|i: int| 0 <= i < 8 ==> a[i] == b[i],
    ensures
        u64_from_be(a) == u64_from_be(b),
{
    assert(a[0] == b[0] && a[1] == b[1] && a[2] == b[2] && a[3] == b[3]);
    assert(a[4] == b[4] && a[5] == b[5] && a[6] == b[6] && a[7] == b[7]);
}

/// A `bool` reads back from its frame, whatever follows it.
pub proof fn lemma_bool_roundtrip(b: bool, rest: Seq<u8>)
    ensures
        parse_bool(bool_frame(b) + rest) == Ok::<(bool, nat), DecodeError>((b, 1)),
{
    assert((bool_frame(b) + rest)[0] == bool_byte(b));
}

/// A `bool` frame whose byte is `0` or `1` is the frame of the value read
/// from it.
pub proof fn lemma_bool_canonical(bytes: Seq<u8>)
    requires
        bytes.len() >= 1 ==> bytes[0] <= 1,
    ensures
        parse_bool(bytes) matches Ok((b, n)) ==> bool_frame(b) == bytes.take(n as int),
{
    if bytes.len() >= 1 {
        assert(bool_frame(bytes[0] != 0) =~= bytes.take(1));
    }
}

/// A string reads back from its frame, whatever follows it, and the whole
/// frame is consumed.
pub proof fn lemma_string_roundtrip(s: Seq<char>, rest: Seq<u8>)
    requires
        frameable(s),
    ensures
        parse_string(string_frame(s) + rest) == Ok::<(Seq<char>, nat), DecodeError>(
            (s, string_frame(s).len()),
        ),
{
    let body = encode_utf8(s);
    let len: u64 = body.len() as u64;
    let bytes = string_frame(s) + rest;
    lemma_u64_be_roundtrip(len);
    lemma_u64_from_be_prefix(bytes, u64_be_bytes(len));
    assert(bytes.subrange(LEN_PREFIX as int, LEN_PREFIX + len) =~= body);
}

/// A string frame that reads as `s` is exactly the frame of `s`: every text
/// has one frame.
pub proof fn lemma_string_canonical(bytes: Seq<u8>)
    ensures
        parse_string(bytes) matches Ok((s, n)) ==> string_frame(s) == bytes.take(n as int),
{
    if let Ok((s, n)) = parse_string(bytes) {
        let len: u64 = u64_from_be(bytes);
        let body = bytes.subrange(LEN_PREFIX as int, LEN_PREFIX + len);
        let head = bytes.take(LEN_PREFIX as int);
        lemma_u64_from_be_prefix(bytes, head);
        lemma_u64_be_canonical(head);
        assert(encode_utf8(s) == body);
        assert(bytes.take(n as int) =~= head + body);
    }
}

/// No proper prefix of a string frame reads as a string: reading a frame
/// that has not fully arrived reports it as truncated.
pub proof fn lemma_string_prefix_truncated(s: Seq<char>, k: int)
    requires
        frameable(s),
        0 <= k < string_frame(s).len(),
    ensures
        parse_string(string_frame(s).take(k)) == Err::<(Seq<char>, nat), DecodeError>(
            DecodeError::Truncated,
        ),
{
    let frame = string_frame(s);
    let len: u64 = encode_utf8(s).len() as u64;
    if k >= LEN_PREFIX {
        lemma_u64_be_roundtrip(len);
        lemma_u64_from_be_prefix(frame.take(k), u64_be_bytes(len));
    }
}

/// A request reads back from its frame, whatever follows it, and the whole
/// frame is consumed.
pub proof fn lemma_request_roundtrip(write_intent: bool, content: Seq<char>, rest: Seq<u8>)
    requires
        frameable(content),
    ensures
        parse_request(request_frame(write_intent, content) + rest) == Ok::<
            (bool, Seq<char>, nat),
            DecodeError,
        >((write_intent, content, request_frame(write_intent, content).len())),
{
    let bytes = request_frame(write_intent, content) + rest;
    lemma_bool_roundtrip(write_intent, string_frame(content) + rest);
    assert(bytes =~= bool_frame(write_intent) + (string_frame(content) + rest));
    assert(bytes.subrange(1, bytes.len() as int) =~= string_frame(content) + rest);
    lemma_string_roundtrip(content, rest);
}

/// A request frame whose flag byte is `0` or `1` is exactly the frame of the
/// request read from it.
pub proof fn lemma_request_canonical(bytes: Seq<u8>)
    requires
        bytes.len() >= 1 ==> bytes[0] <= 1,
    ensures
        parse_request(bytes) matches Ok((w, c, n)) ==> request_frame(w, c) == bytes.take(
            n as int,
        ),
{
    if let Ok((w, c, n)) = parse_request(bytes) {
        lemma_bool_canonical(bytes);
        let tail = bytes.subrange(1, bytes.len() as int);
        lemma_string_canonical(tail);
        let m: int = (n - 1) as int;
        assert(bytes.take(n as int) =~= bytes.take(1) + tail.take(m));
    }
}


/// No proper prefix of a request frame reads as a request: a request that
/// has not fully arrived is reported as truncated.
pub proof fn lemma_request_prefix_truncated(write_intent: bool, content: Seq<char>, k: int)
    requires
        frameable(content),
        0 <= k < request_frame(write_intent, content).len(),
    ensures
        parse_request(request_frame(write_intent, content).take(k)) == Err::<
            (bool, Seq<char>, nat),
            DecodeError,
        >(DecodeError::Truncated),
{
    let frame = request_frame(write_intent, content);
    let part = frame.take(k);
    if k >= 1 {
        assert(part[0] == bool_byte(write_intent));
        let tail = part.subrange(1, part.len() as int);
        assert(tail =~= string_frame(content).take(k - 1));
        lemma_string_prefix_truncated(content, k - 1);
    }
}


/// What a request stream gives when read piece by piece: the flag byte, then
/// the eight bytes of the length, then that many bytes of text.
pub open spec fn read_request_in_pieces(bytes: Seq<u8>) -> Result<(bool, Seq<char>, nat), DecodeError> {
    if bytes.len() < 1 + LEN_PREFIX {
        Err(DecodeError::Truncated)
    } else {
        let n = u64_from_be(bytes.subrange(1, 1 + LEN_PREFIX));
        if bytes.len() < 1 + LEN_PREFIX + n {
            Err(DecodeError::Truncated)
        } else {
            let body = bytes.subrange(1 + LEN_PREFIX, 1 + LEN_PREFIX + n);
            if valid_utf8(body) {
                Ok((bytes[0] != 0, decode_utf8(body), (1 + LEN_PREFIX + n) as nat))
            } else {
                Err(DecodeError::InvalidUtf8)
            }
        }
    }
}

/// Reading a request piece by piece, with `decode_bool`, `decode_len` and
/// `decode_text` as a stream delivers it, reads what `decode_request` reads
/// from the whole frame; so the round-trip laws of requests hold of it too.
pub proof fn lemma_request_in_pieces(bytes: Seq<u8>)
    ensures
        read_request_in_pieces(bytes) == parse_request(bytes),
{
    if bytes.len() >= 1 {
        let tail = bytes.subrange(1, bytes.len() as int);
        if tail.len() >= LEN_PREFIX {
            let header = bytes.subrange(1, 1 + LEN_PREFIX);
            lemma_u64_from_be_prefix(tail, header);
            let n = u64_from_be(tail);
            if tail.len() >= LEN_PREFIX + n {
                assert(tail.subrange(LEN_PREFIX as int, LEN_PREFIX + n) =~= bytes.subrange(
                    1 + LEN_PREFIX,
                    1 + LEN_PREFIX + n,
                ));
            }
        }
    }
}


/// 256 to the power `e`.
pub open spec fn pow256(e: nat) -> nat
    decreases e,
{
    if e == 0 {
        1
    } else {
        256 * pow256((e - 1) as nat)
    }
}

proof fn lemma_pow256_values()
    ensures
        pow256(0) == 1,
        pow256(1) == 0x100,
        pow256(2) == 0x1_0000,
        pow256(3) == 0x100_0000,
        pow256(4) == 0x1_0000_0000,
        pow256(5) == 0x100_0000_0000,
        pow256(6) == 0x1_0000_0000_0000,
        pow256(7) == 0x100_0000_0000_0000,
{
    reveal_with_fuel(pow256, 8);
}

/// The length prefix is the standard big-endian notation of the number:
/// byte `k` is digit `7 - k` of `n` in base 256.
pub proof fn lemma_u64_be_digits(n: u64)
    ensures
        u64_be_bytes(n).len() == 8,
        forall|k: int|
            0 <= k < 8 ==> #[trigger] u64_be_bytes(n)[k] as int == (n as int / pow256(
                (7 - k) as nat,
            ) as int) % 256,
{
    lemma_pow256_values();
    let b = u64_be_bytes(n);
    assert(((n >> 56u64) & 0xff) == (n / 0x100_0000_0000_0000u64) % 256 && ((n >> 56u64) & 0xff) < 256) by (bit_vector);
    assert(b[0] as int == (n as int / pow256(7) as int) % 256);
    assert(((n >> 48u64) & 0xff) == (n / 0x1_0000_0000_0000u64) % 256 && ((n >> 48u64) & 0xff) < 256) by (bit_vector);
    assert(b[1] as int == (n as int / pow256(6) as int) % 256);
    assert(((n >> 40u64) & 0xff) == (n / 0x100_0000_0000u64) % 256 && ((n >> 40u64) & 0xff) < 256) by (bit_vector);
    assert(b[2] as int == (n as int / pow256(5) as int) % 256);
    assert(((n >> 32u64) & 0xff) == (n / 0x1_0000_0000u64) % 256 && ((n >> 32u64) & 0xff) < 256) by (bit_vector);
    assert(b[3] as int == (n as int / pow256(4) as int) % 256);
    assert(((n >> 24u64) & 0xff) == (n / 0x100_0000u64) % 256 && ((n >> 24u64) & 0xff) < 256) by (bit_vector);
    assert(b[4] as int == (n as int / pow256(3) as int) % 256);
    assert(((n >> 16u64) & 0xff) == (n / 0x1_0000u64) % 256 && ((n >> 16u64) & 0xff) < 256) by (bit_vector);
    assert(b[5] as int == (n as int / pow256(2) as int) % 256);
    assert(((n >> 8u64) & 0xff) == (n / 0x100u64) % 256 && ((n >> 8u64) & 0xff) < 256) by (bit_vector);
    assert(b[6] as int == (n as int / pow256(1) as int) % 256);
    assert((n & 0xff) == (n / 1u64) % 256 && (n & 0xff) < 256) by (bit_vector);
    assert(b[7] as int == (n as int / pow256(0) as int) % 256);
    assert forall|k: int| 0 <= k < 8 implies #[trigger] b[k] as int == (n as int / pow256(
        (7 - k) as nat,
    ) as int) % 256 by {
        if k == 0 {
        } else if k == 1 {
        } else if k == 2 {
        } else if k == 3 {
        } else if k == 4 {
        } else if k == 5 {
        } else if k == 6 {
        } else {
        }
    }
}

/// Reading a length prefix gives the number whose base-256 digits, most
/// significant first, are its eight bytes.
pub proof fn lemma_u64_from_be_digits(b: Seq<u8>)
    requires
        b.len() >= 8,
    ensures
        u64_from_be(b) as int == b[0] * pow256(7) + b[1] * pow256(6) + b[2] * pow256(5) + b[3]
            * pow256(4) + b[4] * pow256(3) + b[5] * pow256(2) + b[6] * pow256(1) + b[7],
{
    lemma_pow256_values();
    let b0 = b[0];
    let b1 = b[1];
    let b2 = b[2];
    let b3 = b[3];
    let b4 = b[4];
    let b5 = b[5];
    let b6 = b[6];
    let b7 = b[7];
    assert(((b0 as u64) << 56u64) | ((b1 as u64) << 48u64) | ((b2 as u64) << 40u64) | ((
    b3 as u64) << 32u64) | ((b4 as u64) << 24u64) | ((b5 as u64) << 16u64) | ((b6 as u64)
        << 8u64) | (b7 as u64) == (b0 as u64) * 0x100_0000_0000_0000u64 + (b1 as u64)
        * 0x1_0000_0000_0000u64 + (b2 as u64) * 0x100_0000_0000u64 + (b3 as u64)
        * 0x1_0000_0000u64 + (b4 as u64) * 0x100_0000u64 + (b5 as u64) * 0x1_0000u64 + (
    b6 as u64) * 0x100u64 + (b7 as u64)) by (bit_vector);
}


/// A string frame is the big-endian notation of the text's UTF-8 length in
/// eight bytes, then the UTF-8 bytes of the text.
pub proof fn lemma_string_frame_layout(s: Seq<char>)
    requires
        frameable(s),
    ensures
        string_frame(s).len() == LEN_PREFIX + encode_utf8(s).len(),
        forall|k: int|
            0 <= k < 8 ==> #[trigger] string_frame(s)[k] as int == (encode_utf8(s).len() as int
                / pow256((7 - k) as nat) as int) % 256,
        string_frame(s).skip(LEN_PREFIX as int) == encode_utf8(s),
{
    let len = encode_utf8(s).len() as u64;
    lemma_u64_be_digits(len);
    assert forall|k: int| 0 <= k < 8 implies #[trigger] string_frame(s)[k] as int == (encode_utf8(
        s,
    ).len() as int / pow256((7 - k) as nat) as int) % 256 by {
        assert(string_frame(s)[k] == u64_be_bytes(len)[k]);
    }
    assert(string_frame(s).skip(LEN_PREFIX as int) =~= encode_utf8(s));
}

} // verus!
