//! Wire codec for the binary request envelope.
//!
//! All integers are big-endian unsigned 32-bit; strings and byte blobs are
//! length-prefixed with no terminator. An envelope is a version word, an
//! opcode word, and an opcode-specific body. Decoding is strict: truncated
//! input, an unrecognized opcode, invalid UTF-8 in a string field, and an
//! unacceptable key each yield a distinct error, and no partial result is
//! ever returned. Trailing bytes after a fully decoded body are ignored.

use vstd::prelude::*;
use vstd::utf8::decode_utf8;
use vstd::utf8::encode_utf8;
use vstd::utf8::valid_utf8;
use vstd::slice::slice_index_get;
use vstd::slice::slice_subrange;
use vstd::slice::slice_to_vec;
use crate::key::Key;
use crate::key::valid_segments;

verus! {

// ---------------------------------------------------------------------------
// Specification-level parsing
// ---------------------------------------------------------------------------

/// Outcome of parsing one item at a position in a buffer: the parsed value
/// together with the position just past it, or the reason parsing stopped.
pub enum Parsed<T> {
    Found { value: T, next: int },
    Truncated,
    BadUtf8,
    BadOpcode,
    BadKey,
}

/// Carries a failed parse over to another item type.
pub open spec fn failed_as<A, B>(p: Parsed<A>) -> Parsed<B>
    recommends
        !(p matches Parsed::Found { .. }),
{
    match p {
        Parsed::Found { .. } => Parsed::Truncated,
        Parsed::Truncated => Parsed::Truncated,
        Parsed::BadUtf8 => Parsed::BadUtf8,
        Parsed::BadOpcode => Parsed::BadOpcode,
        Parsed::BadKey => Parsed::BadKey,
    }
}

/// The value of four big-endian bytes.
pub open spec fn be_u32(b: Seq<u8>) -> u32
    recommends
        b.len() == 4,
{
    ((b[0] as u32) << 24) | ((b[1] as u32) << 16) | ((b[2] as u32) << 8) | (b[3] as u32)
}

/// The four big-endian bytes of a 32-bit value.
pub open spec fn u32_be_bytes(n: u32) -> Seq<u8> {
    seq![(n >> 24) as u8, ((n >> 16) & 0xff) as u8, ((n >> 8) & 0xff) as u8, (n & 0xff) as u8]
}

/// Reads a big-endian u32 at `pos`.
pub open spec fn parse_u32(b: Seq<u8>, pos: int) -> Parsed<u32> {
    if 0 <= pos && pos + 4 <= b.len() {
        Parsed::Found { value: be_u32(b.subrange(pos, pos + 4)), next: pos + 4 }
    } else {
        Parsed::Truncated
    }
}

/// Reads a length-prefixed byte blob at `pos`.
pub open spec fn parse_block(b: Seq<u8>, pos: int) -> Parsed<Seq<u8>> {
    match parse_u32(b, pos) {
        Parsed::Found { value: n, next: p } => {
            if p + n <= b.len() {
                Parsed::Found { value: b.subrange(p, p + n), next: p + n }
            } else {
                Parsed::Truncated
            }
        },
        other => failed_as(other),
    }
}

/// Reads a length-prefixed UTF-8 string at `pos`.
pub open spec fn parse_string(b: Seq<u8>, pos: int) -> Parsed<Seq<char>> {
    match parse_block(b, pos) {
        Parsed::Found { value: bytes, next: p } => {
            if valid_utf8(bytes) {
                Parsed::Found { value: decode_utf8(bytes), next: p }
            } else {
                Parsed::BadUtf8
            }
        },
        other => failed_as(other),
    }
}

/// Reads `count` consecutive strings at `pos`.
pub open spec fn parse_segments(b: Seq<u8>, pos: int, count: nat) -> Parsed<Seq<Seq<char>>>
    decreases count,
{
    if count == 0 {
        Parsed::Found { value: Seq::empty(), next: pos }
    } else {
        match parse_string(b, pos) {
            Parsed::Found { value: s, next: p } => {
                match parse_segments(b, p, (count - 1) as nat) {
                    Parsed::Found { value: rest, next: p2 } => {
                        Parsed::Found { value: seq![s] + rest, next: p2 }
                    },
                    other => other,
                }
            },
            other => failed_as(other),
        }
    }
}

/// Reads a key at `pos`: a segment count followed by that many strings.
/// Segment sequences that are not acceptable as a key are rejected.
pub open spec fn parse_key(b: Seq<u8>, pos: int) -> Parsed<Seq<Seq<char>>> {
    match parse_u32(b, pos) {
        Parsed::Found { value: count, next: p } => {
            match parse_segments(b, p, count as nat) {
                Parsed::Found { value: segs, next: p2 } => {
                    if valid_segments(segs) {
                        Parsed::Found { value: segs, next: p2 }
                    } else {
                        Parsed::BadKey
                    }
                },
                other => other,
            }
        },
        other => failed_as(other),
    }
}

/// The body of a decoded request.
pub enum SpecRequest {
    Status,
    Load { key: Seq<Seq<char>> },
    LogValue { key: Seq<Seq<char>>, value: Seq<u8> },
    LogSuccess { key: Seq<Seq<char>> },
    LogFail { key: Seq<Seq<char>>, message: Seq<char> },
}

/// A decoded envelope: the version word is carried through unchecked.
pub struct SpecMessage {
    pub version: u32,
    pub request: SpecRequest,
}

/// Reads a whole request envelope from the start of the buffer. Trailing
/// bytes past the body are not inspected.
pub open spec fn parse_request(b: Seq<u8>) -> Parsed<SpecMessage> {
    match parse_u32(b, 0) {
        Parsed::Found { value: version, next: p1 } => {
            match parse_u32(b, p1) {
                Parsed::Found { value: opcode, next: p2 } => {
                    if opcode == 0 {
                        Parsed::Found {
                            value: SpecMessage { version, request: SpecRequest::Status },
                            next: p2,
                        }
                    } else if opcode == 1 {
                        match parse_key(b, p2) {
                            Parsed::Found { value: key, next: p3 } => {
                                Parsed::Found {
                                    value: SpecMessage { version, request: SpecRequest::Load { key } },
                                    next: p3,
                                }
                            },
                            other => failed_as(other),
                        }
                    } else if opcode == 2 {
                        match parse_key(b, p2) {
                            Parsed::Found { value: key, next: p3 } => {
                                match parse_block(b, p3) {
                                    Parsed::Found { value, next: p4 } => {
                                        Parsed::Found {
                                            value: SpecMessage {
                                                version,
                                                request: SpecRequest::LogValue { key, value },
                                            },
                                            next: p4,
                                        }
                                    },
                                    other => failed_as(other),
                                }
                            },
                            other => failed_as(other),
                        }
                    } else if opcode == 3 {
                        match parse_key(b, p2) {
                            Parsed::Found { value: key, next: p3 } => {
                                Parsed::Found {
                                    value: SpecMessage {
                                        version,
                                        request: SpecRequest::LogSuccess { key },
                                    },
                                    next: p3,
                                }
                            },
                            other => failed_as(other),
                        }
                    } else if opcode == 4 {
                        match parse_key(b, p2) {
                            Parsed::Found { value: key, next: p3 } => {
                                match parse_string(b, p3) {
                                    Parsed::Found { value: message, next: p4 } => {
                                        Parsed::Found {
                                            value: SpecMessage {
                                                version,
                                                request: SpecRequest::LogFail { key, message },
                                            },
                                            next: p4,
                                        }
                                    },
                                    other => failed_as(other),
                                }
                            },
                            other => failed_as(other),
                        }
                    } else {
                        Parsed::BadOpcode
                    }
                },
                other => failed_as(other),
            }
        },
        other => failed_as(other),
    }
}

// ---------------------------------------------------------------------------
// Decoded request values
// ---------------------------------------------------------------------------

/// Why a buffer failed to decode. Each condition is reported distinctly.
#[derive(Clone, Copy, Debug, PartialEq, Eq, Structural)]
pub enum DecodeError {
    Truncated,
    InvalidOpcode,
    InvalidUtf8,
    InvalidKey,
}

/// The one decode error an exec result may carry for a given failed parse.
pub open spec fn reflects_err<T>(p: Parsed<T>, e: DecodeError) -> bool {
    match p {
        Parsed::Found { .. } => false,
        Parsed::Truncated => e == DecodeError::Truncated,
        Parsed::BadUtf8 => e == DecodeError::InvalidUtf8,
        Parsed::BadOpcode => e == DecodeError::InvalidOpcode,
        Parsed::BadKey => e == DecodeError::InvalidKey,
    }
}

#[derive(Debug)]
pub struct LoadRequest {
    pub key: Key,
}

#[derive(Debug)]
pub struct LogValueRequest {
    pub key: Key,
    pub value: Vec<u8>,
}

#[derive(Debug)]
pub struct LogSuccessRequest {
    pub key: Key,
}

#[derive(Debug)]
pub struct LogFailRequest {
    pub key: Key,
    pub message: String,
}

#[derive(Debug)]
pub struct StatusRequest {}

#[derive(Debug)]
pub enum RequestType {
    Load(LoadRequest),
    LogValue(LogValueRequest),
    LogSuccess(LogSuccessRequest),
    LogFail(LogFailRequest),
    Status(StatusRequest),
}

#[derive(Debug)]
pub struct RequestMessage {
    pub version: u32,
    pub content: RequestType,
}

impl View for RequestType {
    type V = SpecRequest;

    open spec fn view(&self) -> SpecRequest {
        match self {
            RequestType::Load(r) => SpecRequest::Load { key: r.key@ },
            RequestType::LogValue(r) => SpecRequest::LogValue { key: r.key@, value: r.value@ },
            RequestType::LogSuccess(r) => SpecRequest::LogSuccess { key: r.key@ },
            RequestType::LogFail(r) => SpecRequest::LogFail { key: r.key@, message: r.message@ },
            RequestType::Status(_) => SpecRequest::Status,
        }
    }
}

impl View for RequestMessage {
    type V = SpecMessage;

    open spec fn view(&self) -> SpecMessage {
        SpecMessage { version: self.version, request: self.content@ }
    }
}

// ---------------------------------------------------------------------------
// Executable decoding
// ---------------------------------------------------------------------------

/// Relies on String::from_utf8: it succeeds exactly on valid UTF-8 input,
/// and the bytes of the string it returns are the input bytes.
#[verifier::external_body]
fn bytes_to_string(v: Vec<u8>) -> (r: Option<String>)
    ensures
        r is Some <==> valid_utf8(v@),
        r matches Some(s) ==> encode_utf8(s@) == v@,
{
    match String::from_utf8(v) {
        Ok(s) => Some(s),
        Err(_) => None,
    }
}

/// Reads one big-endian u32.
fn read_u32(buf: &[u8], pos: usize) -> (r: Result<(u32, usize), DecodeError>)
    ensures
        match r {
            Ok((n, p)) => {
                &&& parse_u32(buf@, pos as int) == (Parsed::Found { value: n, next: p as int })
                &&& p == pos + 4
                &&& p <= buf@.len()
            },
            Err(e) => {
                &&& e == DecodeError::Truncated
                &&& parse_u32(buf@, pos as int) == Parsed::<u32>::Truncated
            },
        },
{
    if buf.len() >= 4 && pos <= buf.len() - 4 {
        let b0 = *slice_index_get(buf, pos);
        let b1 = *slice_index_get(buf, pos + 1);
        let b2 = *slice_index_get(buf, pos + 2);
        let b3 = *slice_index_get(buf, pos + 3);
        let n = ((b0 as u32) << 24) | ((b1 as u32) << 16) | ((b2 as u32) << 8) | (b3 as u32);
        proof {
            let s = buf@.subrange(pos as int, pos as int + 4);
            assert(s[0] == b0 && s[1] == b1 && s[2] == b2 && s[3] == b3);
        }
        Ok((n, pos + 4))
    } else {
        Err(DecodeError::Truncated)
    }
}

/// Reads one length-prefixed byte blob.
pub fn decode_bytes(buf: &[u8], pos: usize) -> (r: Result<(Vec<u8>, usize), DecodeError>)
    ensures
        match r {
            Ok((v, p)) => {
                &&& parse_block(buf@, pos as int) == (Parsed::Found { value: v@, next: p as int })
                &&& p <= buf@.len()
            },
            Err(e) => reflects_err(parse_block(buf@, pos as int), e),
        },
{
    let (n, p) = match read_u32(buf, pos) {
        Ok(t) => t,
        Err(e) => {
            return Err(e);
        },
    };
    if (n as usize) <= buf.len() - p {
        let v = slice_to_vec(slice_subrange(buf, p, p + n as usize));
        Ok((v, p + n as usize))
    } else {
        Err(DecodeError::Truncated)
    }
}

/// Reads one length-prefixed UTF-8 string.
pub fn decode_str(buf: &[u8], pos: usize) -> (r: Result<(String, usize), DecodeError>)
    ensures
        match r {
            Ok((s, p)) => {
                &&& parse_string(buf@, pos as int) == (Parsed::Found { value: s@, next: p as int })
                &&& p <= buf@.len()
            },
            Err(e) => reflects_err(parse_string(buf@, pos as int), e),
        },
{
    let (v, p) = match decode_bytes(buf, pos) {
        Ok(t) => t,
        Err(e) => {
            return Err(e);
        },
    };
    let ghost bytes = v@;
    match bytes_to_string(v) {
        Some(s) => {
            proof {
                vstd::utf8::encode_utf8_decode_utf8(s@);
            }
            Ok((s, p))
        },
        None => Err(DecodeError::InvalidUtf8),
    }
}

/// Carries the effect of one parsed segment over the rest of a key parse.
pub open spec fn with_prefix(pre: Seq<Seq<char>>, p: Parsed<Seq<Seq<char>>>) -> Parsed<
    Seq<Seq<char>>,
> {
    match p {
        Parsed::Found { value, next } => Parsed::Found { value: pre + value, next },
        other => other,
    }
}

proof fn lemma_with_prefix_push(pre: Seq<Seq<char>>, s: Seq<char>, p: Parsed<Seq<Seq<char>>>)
    ensures
        with_prefix(pre, with_prefix(seq![s], p)) == with_prefix(pre.push(s), p),
{
    match p {
        Parsed::Found { value, next } => {
            assert(pre + (seq![s] + value) =~= pre.push(s) + value);
        },
        _ => {},
    }
}

/// Reads one key: a segment count, that many strings, and the acceptance
/// check on the resulting segments.
pub fn decode_key(buf: &[u8], pos: usize) -> (r: Result<(Key, usize), DecodeError>)
    ensures
        match r {
            Ok((k, p)) => {
                &&& parse_key(buf@, pos as int) == (Parsed::Found { value: k@, next: p as int })
                &&& k.wf()
                &&& p <= buf@.len()
            },
            Err(e) => reflects_err(parse_key(buf@, pos as int), e),
        },
{
    let (count, start) = match read_u32(buf, pos) {
        Ok(t) => t,
        Err(e) => {
            return Err(e);
        },
    };
    let mut segments: Vec<String> = Vec::new();
    let mut cur = start;
    let mut done: u32 = 0;
    proof {
        assert(segments.deep_view() + Seq::<Seq<char>>::empty() =~= segments.deep_view());
    }
    while done < count
        invariant
            cur <= buf@.len(),
            done <= count,
            parse_u32(buf@, pos as int) == (Parsed::Found { value: count, next: start as int }),
            with_prefix(
                segments.deep_view(),
                parse_segments(buf@, cur as int, (count - done) as nat),
            ) == parse_segments(buf@, start as int, count as nat),
        decreases count - done,
    {
        let ghost old_dv = segments.deep_view();
        match decode_str(buf, cur) {
            Ok((s, p2)) => {
                proof {
                    lemma_with_prefix_push(
                        old_dv,
                        s@,
                        parse_segments(buf@, p2 as int, (count - done - 1) as nat),
                    );
                }
                segments.push(s);
                proof {
                    assert(segments.deep_view() =~= old_dv.push(s@));
                }
                cur = p2;
                done = done + 1;
            },
            Err(e) => {
                proof {
                    let ps = parse_string(buf@, cur as int);
                    let seg_res = parse_segments(buf@, cur as int, (count - done) as nat);
                    assert(seg_res == failed_as::<Seq<char>, Seq<Seq<char>>>(ps));
                    assert(with_prefix(segments.deep_view(), seg_res) == seg_res);
                    assert(parse_key(buf@, pos as int) == seg_res);
                }
                return Err(e);
            },
        }
    }
    proof {
        assert(segments.deep_view() + Seq::<Seq<char>>::empty() =~= segments.deep_view());
    }
    match Key::key_from_segments(segments) {
        Ok(key) => Ok((key, cur)),
        Err(_) => Err(DecodeError::InvalidKey),
    }
}

/// Decodes a whole request buffer into a typed request message. Exactly the
/// buffers accepted by [`parse_request`] decode successfully, and each kind
/// of malformed buffer is reported as its own [`DecodeError`].
pub fn decode_request(request_buffer: &[u8]) -> (r: Result<RequestMessage, DecodeError>)
    ensures
        match r {
            Ok(m) => parse_request(request_buffer@) matches Parsed::Found { value, .. }
                && value == m@,
            Err(e) => reflects_err(parse_request(request_buffer@), e),
        },
{
    let (version, p1) = match read_u32(request_buffer, 0) {
        Ok(t) => t,
        Err(e) => {
            return Err(e);
        },
    };
    let (opcode, p2) = match read_u32(request_buffer, p1) {
        Ok(t) => t,
        Err(e) => {
            return Err(e);
        },
    };
    if opcode == 0 {
        return Ok(RequestMessage { version, content: RequestType::Status(StatusRequest {}) });
    }
    if opcode > 4 {
        return Err(DecodeError::InvalidOpcode);
    }
    let (key, p3) = match decode_key(request_buffer, p2) {
        Ok(t) => t,
        Err(e) => {
            return Err(e);
        },
    };
    if opcode == 1 {
        Ok(RequestMessage { version, content: RequestType::Load(LoadRequest { key }) })
    } else if opcode == 2 {
        match decode_bytes(request_buffer, p3) {
            Ok((value, _)) => Ok(
                RequestMessage {
                    version,
                    content: RequestType::LogValue(LogValueRequest { key, value }),
                },
            ),
            Err(e) => Err(e),
        }
    } else if opcode == 3 {
        Ok(RequestMessage { version, content: RequestType::LogSuccess(LogSuccessRequest { key }) })
    } else {
        match decode_str(request_buffer, p3) {
            Ok((message, _)) => Ok(
                RequestMessage {
                    version,
                    content: RequestType::LogFail(LogFailRequest { key, message }),
                },
            ),
            Err(e) => Err(e),
        }
    }
}

// ---------------------------------------------------------------------------
// Encoding
// ---------------------------------------------------------------------------

/// A length-prefixed byte blob.
pub open spec fn encoded_block(b: Seq<u8>) -> Seq<u8>
    recommends
        b.len() <= u32::MAX,
{
    u32_be_bytes(b.len() as u32) + b
}

/// A length-prefixed UTF-8 string.
pub open spec fn encoded_string(s: Seq<char>) -> Seq<u8> {
    encoded_block(encode_utf8(s))
}

/// The segments of a key, each as a length-prefixed string, in order.
pub open spec fn encoded_segments(segs: Seq<Seq<char>>) -> Seq<u8>
    decreases segs.len(),
{
    if segs.len() == 0 {
        Seq::empty()
    } else {
        encoded_string(segs[0]) + encoded_segments(segs.drop_first())
    }
}

/// A key on the wire: its segment count followed by its segments.
pub open spec fn encoded_key(segs: Seq<Seq<char>>) -> Seq<u8>
    recommends
        segs.len() <= u32::MAX,
{
    u32_be_bytes(segs.len() as u32) + encoded_segments(segs)
}

/// Splitting a 32-bit value into big-endian bytes and reassembling them
/// gives the value back.
pub proof fn lemma_be_round_trip(n: u32)
    ensures
        u32_be_bytes(n).len() == 4,
        be_u32(u32_be_bytes(n)) == n,
{
    assert((((n >> 24) as u8) as u32) << 24 | ((((n >> 16) & 0xff) as u8) as u32) << 16 | ((((n
        >> 8) & 0xff) as u8) as u32) << 8 | (((n & 0xff) as u8) as u32) == n) by (bit_vector);
}

/// Appends the four big-endian bytes of `n`.
fn write_u32(out: &mut Vec<u8>, n: u32)
    ensures
        final(out)@ == old(out)@ + u32_be_bytes(n),
{
    out.push((n >> 24) as u8);
    out.push(((n >> 16) & 0xff) as u8);
    out.push(((n >> 8) & 0xff) as u8);
    out.push((n & 0xff) as u8);
    proof {
        assert(out@ =~= old(out)@ + u32_be_bytes(n));
    }
}

/// Encodes a sequence of key segments in the wire format of a key. The
/// length bounds are forced by the 32-bit length prefixes.
pub fn encode_full_key(full_key: &Vec<String>) -> (r: Vec<u8>)
    requires
        full_key@.len() <= u32::MAX,
        forall|i: int|
            0 <= i < full_key@.len() ==> encode_utf8(#[trigger] full_key@[i]@).len() <= u32::MAX,
    ensures
        r@ == encoded_key(full_key.deep_view()),
{
    let mut buffer: Vec<u8> = Vec::new();
    write_u32(&mut buffer, full_key.len() as u32);
    let n = full_key.len();
    let mut i: usize = 0;
    proof {
        assert(full_key.deep_view().skip(0) =~= full_key.deep_view());
        assert(buffer@ + encoded_segments(full_key.deep_view()) =~= encoded_key(
            full_key.deep_view(),
        ));
    }
    while i < n
        invariant
            n == full_key@.len(),
            i <= n,
            forall|j: int|
                0 <= j < full_key@.len() ==> encode_utf8(#[trigger] full_key@[j]@).len()
                    <= u32::MAX,
            buffer@ + encoded_segments(full_key.deep_view().skip(i as int)) == encoded_key(
                full_key.deep_view(),
            ),
        decreases n - i,
    {
        let ghost dv = full_key.deep_view();
        let ghost before = buffer@;
        let seg: &String = &full_key[i];
        write_u32(&mut buffer, seg.as_str().len() as u32);
        let mut bv = seg.as_str().as_bytes_vec();
        buffer.append(&mut bv);
        proof {
            assert(dv[i as int] == full_key@[i as int]@);
            assert(dv.skip(i as int)[0] == dv[i as int]);
            assert(dv.skip(i as int).drop_first() =~= dv.skip(i + 1));
            assert(buffer@ =~= before + encoded_string(dv[i as int]));
            assert(buffer@ + encoded_segments(dv.skip(i + 1)) =~= before + encoded_segments(
                dv.skip(i as int),
            ));
        }
        i = i + 1;
    }
    proof {
        assert(full_key.deep_view().skip(n as int) =~= Seq::<Seq<char>>::empty());
        assert(buffer@ + Seq::<u8>::empty() =~= buffer@);
    }
    buffer
}

/// Decodes a buffer produced by [`encode_full_key`] back into its segment
/// strings. The buffer must hold a parseable, acceptable key.
pub fn decode_full_key(buffer: &[u8]) -> (r: Vec<String>)
    requires
        parse_key(buffer@, 0) matches Parsed::Found { .. },
    ensures
        parse_key(buffer@, 0) matches Parsed::Found { value, .. } && r.deep_view() == value,
{
    match decode_key(buffer, 0) {
        Ok((key, _)) => key.into_segments(),
        Err(_) => vstd::pervasive::unreached(),
    }
}

// ---------------------------------------------------------------------------
// Laws
// ---------------------------------------------------------------------------

proof fn lemma_subrange_eq_pointwise(b: Seq<u8>, pos: int, e: Seq<u8>)
    requires
        0 <= pos,
        pos + e.len() <= b.len(),
        b.subrange(pos, pos + e.len() as int) == e,
    ensures
        forall|k: int| 0 <= k < e.len() ==> b[pos + k] == #[trigger] e[k],
{
    assert forall|k: int| 0 <= k < e.len() implies b[pos + k] == #[trigger] e[k] by {
        assert(b.subrange(pos, pos + e.len() as int)[k] == b[pos + k]);
    }
}

proof fn lemma_parse_string_of_encoded(b: Seq<u8>, pos: int, s: Seq<char>)
    requires
        0 <= pos,
        pos + encoded_string(s).len() <= b.len(),
        b.subrange(pos, pos + encoded_string(s).len()) == encoded_string(s),
        encode_utf8(s).len() <= u32::MAX,
    ensures
        parse_string(b, pos) == (Parsed::Found { value: s, next: pos + encoded_string(s).len() }),
{
    let eb = encode_utf8(s);
    let len = eb.len() as int;
    let es = encoded_string(s);
    lemma_subrange_eq_pointwise(b, pos, es);
    assert(es == u32_be_bytes(len as u32) + eb);
    assert forall|k: int| 0 <= k < 4 implies #[trigger] b.subrange(pos, pos + 4)[k]
        == u32_be_bytes(len as u32)[k] by {
        assert(b[pos + k] == es[k]);
        assert(es[k] == u32_be_bytes(len as u32)[k]);
    }
    assert(b.subrange(pos, pos + 4) =~= u32_be_bytes(len as u32));
    lemma_be_round_trip(len as u32);
    assert(parse_u32(b, pos) == (Parsed::Found { value: len as u32, next: pos + 4 }));
    assert forall|k: int| 0 <= k < len implies #[trigger] b.subrange(pos + 4, pos + 4 + len)[k]
        == eb[k] by {
        assert(b[pos + 4 + k] == es[4 + k]);
        assert(es[4 + k] == eb[k]);
    }
    assert(b.subrange(pos + 4, pos + 4 + len) =~= eb);
    vstd::utf8::encode_utf8_valid_utf8(s);
    vstd::utf8::encode_utf8_decode_utf8(s);
}

proof fn lemma_parse_segments_of_encoded(b: Seq<u8>, pos: int, segs: Seq<Seq<char>>)
    requires
        0 <= pos,
        pos + encoded_segments(segs).len() <= b.len(),
        b.subrange(pos, pos + encoded_segments(segs).len()) == encoded_segments(segs),
        forall|i: int| 0 <= i < segs.len() ==> encode_utf8(#[trigger] segs[i]).len() <= u32::MAX,
    ensures
        parse_segments(b, pos, segs.len()) == (Parsed::Found {
            value: segs,
            next: pos + encoded_segments(segs).len(),
        }),
    decreases segs.len(),
{
    if segs.len() == 0 {
        assert(segs =~= Seq::<Seq<char>>::empty());
    } else {
        let es0 = encoded_string(segs[0]);
        let rest = encoded_segments(segs.drop_first());
        let enc = encoded_segments(segs);
        lemma_subrange_eq_pointwise(b, pos, enc);
        assert(enc == es0 + rest);
        assert forall|k: int| 0 <= k < es0.len() implies #[trigger] b.subrange(
            pos,
            pos + es0.len() as int,
        )[k] == es0[k] by {
            assert(b[pos + k] == enc[k]);
            assert(enc[k] == es0[k]);
        }
        assert(b.subrange(pos, pos + es0.len() as int) =~= es0);
        lemma_parse_string_of_encoded(b, pos, segs[0]);
        let pos2 = pos + es0.len() as int;
        assert forall|k: int| 0 <= k < rest.len() implies #[trigger] b.subrange(
            pos2,
            pos2 + rest.len() as int,
        )[k] == rest[k] by {
            assert(b[pos + es0.len() + k] == enc[es0.len() + k]);
            assert(enc[es0.len() + k] == rest[k]);
        }
        assert(b.subrange(pos2, pos2 + rest.len() as int) =~= rest);
        assert(forall|i: int|
            0 <= i < segs.drop_first().len() ==> encode_utf8(
                #[trigger] segs.drop_first()[i],
            ).len() <= u32::MAX);
        lemma_parse_segments_of_encoded(b, pos2, segs.drop_first());
        assert(seq![segs[0]] + segs.drop_first() =~= segs);
        assert((segs.len() - 1) as nat == segs.drop_first().len());
    }
}

/// Round trip: for any acceptable key segment sequence whose pieces fit the
/// 32-bit length prefixes, parsing its encoding yields exactly the original
/// segments, consuming the whole encoding.
pub proof fn lemma_key_round_trip(segs: Seq<Seq<char>>)
    requires
        valid_segments(segs),
        segs.len() <= u32::MAX,
        forall|i: int| 0 <= i < segs.len() ==> encode_utf8(#[trigger] segs[i]).len() <= u32::MAX,
    ensures
        parse_key(encoded_key(segs), 0) == (Parsed::Found {
            value: segs,
            next: encoded_key(segs).len() as int,
        }),
{
    let b = encoded_key(segs);
    let enc = encoded_segments(segs);
    let cnt = u32_be_bytes(segs.len() as u32);
    assert(b == cnt + enc);
    assert forall|k: int| 0 <= k < 4 implies #[trigger] b.subrange(0, 4)[k] == cnt[k] by {
        assert(b[k] == cnt[k]);
    }
    assert(b.subrange(0, 4) =~= cnt);
    lemma_be_round_trip(segs.len() as u32);
    assert(parse_u32(b, 0) == (Parsed::Found { value: segs.len() as u32, next: 4 }));
    assert forall|k: int| 0 <= k < enc.len() implies #[trigger] b.subrange(4, 4 + enc.len() as int)[k]
        == enc[k] by {
        assert(b[4 + k] == enc[k]);
    }
    assert(b.subrange(4, 4 + enc.len() as int) =~= enc);
    lemma_parse_segments_of_encoded(b, 4, segs);
}

/// A buffer shorter than the fixed envelope (the version and opcode words)
/// never decodes to a request; it is always reported as truncated.
pub proof fn lemma_short_buffer_truncated(b: Seq<u8>)
    requires
        b.len() < 8,
    ensures
        parse_request(b) == Parsed::<SpecMessage>::Truncated,
{
}

/// A string field whose bytes are not valid UTF-8 stops the parse with the
/// distinct UTF-8 error.
pub proof fn lemma_invalid_utf8_rejected(b: Seq<u8>, pos: int)
    requires
        parse_block(b, pos) matches Parsed::Found { value, .. } && !valid_utf8(value),
    ensures
        parse_string(b, pos) == Parsed::<Seq<char>>::BadUtf8,
{
}

} // verus!
