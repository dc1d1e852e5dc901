//! Length-prefixed framing of segment requests and responses: an unsigned
//! LEB128 varint holding the payload's length, then the payload.
use vstd::prelude::*;
use vstd::string::StrSliceExecFns;
use vstd::utf8::{decode_utf8, encode_utf8, encode_utf8_decode_utf8, encode_utf8_valid_utf8, valid_utf8};

verus! {

/// Longest request, in bytes, that a reader accepts.
pub const MAX_REQUEST_BYTES: usize = 1_000_000;

/// Longest response, in bytes, that a reader accepts.
pub const MAX_RESPONSE_BYTES: usize = 500_000_000;

/// Why bytes do not hold a frame.
#[derive(Debug, Clone, Copy, PartialEq, Eq)]
pub enum FrameError {
    /// The bytes end before the frame does, or a request is empty.
    UnexpectedEof,
    /// The announced length is over the limit.
    TooLarge,
    /// A request's segment id is not UTF-8.
    InvalidData,
}

/// Unsigned LEB128 encoding of `n`: seven bits per byte, least significant
/// first, the high bit set on every byte but the last.
pub open spec fn varint(n: nat) -> Seq<u8>
    decreases n,
{
    if n < 128 {
        seq![n as u8]
    } else {
        seq![(n % 128 + 128) as u8] + varint(n / 128)
    }
}

/// The varint at the start of `b`: its value and its length in bytes.
pub open spec fn parse_varint(b: Seq<u8>) -> Option<(nat, nat)>
    decreases b.len(),
{
    if b.len() == 0 {
        None
    } else if b[0] < 128 {
        Some((b[0] as nat, 1))
    } else {
        match parse_varint(b.drop_first()) {
            Some((v, k)) => Some(((b[0] - 128) as nat + 128 * v, k + 1)),
            None => None,
        }
    }
}

/// `payload` with its length in front.
pub open spec fn frame(payload: Seq<u8>) -> Seq<u8> {
    varint(payload.len()) + payload
}

/// The payload of the frame at the start of `b`, if its length is at most `max`.
pub open spec fn read_frame_spec(b: Seq<u8>, max: nat) -> Result<Seq<u8>, FrameError> {
    match parse_varint(b) {
        None => Err(FrameError::UnexpectedEof),
        Some((len, k)) => if len > max {
            Err(FrameError::TooLarge)
        } else if k + len > b.len() {
            Err(FrameError::UnexpectedEof)
        } else {
            Ok(b.subrange(k as int, (k + len) as int))
        },
    }
}

/// A varint reads back as the number it encodes, whatever follows it.
pub proof fn lemma_varint_round_trip(n: nat, rest: Seq<u8>)
    ensures
        parse_varint(varint(n) + rest) == Some((n, varint(n).len())),
    decreases n,
{
    let b = varint(n) + rest;
    if n < 128 {
        assert(b[0] == n as u8);
    } else {
        lemma_varint_round_trip(n / 128, rest);
        assert(b.drop_first() =~= varint(n / 128) + rest);
        assert(b[0] == (n % 128 + 128) as u8);
        assert(n == n % 128 + 128 * (n / 128)) by (nonlinear_arith);
    }
}

/// A frame reads back as its payload, whatever follows it, when the payload
/// is within the limit.
pub proof fn lemma_frame_round_trip(payload: Seq<u8>, rest: Seq<u8>, max: nat)
    requires
        payload.len() <= max,
    ensures
        read_frame_spec(frame(payload) + rest, max) == Ok::<Seq<u8>, FrameError>(payload),
{
    let b = frame(payload) + rest;
    let k = varint(payload.len()).len();
    assert(b =~= varint(payload.len()) + (payload + rest));
    lemma_varint_round_trip(payload.len(), payload + rest);
    assert(b.subrange(k as int, (k + payload.len()) as int) =~= payload);
}

/// A varint fits in the bytes it is read from.
proof fn lemma_parse_within(b: Seq<u8>)
    ensures
        parse_varint(b) matches Some((v, k)) ==> 1 <= k <= b.len(),
    decreases b.len(),
{
    if b.len() > 0 {
        lemma_parse_within(b.drop_first());
    }
}

/// Bytes that all carry the continuation bit hold no varint.
proof fn lemma_parse_unterminated(b: Seq<u8>)
    requires
        forall|i: int| 0 <= i < b.len() ==> b[i] >= 128,
    ensures
        parse_varint(b) is None,
    decreases b.len(),
{
    if b.len() > 0 {
        lemma_parse_unterminated(b.drop_first());
    }
}

/// Continuation bytes in front of a varint make it longer and its value no
/// smaller.
proof fn lemma_parse_extends(b: Seq<u8>, i: int, v: nat, k: nat)
    requires
        0 <= i <= b.len(),
        parse_varint(b.subrange(i, b.len() as int)) == Some((v, k)),
        forall|j: int| 0 <= j < i ==> b[j] >= 128,
    ensures
        parse_varint(b) matches Some((w, l)) && w >= v && l == k + i,
    decreases i,
{
    if i == 0 {
        assert(b.subrange(0, b.len() as int) =~= b);
    } else {
        let s = b.subrange(i - 1, b.len() as int);
        assert(s.drop_first() =~= b.subrange(i, b.len() as int));
        assert(s[0] == b[i - 1]);
        let w = (b[i - 1] - 128) as nat + 128 * v;
        assert(parse_varint(s) == Some((w, k + 1)));
        lemma_parse_extends(b, i - 1, w, k + 1);
    }
}

/// The varint `n`, as bytes.
pub fn encode_varint(n: usize) -> (r: Vec<u8>)
    ensures
        r@ == varint(n as nat),
{
    let mut out: Vec<u8> = Vec::new();
    let mut rest = n;
    assert(out@ + varint(rest as nat) =~= varint(n as nat));
    while rest >= 128
        invariant
            out@ + varint(rest as nat) == varint(n as nat),
        decreases rest,
    {
        let byte = (rest % 128 + 128) as u8;
        let ghost before = out@;
        assert(varint(rest as nat) == seq![byte] + varint((rest / 128) as nat));
        out.push(byte);
        rest = rest / 128;
        assert(out@ + varint(rest as nat) =~= before + (seq![byte] + varint(rest as nat)));
    }
    let ghost before = out@;
    out.push(rest as u8);
    assert(out@ =~= before + varint(rest as nat));
    out
}

/// The length that the varint at the start of `b` announces, and the
/// varint's size, if the length is at most `max`.
fn read_length(b: &Vec<u8>, max: usize) -> (r: Result<(usize, usize), FrameError>)
    ensures
        match parse_varint(b@) {
            None => r == Err::<(usize, usize), FrameError>(FrameError::UnexpectedEof),
            Some((v, k)) => if v > max {
                r == Err::<(usize, usize), FrameError>(FrameError::TooLarge)
            } else {
                r == Ok::<(usize, usize), FrameError>((v as usize, k as usize))
            },
        },
{
    let n = b.len();
    let mut t: usize = 0;
    while t < n && b[t] >= 128
        invariant
            n == b@.len(),
            t <= n,
            forall|j: int| 0 <= j < t ==> b@[j] >= 128,
        decreases n - t,
    {
        t += 1;
    }
    if t == n {
        proof {
            lemma_parse_unterminated(b@);
        }
        return Err(FrameError::UnexpectedEof);
    }
    let mut v: u128 = b[t] as u128;
    let mut i: usize = t;
    proof {
        let s = b@.subrange(t as int, n as int);
        assert(s[0] == b@[t as int]);
    }
    if v > max as u128 {
        proof {
            lemma_parse_extends(b@, t as int, v as nat, 1);
        }
        return Err(FrameError::TooLarge);
    }
    while i > 0
        invariant
            n == b@.len(),
            i <= t < n,
            forall|j: int| 0 <= j < t ==> b@[j] >= 128,
            v <= max,
            parse_varint(b@.subrange(i as int, n as int)) == Some((v as nat, (t - i + 1) as nat)),
        decreases i,
    {
        let ghost vi = v;
        let ghost ii = i;
        i -= 1;
        let c = (b[i] - 128) as u128;
        v = c + 128 * v;
        proof {
            let s = b@.subrange(i as int, n as int);
            assert(s.drop_first() =~= b@.subrange(ii as int, n as int));
            assert(s[0] == b@[i as int]);
            assert(parse_varint(s) == Some((v as nat, (t - i + 1) as nat)));
        }
        if v > max as u128 {
            proof {
                lemma_parse_extends(b@, i as int, v as nat, (t - i + 1) as nat);
            }
            return Err(FrameError::TooLarge);
        }
    }
    proof {
        assert(b@.subrange(0, n as int) =~= b@);
    }
    Ok((v as usize, t + 1))
}

/// The payload of the frame at the start of `bytes`, if its length is at
/// most `max`; bytes after the frame are left alone.
pub fn read_frame(bytes: &Vec<u8>, max: usize) -> (r: Result<Vec<u8>, FrameError>)
    ensures
        match read_frame_spec(bytes@, max as nat) {
            Ok(p) => r matches Ok(v) && v@ == p,
            Err(e) => r == Err::<Vec<u8>, FrameError>(e),
        },
{
    proof {
        lemma_parse_within(bytes@);
    }
    let (len, k) = match read_length(bytes, max) {
        Ok(found) => found,
        Err(e) => return Err(e),
    };
    if len > bytes.len() - k {
        return Err(FrameError::UnexpectedEof);
    }
    let end = k + len;
    let mut payload: Vec<u8> = Vec::new();
    let mut i: usize = k;
    while i < end
        invariant
            end == k + len,
            k <= i <= end <= bytes@.len(),
            payload@ == bytes@.subrange(k as int, i as int),
        decreases end - i,
    {
        payload.push(bytes[i]);
        i += 1;
        assert(payload@ =~= bytes@.subrange(k as int, i as int));
    }
    Ok(payload)
}

/// `payload` framed with its length.
pub fn write_frame(payload: &Vec<u8>) -> (r: Vec<u8>)
    ensures
        r@ == frame(payload@),
{
    let mut out = encode_varint(payload.len());
    let ghost prefix = out@;
    let mut i: usize = 0;
    while i < payload.len()
        invariant
            i <= payload@.len(),
            out@ == prefix + payload@.subrange(0, i as int),
        decreases payload@.len() - i,
    {
        out.push(payload[i]);
        i += 1;
        assert(out@ =~= prefix + payload@.subrange(0, i as int));
    }
    assert(payload@.subrange(0, payload@.len() as int) =~= payload@);
    out
}

/// A request for the segment with the given id.
#[derive(Debug, PartialEq, Eq)]
pub struct SegmentRequest(pub String);

/// The data of a segment, or `None` when the peer does not hold it.
pub type SegmentResponse = Option<Vec<u8>>;

/// The segment id that a request's payload carries: refused when empty or
/// not UTF-8.
pub open spec fn request_from(payload: Seq<u8>) -> Result<Seq<char>, FrameError> {
    if payload.len() == 0 {
        Err(FrameError::UnexpectedEof)
    } else if !valid_utf8(payload) {
        Err(FrameError::InvalidData)
    } else {
        Ok(decode_utf8(payload))
    }
}

/// The response that a payload carries: none when empty.
pub open spec fn response_from(payload: Seq<u8>) -> Option<Seq<u8>> {
    if payload.len() == 0 {
        None
    } else {
        Some(payload)
    }
}

/// The payload that carries a response.
pub open spec fn response_payload(response: Option<Seq<u8>>) -> Seq<u8> {
    match response {
        Some(data) => data,
        None => Seq::empty(),
    }
}

/// View of a response.
pub open spec fn response_view(response: SegmentResponse) -> Option<Seq<u8>> {
    match response {
        Some(data) => Some(data@),
        None => None,
    }
}

/// Relies on `String::from_utf8`: the bytes become a string exactly when they
/// are valid UTF-8, and the string's bytes are those bytes.
#[verifier::external_body]
fn string_from_utf8(bytes: Vec<u8>) -> (r: Option<String>)
    ensures
        r is Some == valid_utf8(bytes@),
        r matches Some(s) ==> encode_utf8(s@) == bytes@,
{
    String::from_utf8(bytes).ok()
}

/// Name under which peers speak the segment exchange protocol.
pub const SEGMENT_EXCHANGE_PROTOCOL: &'static str = "/segment-exchange/1";

/// The segment exchange protocol.
pub struct SegmentExchangeProtocol;

impl SegmentExchangeProtocol {
    /// The protocol's name.
    pub fn name(&self) -> (r: &'static str)
        ensures
            r@ == SEGMENT_EXCHANGE_PROTOCOL@,
    {
        SEGMENT_EXCHANGE_PROTOCOL
    }
}

/// Reads and writes framed segment requests and responses.
pub struct SegmentExchangeCodec;

impl SegmentExchangeCodec {
    /// The request framed at the start of `bytes`.
    pub fn read_request(&self, bytes: &Vec<u8>) -> (r: Result<SegmentRequest, FrameError>)
        ensures
            match read_frame_spec(bytes@, MAX_REQUEST_BYTES as nat) {
                Err(e) => r matches Err(f) && f == e,
                Ok(p) => match request_from(p) {
                    Ok(id) => r matches Ok(q) && q.0@ == id,
                    Err(e) => r matches Err(f) && f == e,
                },
            },
    {
        let payload = match read_frame(bytes, MAX_REQUEST_BYTES) {
            Ok(p) => p,
            Err(e) => return Err(e),
        };
        if payload.len() == 0 {
            return Err(FrameError::UnexpectedEof);
        }
        match string_from_utf8(payload) {
            Some(id) => {
                proof {
                    encode_utf8_decode_utf8(id@);
                }
                Ok(SegmentRequest(id))
            },
            None => Err(FrameError::InvalidData),
        }
    }

    /// `request` framed with its length.
    pub fn write_request(&self, request: &SegmentRequest) -> (r: Vec<u8>)
        ensures
            r@ == frame(encode_utf8(request.0@)),
    {
        let bytes = request.0.as_str().as_bytes_vec();
        write_frame(&bytes)
    }

    /// The response framed at the start of `bytes`.
    pub fn read_response(&self, bytes: &Vec<u8>) -> (r: Result<SegmentResponse, FrameError>)
        ensures
            match read_frame_spec(bytes@, MAX_RESPONSE_BYTES as nat) {
                Err(e) => r matches Err(f) && f == e,
                Ok(p) => r matches Ok(q) && response_view(q) == response_from(p),
            },
    {
        let payload = match read_frame(bytes, MAX_RESPONSE_BYTES) {
            Ok(p) => p,
            Err(e) => return Err(e),
        };
        if payload.len() == 0 {
            Ok(None)
        } else {
            Ok(Some(payload))
        }
    }

    /// `response` framed with its length; no data is an empty frame.
    pub fn write_response(&self, response: SegmentResponse) -> (r: Vec<u8>)
        ensures
            r@ == frame(response_payload(response_view(response))),
    {
        let data = match response {
            Some(data) => data,
            None => Vec::new(),
        };
        write_frame(&data)
    }
}

/// A written request reads back as the same segment id, when the id is not
/// empty and within the request limit.
pub proof fn lemma_request_round_trip(id: Seq<char>)
    requires
        id.len() > 0,
        encode_utf8(id).len() <= MAX_REQUEST_BYTES,
    ensures
        read_frame_spec(frame(encode_utf8(id)), MAX_REQUEST_BYTES as nat) matches Ok(p) && request_from(p) == Ok::<
            Seq<char>,
            FrameError,
        >(id),
{
    let payload = encode_utf8(id);
    lemma_frame_round_trip(payload, Seq::empty(), MAX_REQUEST_BYTES as nat);
    assert(frame(payload) + Seq::<u8>::empty() =~= frame(payload));
    encode_utf8_valid_utf8(id);
    encode_utf8_decode_utf8(id);
    assert(payload.len() > 0);
}

/// A written response reads back as the same data, when within the response
/// limit; empty data reads back as no data.
pub proof fn lemma_response_round_trip(response: Option<Seq<u8>>)
    requires
        response_payload(response).len() <= MAX_RESPONSE_BYTES,
    ensures
        read_frame_spec(frame(response_payload(response)), MAX_RESPONSE_BYTES as nat) matches Ok(p)
            && response_from(p) == (match response {
            Some(data) => if data.len() == 0 {
                None
            } else {
                Some(data)
            },
            None => None,
        }),
{
    let payload = response_payload(response);
    lemma_frame_round_trip(payload, Seq::empty(), MAX_RESPONSE_BYTES as nat);
    assert(frame(payload) + Seq::<u8>::empty() =~= frame(payload));
}

} // verus!
