//! NTS-KE record codec: framing, the critical bit, and per-type body parsing.

use vstd::prelude::*;
use vstd::utf8::*;

verus! {

/// Size of a record header: two bytes of critical bit and type, two of body length.
pub const HEADER_SIZE: usize = 4;

pub const END_OF_MESSAGE: u16 = 0;
pub const NEXT_PROTOCOL: u16 = 1;
pub const ERROR: u16 = 2;
pub const WARNING: u16 = 3;
pub const AEAD_ALGORITHM: u16 = 4;
pub const NEW_COOKIE: u16 = 5;
pub const SERVER: u16 = 6;
pub const PORT: u16 = 7;

/// Protocol id of NTPv4 in Next-Protocol records.
pub const NTPV4: u16 = 0;
/// Algorithm id of AEAD_AES_SIV_CMAC_256.
pub const AEAD_AES_SIV_CMAC_256: u16 = 15;

/// Largest record type: the type word keeps its high bit for the critical flag.
pub const MAX_RECORD_TYPE: u16 = 0x7FFF;
/// Largest body that the two-byte length field can describe.
pub const MAX_BODY_LEN: usize = 65535;

/// Which end of the exchange is decoding.
#[derive(Clone, Copy, Debug, PartialEq, Eq, Structural)]
pub enum Party {
    Client,
    Server,
}

/// A record of a type this client understands.
#[derive(Debug)]
pub enum NtsKeRecord {
    EndOfMessage,
    NextProtocol(Vec<u16>),
    Error(u16),
    Warning(u16),
    AeadAlgorithm(Vec<u16>),
    NewCookie(Vec<u8>),
    Server(String),
    Port(u16),
}

/// The mathematical content of a record.
pub enum RecordValue {
    EndOfMessage,
    NextProtocol(Seq<u16>),
    Error(u16),
    Warning(u16),
    AeadAlgorithm(Seq<u16>),
    NewCookie(Seq<u8>),
    Server(Seq<char>),
    Port(u16),
}

impl View for NtsKeRecord {
    type V = RecordValue;

    open spec fn view(&self) -> RecordValue {
        match self {
            NtsKeRecord::EndOfMessage => RecordValue::EndOfMessage,
            NtsKeRecord::NextProtocol(v) => RecordValue::NextProtocol(v@),
            NtsKeRecord::Error(c) => RecordValue::Error(*c),
            NtsKeRecord::Warning(c) => RecordValue::Warning(*c),
            NtsKeRecord::AeadAlgorithm(v) => RecordValue::AeadAlgorithm(v@),
            NtsKeRecord::NewCookie(b) => RecordValue::NewCookie(b@),
            NtsKeRecord::Server(s) => RecordValue::Server(s@),
            NtsKeRecord::Port(p) => RecordValue::Port(*p),
        }
    }
}

/// Why the body of a known record type was rejected.
#[derive(Clone, Copy, Debug, PartialEq, Eq, Structural)]
pub enum ParseFailure {
    EndOfMessageNotEmpty,
    EndOfMessageNotCritical,
    OddLength,
    WrongLength,
    InvalidUtf8,
}

/// Outcome of decoding a frame that is not a known record.
#[derive(Clone, Copy, Debug, PartialEq, Eq, Structural)]
pub enum DeserializeError {
    Parsing(ParseFailure),
    UnknownCriticalRecord,
    UnknownNotCriticalRecord,
}

// ---------------------------------------------------------------------------
// Wire model

pub open spec fn hi(x: int) -> u8 {
    (x / 256) as u8
}

pub open spec fn lo(x: int) -> u8 {
    (x % 256) as u8
}

/// Big-endian value of two bytes.
pub open spec fn be16(a: u8, b: u8) -> int {
    a as int * 256 + b as int
}

/// The type word: critical flag in the high bit, the type below it.
pub open spec fn type_word(critical: bool, record_type: int) -> int {
    (if critical { 0x8000int } else { 0int }) + record_type
}

/// A frame: header followed by the body.
pub open spec fn frame(critical: bool, record_type: int, body: Seq<u8>) -> Seq<u8> {
    let w = type_word(critical, record_type);
    seq![hi(w), lo(w), hi(body.len() as int), lo(body.len() as int)] + body
}

/// Each u16 as two big-endian bytes.
pub open spec fn u16s_bytes(v: Seq<u16>) -> Seq<u8> {
    Seq::new(2 * v.len(), |i: int| if i % 2 == 0 { hi(v[i / 2] as int) } else { lo(v[i / 2] as int) })
}

/// A body read as a list of big-endian u16 values (a trailing odd byte is ignored).
pub open spec fn parse_u16s(b: Seq<u8>) -> Seq<u16> {
    Seq::new(b.len() / 2, |i: int| be16(b[2 * i], b[2 * i + 1]) as u16)
}

pub open spec fn u16_bytes(x: u16) -> Seq<u8> {
    seq![hi(x as int), lo(x as int)]
}

/// Whether the record is sent with its critical bit set.
pub open spec fn critical_of(r: RecordValue) -> bool {
    match r {
        RecordValue::NewCookie(_) | RecordValue::Server(_) | RecordValue::Port(_) => false,
        _ => true,
    }
}

pub open spec fn type_of(r: RecordValue) -> u16 {
    match r {
        RecordValue::EndOfMessage => END_OF_MESSAGE,
        RecordValue::NextProtocol(_) => NEXT_PROTOCOL,
        RecordValue::Error(_) => ERROR,
        RecordValue::Warning(_) => WARNING,
        RecordValue::AeadAlgorithm(_) => AEAD_ALGORITHM,
        RecordValue::NewCookie(_) => NEW_COOKIE,
        RecordValue::Server(_) => SERVER,
        RecordValue::Port(_) => PORT,
    }
}

pub open spec fn body_of(r: RecordValue) -> Seq<u8> {
    match r {
        RecordValue::EndOfMessage => Seq::empty(),
        RecordValue::NextProtocol(v) => u16s_bytes(v),
        RecordValue::Error(c) => u16_bytes(c),
        RecordValue::Warning(c) => u16_bytes(c),
        RecordValue::AeadAlgorithm(v) => u16s_bytes(v),
        RecordValue::NewCookie(b) => b,
        RecordValue::Server(s) => encode_utf8(s),
        RecordValue::Port(p) => u16_bytes(p),
    }
}

/// A record is well formed when its body fits the length field.
pub open spec fn well_formed(r: RecordValue) -> bool {
    body_of(r).len() <= MAX_BODY_LEN
}

/// The bytes of a record on the wire.
pub open spec fn encode(r: RecordValue) -> Seq<u8> {
    frame(critical_of(r), type_of(r) as int, body_of(r))
}

/// Whether a byte string is exactly one frame: a header and the body it announces.
pub open spec fn is_frame(b: Seq<u8>) -> bool {
    b.len() >= HEADER_SIZE && b.len() == HEADER_SIZE + be16(b[2], b[3])
}

pub open spec fn frame_critical(b: Seq<u8>) -> bool {
    be16(b[0], b[1]) >= 0x8000
}

pub open spec fn frame_type(b: Seq<u8>) -> int {
    be16(b[0], b[1]) % 0x8000
}

pub open spec fn frame_body(b: Seq<u8>) -> Seq<u8> {
    b.subrange(HEADER_SIZE as int, b.len() as int)
}

/// Body of an Error, Warning or Port record.
pub open spec fn parse_single_u16(body: Seq<u8>) -> Result<u16, DeserializeError> {
    if body.len() != 2 {
        Err(DeserializeError::Parsing(ParseFailure::WrongLength))
    } else {
        Ok(be16(body[0], body[1]) as u16)
    }
}

/// Body of a Next-Protocol or AEAD record.
pub open spec fn parse_u16_list(body: Seq<u8>) -> Result<Seq<u16>, DeserializeError> {
    if body.len() % 2 != 0 {
        Err(DeserializeError::Parsing(ParseFailure::OddLength))
    } else {
        Ok(parse_u16s(body))
    }
}

/// What a record of the given criticality, type and body decodes to.
pub open spec fn decode_body(critical: bool, t: int, body: Seq<u8>) -> Result<RecordValue, DeserializeError> {
    if t == END_OF_MESSAGE {
        if body.len() != 0 {
            Err(DeserializeError::Parsing(ParseFailure::EndOfMessageNotEmpty))
        } else if !critical {
            Err(DeserializeError::Parsing(ParseFailure::EndOfMessageNotCritical))
        } else {
            Ok(RecordValue::EndOfMessage)
        }
    } else if t == NEXT_PROTOCOL {
        match parse_u16_list(body) {
            Ok(v) => Ok(RecordValue::NextProtocol(v)),
            Err(e) => Err(e),
        }
    } else if t == ERROR {
        match parse_single_u16(body) {
            Ok(c) => Ok(RecordValue::Error(c)),
            Err(e) => Err(e),
        }
    } else if t == WARNING {
        match parse_single_u16(body) {
            Ok(c) => Ok(RecordValue::Warning(c)),
            Err(e) => Err(e),
        }
    } else if t == AEAD_ALGORITHM {
        match parse_u16_list(body) {
            Ok(v) => Ok(RecordValue::AeadAlgorithm(v)),
            Err(e) => Err(e),
        }
    } else if t == NEW_COOKIE {
        Ok(RecordValue::NewCookie(body))
    } else if t == SERVER {
        if valid_utf8(body) {
            Ok(RecordValue::Server(decode_utf8(body)))
        } else {
            Err(DeserializeError::Parsing(ParseFailure::InvalidUtf8))
        }
    } else if t == PORT {
        match parse_single_u16(body) {
            Ok(p) => Ok(RecordValue::Port(p)),
            Err(e) => Err(e),
        }
    } else if critical {
        Err(DeserializeError::UnknownCriticalRecord)
    } else {
        Err(DeserializeError::UnknownNotCriticalRecord)
    }
}

/// What a frame decodes to.
pub open spec fn decode(b: Seq<u8>) -> Result<RecordValue, DeserializeError> {
    decode_body(frame_critical(b), frame_type(b), frame_body(b))
}

pub open spec fn result_value(r: Result<NtsKeRecord, DeserializeError>) -> Result<RecordValue, DeserializeError> {
    match r {
        Ok(rec) => Ok(rec@),
        Err(e) => Err(e),
    }
}

// ---------------------------------------------------------------------------
// Serialization

/// Appends `x` as two big-endian bytes.
fn push_u16(out: &mut Vec<u8>, x: u16)
    ensures
        final(out)@ == old(out)@ + u16_bytes(x),
{
    out.push((x / 256) as u8);
    out.push((x % 256) as u8);
    assert(final(out)@ =~= old(out)@ + u16_bytes(x));
}

/// Encodes a raw frame: the critical flag, a 15-bit type and a body.
pub fn serialize_frame(critical: bool, record_type: u16, body: &[u8]) -> (out: Vec<u8>)
    requires
        record_type <= MAX_RECORD_TYPE,
        body@.len() <= MAX_BODY_LEN,
    ensures
        out@ == frame(critical, record_type as int, body@),
{
    let word: u16 = if critical { 0x8000u16 + record_type } else { record_type };
    let mut out: Vec<u8> = Vec::new();
    push_u16(&mut out, word);
    push_u16(&mut out, body.len() as u16);
    let mut i: usize = 0;
    while i < body.len()
        invariant
            i <= body@.len(),
            out@ == seq![hi(word as int), lo(word as int), hi(body@.len() as int), lo(body@.len() as int)]
                + body@.subrange(0, i as int),
        decreases body@.len() - i,
    {
        out.push(body[i]);
        i = i + 1;
        assert(body@.subrange(0, i as int) =~= body@.subrange(0, i - 1) + seq![body@[i - 1]]);
    }
    assert(body@.subrange(0, body@.len() as int) =~= body@);
    out
}

/// Encodes a list of u16 values as consecutive big-endian pairs.
fn u16s_to_bytes(v: &Vec<u16>) -> (out: Vec<u8>)
    requires
        v@.len() <= MAX_BODY_LEN,
    ensures
        out@ == u16s_bytes(v@),
{
    let mut out: Vec<u8> = Vec::new();
    let mut i: usize = 0;
    while i < v.len()
        invariant
            i <= v@.len(),
            v@.len() <= MAX_BODY_LEN,
            out@ =~= u16s_bytes(v@.subrange(0, i as int)),
        decreases v@.len() - i,
    {
        let ghost prev = out@;
        push_u16(&mut out, v[i]);
        i = i + 1;
        assert(out@ =~= u16s_bytes(v@.subrange(0, i as int))) by {
            let s = v@.subrange(0, i as int);
            assert forall|j: int| 0 <= j < out@.len() implies out@[j] == u16s_bytes(s)[j] by {
                if j < prev.len() {
                    assert(u16s_bytes(v@.subrange(0, i - 1))[j] == u16s_bytes(s)[j]);
                }
            }
        }
    }
    assert(v@.subrange(0, v@.len() as int) =~= v@);
    out
}

/// Encodes a record: its header, with the critical bit each type is sent with, and its body.
pub fn serialize(record: &NtsKeRecord) -> (out: Vec<u8>)
    requires
        well_formed(record@),
    ensures
        out@ == encode(record@),
{
    match record {
        NtsKeRecord::EndOfMessage => {
            let body: Vec<u8> = Vec::new();
            serialize_frame(true, END_OF_MESSAGE, body.as_slice())
        },
        NtsKeRecord::NextProtocol(v) => {
            let body = u16s_to_bytes(v);
            serialize_frame(true, NEXT_PROTOCOL, body.as_slice())
        },
        NtsKeRecord::Error(c) => {
            let mut body: Vec<u8> = Vec::new();
            push_u16(&mut body, *c);
            assert(body@ =~= u16_bytes(*c));
            serialize_frame(true, ERROR, body.as_slice())
        },
        NtsKeRecord::Warning(c) => {
            let mut body: Vec<u8> = Vec::new();
            push_u16(&mut body, *c);
            assert(body@ =~= u16_bytes(*c));
            serialize_frame(true, WARNING, body.as_slice())
        },
        NtsKeRecord::AeadAlgorithm(v) => {
            let body = u16s_to_bytes(v);
            serialize_frame(true, AEAD_ALGORITHM, body.as_slice())
        },
        NtsKeRecord::NewCookie(b) => serialize_frame(false, NEW_COOKIE, b.as_slice()),
        NtsKeRecord::Server(s) => serialize_frame(false, SERVER, s.as_str().as_bytes()),
        NtsKeRecord::Port(p) => {
            let mut body: Vec<u8> = Vec::new();
            push_u16(&mut body, *p);
            assert(body@ =~= u16_bytes(*p));
            serialize_frame(false, PORT, body.as_slice())
        },
    }
}

// ---------------------------------------------------------------------------
// Deserialization

/// Relies on `String::from_utf8`: it accepts exactly the well-formed UTF-8 byte
/// strings and yields the characters they encode.
#[verifier::external_body]
fn string_from_utf8(bytes: Vec<u8>) -> (r: Option<String>)
    ensures
        r is Some <==> valid_utf8(bytes@),
        r matches Some(s) ==> s@ == decode_utf8(bytes@),
{
    String::from_utf8(bytes).ok()
}

/// Reads `body[start..]` as a list of big-endian u16 values.
fn parse_u16_vec(bytes: &[u8], start: usize) -> (r: Result<Vec<u16>, DeserializeError>)
    requires
        start <= bytes@.len(),
    ensures
        match (r, parse_u16_list(bytes@.subrange(start as int, bytes@.len() as int))) {
            (Ok(v), Ok(w)) => v@ == w,
            (Err(e), Err(f)) => e == f,
            _ => false,
        },
{
    let ghost body = bytes@.subrange(start as int, bytes@.len() as int);
    let n = bytes.len();
    let len = n - start;
    if len % 2 != 0 {
        return Err(DeserializeError::Parsing(ParseFailure::OddLength));
    }
    let mut out: Vec<u16> = Vec::new();
    let mut i: usize = 0;
    while i < len / 2
        invariant
            start <= bytes@.len(),
            n == bytes@.len(),
            len == n - start,
            body == bytes@.subrange(start as int, bytes@.len() as int),
            i <= len / 2,
            out@ =~= parse_u16s(body).subrange(0, i as int),
        decreases len / 2 - i,
    {
        assert(2 * i + 1 < len);
        let a = bytes[start + 2 * i];
        let b = bytes[start + 2 * i + 1];
        out.push(a as u16 * 256 + b as u16);
        i = i + 1;
    }
    assert(out@ =~= parse_u16s(body));
    Ok(out)
}

/// Reads the two-byte body at `bytes[start..]`.
fn parse_u16_single(bytes: &[u8], start: usize) -> (r: Result<u16, DeserializeError>)
    requires
        start <= bytes@.len(),
    ensures
        r == parse_single_u16(bytes@.subrange(start as int, bytes@.len() as int)),
{
    if bytes.len() - start != 2 {
        Err(DeserializeError::Parsing(ParseFailure::WrongLength))
    } else {
        Ok(bytes[start] as u16 * 256 + bytes[start + 1] as u16)
    }
}

/// Decodes one frame. Known types yield a record or a parse failure; an
/// unknown type is reported as critical or not, following its critical bit.
/// The party is carried for a server-side decoder and does not change the result.
pub fn deserialize(_party: Party, bytes: &[u8]) -> (r: Result<NtsKeRecord, DeserializeError>)
    requires
        is_frame(bytes@),
    ensures
        result_value(r) == decode(bytes@),
{
    let word: u16 = bytes[0] as u16 * 256 + bytes[1] as u16;
    let critical = word >= 0x8000;
    let record_type: u16 = word % 0x8000;
    let body_len: usize = bytes.len() - HEADER_SIZE;
    let ghost body = frame_body(bytes@);
    assert(critical == frame_critical(bytes@));
    assert(record_type == frame_type(bytes@));
    if record_type == END_OF_MESSAGE {
        if body_len != 0 {
            Err(DeserializeError::Parsing(ParseFailure::EndOfMessageNotEmpty))
        } else if !critical {
            Err(DeserializeError::Parsing(ParseFailure::EndOfMessageNotCritical))
        } else {
            Ok(NtsKeRecord::EndOfMessage)
        }
    } else if record_type == NEXT_PROTOCOL {
        match parse_u16_vec(bytes, HEADER_SIZE) {
            Ok(v) => Ok(NtsKeRecord::NextProtocol(v)),
            Err(e) => Err(e),
        }
    } else if record_type == ERROR {
        match parse_u16_single(bytes, HEADER_SIZE) {
            Ok(c) => Ok(NtsKeRecord::Error(c)),
            Err(e) => Err(e),
        }
    } else if record_type == WARNING {
        match parse_u16_single(bytes, HEADER_SIZE) {
            Ok(c) => Ok(NtsKeRecord::Warning(c)),
            Err(e) => Err(e),
        }
    } else if record_type == AEAD_ALGORITHM {
        match parse_u16_vec(bytes, HEADER_SIZE) {
            Ok(v) => Ok(NtsKeRecord::AeadAlgorithm(v)),
            Err(e) => Err(e),
        }
    } else if record_type == NEW_COOKIE {
        let v = vstd::slice::slice_to_vec(vstd::slice::slice_subrange(bytes, HEADER_SIZE, bytes.len()));
        Ok(NtsKeRecord::NewCookie(v))
    } else if record_type == SERVER {
        let v = vstd::slice::slice_to_vec(vstd::slice::slice_subrange(bytes, HEADER_SIZE, bytes.len()));
        match string_from_utf8(v) {
            Some(s) => Ok(NtsKeRecord::Server(s)),
            None => Err(DeserializeError::Parsing(ParseFailure::InvalidUtf8)),
        }
    } else if record_type == PORT {
        match parse_u16_single(bytes, HEADER_SIZE) {
            Ok(p) => Ok(NtsKeRecord::Port(p)),
            Err(e) => Err(e),
        }
    } else if critical {
        Err(DeserializeError::UnknownCriticalRecord)
    } else {
        Err(DeserializeError::UnknownNotCriticalRecord)
    }
}

// ---------------------------------------------------------------------------
// Laws of the codec

proof fn lemma_hi_lo(x: int)
    requires
        0 <= x <= 0xFFFF,
    ensures
        be16(hi(x), lo(x)) == x,
{
}

/// A frame keeps the critical bit, the type and the body it was built from,
/// and its length field announces exactly that body.
pub proof fn lemma_frame_fields(critical: bool, record_type: int, body: Seq<u8>)
    requires
        0 <= record_type <= MAX_RECORD_TYPE,
        body.len() <= MAX_BODY_LEN,
    ensures
        is_frame(frame(critical, record_type, body)),
        frame_critical(frame(critical, record_type, body)) == critical,
        frame_type(frame(critical, record_type, body)) == record_type,
        be16(frame(critical, record_type, body)[2], frame(critical, record_type, body)[3]) == body.len(),
        frame_body(frame(critical, record_type, body)) == body,
{
    let f = frame(critical, record_type, body);
    let w = type_word(critical, record_type);
    lemma_hi_lo(w);
    lemma_hi_lo(body.len() as int);
    assert(frame_body(f) =~= body);
}

proof fn lemma_u16s_round_trip(v: Seq<u16>)
    ensures
        parse_u16s(u16s_bytes(v)) == v,
        u16s_bytes(v).len() % 2 == 0,
{
    let b = u16s_bytes(v);
    assert forall|i: int| 0 <= i < v.len() implies #[trigger] parse_u16s(b)[i] == v[i] by {
        assert((2 * i) / 2 == i && (2 * i) % 2 == 0);
        assert((2 * i + 1) / 2 == i && (2 * i + 1) % 2 == 1);
        lemma_hi_lo(v[i] as int);
    }
    assert(parse_u16s(b) =~= v);
}

/// Decoding the encoding of a well-formed record gives the record back.
pub proof fn lemma_record_round_trip(r: RecordValue)
    requires
        well_formed(r),
    ensures
        decode(encode(r)) == Ok::<RecordValue, DeserializeError>(r),
{
    lemma_frame_fields(critical_of(r), type_of(r) as int, body_of(r));
    match r {
        RecordValue::NextProtocol(v) => lemma_u16s_round_trip(v),
        RecordValue::AeadAlgorithm(v) => lemma_u16s_round_trip(v),
        RecordValue::Error(c) => lemma_hi_lo(c as int),
        RecordValue::Warning(c) => lemma_hi_lo(c as int),
        RecordValue::Port(p) => lemma_hi_lo(p as int),
        RecordValue::Server(s) => {
            encode_utf8_valid_utf8(s);
            encode_utf8_decode_utf8(s);
        },
        _ => {},
    }
}

/// A frame of a type this client does not know is reported as critical
/// exactly when its critical bit is set.
pub proof fn lemma_unknown_criticality(critical: bool, record_type: int, body: Seq<u8>)
    requires
        PORT < record_type <= MAX_RECORD_TYPE,
        body.len() <= MAX_BODY_LEN,
    ensures
        decode(frame(critical, record_type, body)) == if critical {
            Err::<RecordValue, DeserializeError>(DeserializeError::UnknownCriticalRecord)
        } else {
            Err::<RecordValue, DeserializeError>(DeserializeError::UnknownNotCriticalRecord)
        },
{
    lemma_frame_fields(critical, record_type, body);
}

} // verus!
