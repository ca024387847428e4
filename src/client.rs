//! NTS-KE client: the request it sends, how response records fold into the
//! handshake state, and how the final result is assembled.

use vstd::prelude::*;
use crate::records::{
    be16, decode, deserialize, encode, frame, is_frame, lemma_record_round_trip,
    lemma_unknown_criticality, serialize, well_formed, DeserializeError, MAX_BODY_LEN,
    MAX_RECORD_TYPE, PORT, NtsKeRecord, ParseFailure, Party,
    RecordValue, AEAD_AES_SIV_CMAC_256, HEADER_SIZE, NTPV4,
};

verus! {

/// Default NTS-KE port.
pub const DEFAULT_KE_PORT: u16 = 4460;
/// Default NTP port when the server names none.
pub const DEFAULT_NTP_PORT: u16 = 123;
/// AEAD scheme reported when the server names none.
pub const DEFAULT_SCHEME: u16 = 0;
/// Length of each exported key for AEAD_AES_SIV_CMAC_256.
pub const KEY_LENGTH: usize = 32;
/// Direction byte of the exporter context: client to server.
pub const C2S: u8 = 0;
/// Direction byte of the exporter context: server to client.
pub const S2C: u8 = 1;

/// Errors a handshake can end with.
#[derive(Clone, Copy, Debug, PartialEq, Eq, Structural)]
pub enum NtsKeError {
    ResolutionFailure,
    NoIpv4AddrFound,
    NoIpv6AddrFound,
    ConnectFailure,
    TlsFailure,
    IoFailure,
    UnknownCriticalRecord,
    ParseFailure(ParseFailure),
    ServerError(u16),
    ExporterFailure,
}

/// Where and how to run the handshake.
#[derive(Debug)]
pub struct ClientConfig {
    pub host: String,
    pub port: Option<u16>,
    pub use_ipv6: bool,
}

/// The two keys exported from the TLS session.
#[derive(Clone, Debug)]
pub struct NtsKeys {
    pub c2s: Vec<u8>,
    pub s2c: Vec<u8>,
}

/// What the server's records have told the client so far.
#[derive(Debug)]
pub struct ReceivedNtsKeRecordState {
    pub finished: bool,
    pub next_protocols: Vec<u16>,
    pub aead_scheme: Vec<u16>,
    pub cookies: Vec<Vec<u8>>,
    pub next_server: Option<String>,
    pub next_port: Option<u16>,
}

/// The outcome of a successful handshake.
#[derive(Clone, Debug)]
pub struct NtsKeResult {
    pub cookies: Vec<Vec<u8>>,
    pub next_protocols: Vec<u16>,
    pub aead_scheme: u16,
    pub next_server: String,
    pub next_port: u16,
    pub keys: NtsKeys,
    pub use_ipv6: bool,
}

/// The mathematical content of a handshake state.
pub struct StateValue {
    pub finished: bool,
    pub next_protocols: Seq<u16>,
    pub aead_scheme: Seq<u16>,
    pub cookies: Seq<Seq<u8>>,
    pub next_server: Option<Seq<char>>,
    pub next_port: Option<u16>,
}

pub open spec fn cookies_value(c: Seq<Vec<u8>>) -> Seq<Seq<u8>> {
    c.map_values(|v: Vec<u8>| v@)
}

pub open spec fn server_value(s: Option<String>) -> Option<Seq<char>> {
    match s {
        Some(x) => Some(x@),
        None => None,
    }
}

impl View for ReceivedNtsKeRecordState {
    type V = StateValue;

    open spec fn view(&self) -> StateValue {
        StateValue {
            finished: self.finished,
            next_protocols: self.next_protocols@,
            aead_scheme: self.aead_scheme@,
            cookies: cookies_value(self.cookies@),
            next_server: server_value(self.next_server),
            next_port: self.next_port,
        }
    }
}

/// The state before any response record.
pub open spec fn initial_state() -> StateValue {
    StateValue {
        finished: false,
        next_protocols: Seq::empty(),
        aead_scheme: Seq::empty(),
        cookies: Seq::empty(),
        next_server: None,
        next_port: None,
    }
}

/// How one record changes the state, or the error that ends the handshake.
pub open spec fn apply_record(s: StateValue, r: RecordValue) -> Result<StateValue, NtsKeError> {
    match r {
        RecordValue::EndOfMessage => Ok(StateValue { finished: true, ..s }),
        RecordValue::NextProtocol(v) => Ok(StateValue { next_protocols: s.next_protocols + v, ..s }),
        RecordValue::Error(c) => Err(NtsKeError::ServerError(c)),
        RecordValue::Warning(_) => Ok(s),
        RecordValue::AeadAlgorithm(v) => Ok(StateValue { aead_scheme: s.aead_scheme + v, ..s }),
        RecordValue::NewCookie(c) => Ok(StateValue { cookies: s.cookies.push(c), ..s }),
        RecordValue::Server(name) => Ok(StateValue { next_server: Some(name), ..s }),
        RecordValue::Port(p) => Ok(StateValue { next_port: Some(p), ..s }),
    }
}

/// How one received frame changes the state: unknown non-critical records are
/// skipped, every other decoding failure ends the handshake.
pub open spec fn receive(s: StateValue, frame: Seq<u8>) -> Result<StateValue, NtsKeError> {
    match decode(frame) {
        Ok(r) => apply_record(s, r),
        Err(DeserializeError::UnknownNotCriticalRecord) => Ok(s),
        Err(DeserializeError::UnknownCriticalRecord) => Err(NtsKeError::UnknownCriticalRecord),
        Err(DeserializeError::Parsing(p)) => Err(NtsKeError::ParseFailure(p)),
    }
}

/// A fresh handshake state.
pub fn new_state() -> (st: ReceivedNtsKeRecordState)
    ensures
        st@ == initial_state(),
{
    let st = ReceivedNtsKeRecordState {
        finished: false,
        next_protocols: Vec::new(),
        aead_scheme: Vec::new(),
        cookies: Vec::new(),
        next_server: None,
        next_port: None,
    };
    assert(cookies_value(st.cookies@) =~= Seq::empty());
    st
}

/// Folds one record into the state. On an error the state is left as it was.
pub fn process_record(record: NtsKeRecord, state: &mut ReceivedNtsKeRecordState) -> (r: Result<(), NtsKeError>)
    requires
        !old(state).finished,
    ensures
        match apply_record(old(state)@, record@) {
            Ok(s) => r is Ok && final(state)@ == s,
            Err(e) => r == Err::<(), NtsKeError>(e) && final(state)@ == old(state)@,
        },
{
    match record {
        NtsKeRecord::EndOfMessage => {
            state.finished = true;
        },
        NtsKeRecord::NextProtocol(mut v) => {
            state.next_protocols.append(&mut v);
        },
        NtsKeRecord::Error(c) => {
            return Err(NtsKeError::ServerError(c));
        },
        NtsKeRecord::Warning(_) => {},
        NtsKeRecord::AeadAlgorithm(mut v) => {
            state.aead_scheme.append(&mut v);
        },
        NtsKeRecord::NewCookie(c) => {
            state.cookies.push(c);
            assert(cookies_value(state.cookies@) =~= cookies_value(old(state).cookies@).push(c@));
        },
        NtsKeRecord::Server(name) => {
            state.next_server = Some(name);
        },
        NtsKeRecord::Port(p) => {
            state.next_port = Some(p);
        },
    }
    Ok(())
}

/// Body length announced by a record header.
pub fn body_length(header: &[u8]) -> (n: usize)
    requires
        header@.len() == HEADER_SIZE,
    ensures
        n == be16(header@[2], header@[3]),
{
    header[2] as usize * 256 + header[3] as usize
}

/// Decodes one received frame and folds it into the state.
pub fn receive_record(state: &mut ReceivedNtsKeRecordState, frame: &[u8]) -> (r: Result<(), NtsKeError>)
    requires
        !old(state).finished,
        is_frame(frame@),
    ensures
        match receive(old(state)@, frame@) {
            Ok(s) => r is Ok && final(state)@ == s,
            Err(e) => r == Err::<(), NtsKeError>(e) && final(state)@ == old(state)@,
        },
{
    match deserialize(Party::Client, frame) {
        Ok(record) => process_record(record, state),
        Err(DeserializeError::UnknownNotCriticalRecord) => Ok(()),
        Err(DeserializeError::UnknownCriticalRecord) => Err(NtsKeError::UnknownCriticalRecord),
        Err(DeserializeError::Parsing(p)) => Err(NtsKeError::ParseFailure(p)),
    }
}

/// Once a frame has been folded into an unfinished state, the state is
/// finished exactly when that frame was End-of-Message: the handshake stops
/// reading there and at no other record.
pub proof fn lemma_end_of_message_terminal(s: StateValue, frame: Seq<u8>)
    requires
        !s.finished,
    ensures
        receive(s, frame) matches Ok(t) ==> (t.finished <==> decode(frame) == Ok::<RecordValue, DeserializeError>(RecordValue::EndOfMessage)),
{
}

/// The request the client sends: Next-Protocol offering NTPv4, AEAD offering
/// AEAD_AES_SIV_CMAC_256, then End-of-Message.
pub open spec fn request_bytes() -> Seq<u8> {
    encode(RecordValue::NextProtocol(seq![NTPV4])) + encode(
        RecordValue::AeadAlgorithm(seq![AEAD_AES_SIV_CMAC_256]),
    ) + encode(RecordValue::EndOfMessage)
}

/// Builds the client's request records.
pub fn client_request() -> (out: Vec<u8>)
    ensures
        out@ == request_bytes(),
{
    let protocols: Vec<u16> = vec![NTPV4];
    let algorithms: Vec<u16> = vec![AEAD_AES_SIV_CMAC_256];
    assert(protocols@ =~= seq![NTPV4]);
    assert(algorithms@ =~= seq![AEAD_AES_SIV_CMAC_256]);
    let next_protocol = NtsKeRecord::NextProtocol(protocols);
    let aead = NtsKeRecord::AeadAlgorithm(algorithms);
    let end = NtsKeRecord::EndOfMessage;
    assert(next_protocol@ == RecordValue::NextProtocol(seq![NTPV4]));
    assert(aead@ == RecordValue::AeadAlgorithm(seq![AEAD_AES_SIV_CMAC_256]));
    let mut out = serialize(&next_protocol);
    let mut second = serialize(&aead);
    let mut third = serialize(&end);
    out.append(&mut second);
    out.append(&mut third);
    out
}

/// The five-byte exporter context for one direction.
pub fn exporter_context(next_protocol: u16, aead: u16, direction: u8) -> (out: Vec<u8>)
    ensures
        out@ == seq![
            (next_protocol / 256) as u8,
            (next_protocol % 256) as u8,
            (aead / 256) as u8,
            (aead % 256) as u8,
            direction,
        ],
{
    let out = vec![
        (next_protocol / 256) as u8,
        (next_protocol % 256) as u8,
        (aead / 256) as u8,
        (aead % 256) as u8,
        direction,
    ];
    assert(out@ =~= seq![
        (next_protocol / 256) as u8,
        (next_protocol % 256) as u8,
        (aead / 256) as u8,
        (aead % 256) as u8,
        direction,
    ]);
    out
}

/// The NTS-KE port to connect to: the configured one or the default.
pub fn ke_port(config: &ClientConfig) -> (port: u16)
    ensures
        port == match config.port {
            Some(p) => p,
            None => DEFAULT_KE_PORT,
        },
{
    match config.port {
        Some(p) => p,
        None => DEFAULT_KE_PORT,
    }
}

/// Picks the first resolved address of the wanted family, given for each
/// address whether it is IPv6.
pub fn select_address(is_ipv6: &[bool], use_ipv6: bool) -> (r: Result<usize, NtsKeError>)
    ensures
        match r {
            Ok(i) => i < is_ipv6@.len() && is_ipv6@[i as int] == use_ipv6 && forall|j: int|
                0 <= j < i ==> is_ipv6@[j] != use_ipv6,
            Err(e) => e == (if use_ipv6 {
                NtsKeError::NoIpv6AddrFound
            } else {
                NtsKeError::NoIpv4AddrFound
            }) && forall|j: int| 0 <= j < is_ipv6@.len() ==> is_ipv6@[j] != use_ipv6,
        },
{
    let mut i: usize = 0;
    while i < is_ipv6.len()
        invariant
            i <= is_ipv6@.len(),
            forall|j: int| 0 <= j < i ==> is_ipv6@[j] != use_ipv6,
        decreases is_ipv6@.len() - i,
    {
        if is_ipv6[i] == use_ipv6 {
            return Ok(i);
        }
        i = i + 1;
    }
    if use_ipv6 {
        Err(NtsKeError::NoIpv6AddrFound)
    } else {
        Err(NtsKeError::NoIpv4AddrFound)
    }
}

/// The AEAD scheme of a result: the first one the server named, or the default.
pub open spec fn chosen_scheme(s: StateValue) -> u16 {
    if s.aead_scheme.len() == 0 {
        DEFAULT_SCHEME
    } else {
        s.aead_scheme[0]
    }
}

/// The NTP server of a result: the one the server named, or the KE host.
pub open spec fn chosen_server(s: StateValue, host: Seq<char>) -> Seq<char> {
    match s.next_server {
        Some(name) => name,
        None => host,
    }
}

/// The NTP port of a result: the one the server named, or the default.
pub open spec fn chosen_port(s: StateValue) -> u16 {
    match s.next_port {
        Some(p) => p,
        None => DEFAULT_NTP_PORT,
    }
}

/// Assembles the handshake result from the final state, the configured host
/// and address family, and the exported keys.
pub fn assemble_result(state: ReceivedNtsKeRecordState, host: &String, use_ipv6: bool, keys: NtsKeys) -> (res: NtsKeResult)
    ensures
        cookies_value(res.cookies@) == state@.cookies,
        res.next_protocols@ == state@.next_protocols,
        res.aead_scheme == chosen_scheme(state@),
        res.next_server@ == chosen_server(state@, host@),
        res.next_port == chosen_port(state@),
        res.keys == keys,
        res.use_ipv6 == use_ipv6,
{
    let aead_scheme = if state.aead_scheme.len() == 0 {
        DEFAULT_SCHEME
    } else {
        state.aead_scheme[0]
    };
    let next_server = match state.next_server {
        Some(name) => name,
        None => host.clone(),
    };
    let next_port = match state.next_port {
        Some(p) => p,
        None => DEFAULT_NTP_PORT,
    };
    NtsKeResult {
        cookies: state.cookies,
        next_protocols: state.next_protocols,
        aead_scheme,
        next_server,
        next_port,
        keys,
        use_ipv6,
    }
}

/// Defaults fill in what the server left out: with no Port record the port is
/// the NTP default, with no Server record the server is the KE host, and with
/// no AEAD record the scheme is the default one.
pub proof fn lemma_default_fill_in(s: StateValue, host: Seq<char>)
    ensures
        s.next_port is None ==> chosen_port(s) == DEFAULT_NTP_PORT,
        s.next_server is None ==> chosen_server(s, host) == host,
        s.aead_scheme.len() == 0 ==> chosen_scheme(s) == DEFAULT_SCHEME,
{
}

// ---------------------------------------------------------------------------
// A response stream

/// The state after reading frames in order until the state is finished, the
/// frames run out, or one of them ends the handshake.
pub open spec fn receive_frames(s: StateValue, frames: Seq<Seq<u8>>) -> Result<StateValue, NtsKeError>
    decreases frames.len(),
{
    if s.finished || frames.len() == 0 {
        Ok(s)
    } else {
        match receive(s, frames[0]) {
            Ok(t) => receive_frames(t, frames.drop_first()),
            Err(e) => Err(e),
        }
    }
}

/// How many frames that reading takes from the stream.
pub open spec fn frames_read(s: StateValue, frames: Seq<Seq<u8>>) -> nat
    decreases frames.len(),
{
    if s.finished || frames.len() == 0 {
        0
    } else {
        match receive(s, frames[0]) {
            Ok(t) => 1 + frames_read(t, frames.drop_first()),
            Err(_) => 1,
        }
    }
}

/// Records that neither end the handshake nor finish it.
pub open spec fn plain_records(p: Seq<RecordValue>) -> bool {
    forall|i: int|
        0 <= i < p.len() ==> {
            &&& well_formed(#[trigger] p[i])
            &&& !(p[i] is EndOfMessage)
            &&& !(p[i] is Error)
        }
}

pub open spec fn encode_all(p: Seq<RecordValue>) -> Seq<Seq<u8>> {
    p.map_values(|r: RecordValue| encode(r))
}

/// The state after folding records in order.
pub open spec fn fold_records(s: StateValue, p: Seq<RecordValue>) -> StateValue
    decreases p.len(),
{
    if p.len() == 0 {
        s
    } else {
        match apply_record(s, p[0]) {
            Ok(t) => fold_records(t, p.drop_first()),
            Err(_) => s,
        }
    }
}

/// A stream of plain records, End-of-Message and then anything at all is read
/// up to and including End-of-Message and no further: the result is that of
/// folding the records, finished, whatever follows.
pub proof fn lemma_stream_stops_at_end_of_message(s: StateValue, p: Seq<RecordValue>, tail: Seq<Seq<u8>>)
    requires
        !s.finished,
        plain_records(p),
    ensures
        receive_frames(s, encode_all(p) + seq![encode(RecordValue::EndOfMessage)] + tail) == Ok::<
            StateValue,
            NtsKeError,
        >(StateValue { finished: true, ..fold_records(s, p) }),
        frames_read(s, encode_all(p) + seq![encode(RecordValue::EndOfMessage)] + tail) == p.len()
            + 1,
        !fold_records(s, p).finished,
    decreases p.len(),
{
    let eom = encode(RecordValue::EndOfMessage);
    let frames = encode_all(p) + seq![eom] + tail;
    if p.len() == 0 {
        lemma_record_round_trip(RecordValue::EndOfMessage);
        assert(frames[0] == eom);
        let fin = StateValue { finished: true, ..s };
        assert(receive(s, eom) == Ok::<StateValue, NtsKeError>(fin));
        assert(receive_frames(fin, frames.drop_first()) == Ok::<StateValue, NtsKeError>(fin));
        assert(frames_read(fin, frames.drop_first()) == 0);
        assert(fold_records(s, p) == s);
    } else {
        let r = p[0];
        assert(well_formed(r));
        lemma_record_round_trip(r);
        assert(frames[0] == encode(r));
        let t = apply_record(s, r)->Ok_0;
        assert(receive(s, frames[0]) == Ok::<StateValue, NtsKeError>(t));
        let rest = p.drop_first();
        assert(plain_records(rest)) by {
            assert forall|i: int| 0 <= i < rest.len() implies {
                &&& well_formed(#[trigger] rest[i])
                &&& !(rest[i] is EndOfMessage)
                &&& !(rest[i] is Error)
            } by {
                assert(rest[i] == p[i + 1]);
            }
        }
        assert(frames.drop_first() =~= encode_all(rest) + seq![eom] + tail);
        lemma_stream_stops_at_end_of_message(t, rest, tail);
        assert(fold_records(s, p) == fold_records(t, rest));
        assert(receive_frames(s, frames) == receive_frames(t, frames.drop_first()));
        assert(frames_read(s, frames) == 1 + frames_read(t, frames.drop_first()));
    }
}

/// An unknown frame without the critical bit is skipped: the stream reads as
/// if it were not there. One with the critical bit ends the handshake with
/// `UnknownCriticalRecord` after that frame, whatever follows.
pub proof fn lemma_stream_unknown_record(
    s: StateValue,
    critical: bool,
    record_type: int,
    body: Seq<u8>,
    rest: Seq<Seq<u8>>,
)
    requires
        !s.finished,
        PORT < record_type <= MAX_RECORD_TYPE,
        body.len() <= MAX_BODY_LEN,
    ensures
        !critical ==> receive_frames(s, seq![frame(critical, record_type, body)] + rest)
            == receive_frames(s, rest),
        critical ==> receive_frames(s, seq![frame(critical, record_type, body)] + rest) == Err::<
            StateValue,
            NtsKeError,
        >(NtsKeError::UnknownCriticalRecord),
        critical ==> frames_read(s, seq![frame(critical, record_type, body)] + rest) == 1,
{
    lemma_unknown_criticality(critical, record_type, body);
    let frames = seq![frame(critical, record_type, body)] + rest;
    assert(frames.drop_first() =~= rest);
}

/// Folding records without a Port record keeps the port; without a Server
/// record keeps the server; without an AEAD record keeps the schemes.
proof fn lemma_fold_keeps(s: StateValue, p: Seq<RecordValue>)
    requires
        plain_records(p),
    ensures
        (forall|i: int| 0 <= i < p.len() ==> !(#[trigger] p[i] is Port)) ==> fold_records(s, p).next_port
            == s.next_port,
        (forall|i: int| 0 <= i < p.len() ==> !(#[trigger] p[i] is Server)) ==> fold_records(s, p).next_server
            == s.next_server,
        (forall|i: int| 0 <= i < p.len() ==> !(#[trigger] p[i] is AeadAlgorithm)) ==> fold_records(s, p).aead_scheme
            == s.aead_scheme,
    decreases p.len(),
{
    if p.len() > 0 {
        let rest = p.drop_first();
        assert(plain_records(rest)) by {
            assert forall|i: int| 0 <= i < rest.len() implies {
                &&& well_formed(#[trigger] rest[i])
                &&& !(rest[i] is EndOfMessage)
                &&& !(rest[i] is Error)
            } by {
                assert(rest[i] == p[i + 1]);
            }
        }
        assert(!(p[0] is Error));
        let t = apply_record(s, p[0])->Ok_0;
        lemma_fold_keeps(t, rest);
        assert forall|i: int| 0 <= i < rest.len() implies rest[i] == p[i + 1] by {}
    }
}

/// A response of plain records and End-of-Message with no Port record gives
/// the NTP default port, with no Server record the KE host, and with no AEAD
/// record the default scheme.
pub proof fn lemma_stream_defaults(p: Seq<RecordValue>, tail: Seq<Seq<u8>>, host: Seq<char>)
    requires
        plain_records(p),
    ensures
        receive_frames(initial_state(), encode_all(p) + seq![encode(RecordValue::EndOfMessage)] + tail) matches Ok(
            t,
        ) && {
            &&& (forall|i: int| 0 <= i < p.len() ==> !(#[trigger] p[i] is Port)) ==> chosen_port(t)
                == DEFAULT_NTP_PORT
            &&& (forall|i: int| 0 <= i < p.len() ==> !(#[trigger] p[i] is Server)) ==> chosen_server(
                t,
                host,
            ) == host
            &&& (forall|i: int| 0 <= i < p.len() ==> !(#[trigger] p[i] is AeadAlgorithm))
                ==> chosen_scheme(t) == DEFAULT_SCHEME
        },
{
    lemma_stream_stops_at_end_of_message(initial_state(), p, tail);
    lemma_fold_keeps(initial_state(), p);
}

} // verus!
