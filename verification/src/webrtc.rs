//! WebRTC: the options of direct peer connections, and the signalling decisions.
//!
//! The connections themselves (peer connections, data channels) are made by the
//! program around the library; the library decides what a signalling message asks
//! for, when a new connection may be made, and what signalling messages say.
use vstd::prelude::*;
use crate::json::{Json, spec_field, spec_str};
use crate::strmap::{StrMap, str_eq};
use crate::error::{GunError, GunResult};
use crate::text::push_char;

verus! {

/// How an ICE server's credential is to be used.
#[derive(Clone, Copy, Debug, PartialEq, Eq, Structural)]
pub enum IceCredentialType {
    Unspecified,
    Password,
    Oauth,
}

/// An ICE server (STUN or TURN) for NAT traversal.
#[derive(Clone, Debug)]
pub struct IceServer {
    pub urls: Vec<String>,
    pub username: String,
    pub credential: String,
    pub credential_type: IceCredentialType,
}

/// How a data channel delivers messages.
#[derive(Clone, Debug)]
pub struct DataChannelInit {
    /// Whether messages arrive in order.
    pub ordered: Option<bool>,
    /// How long, in milliseconds, a message may be retransmitted.
    pub max_packet_life_time: Option<u16>,
    /// How many times a message may be retransmitted.
    pub max_retransmits: Option<u16>,
    /// The subprotocol.
    pub protocol: Option<String>,
    /// The channel's ID when it was negotiated out of band.
    pub negotiated: Option<u16>,
}

/// Options of WebRTC connections: ICE servers, the data channel, and limits.
#[derive(Clone, Debug)]
pub struct WebRTCOptions {
    /// ICE servers for NAT traversal (STUN/TURN).
    pub ice_servers: Vec<IceServer>,
    /// Data channel configuration.
    pub data_channel: DataChannelInit,
    /// Maximum number of WebRTC connections.
    pub max_connections: usize,
    /// Room name for peer discovery.
    pub room: Option<String>,
    /// Whether WebRTC is enabled.
    pub enabled: bool,
}

/// The first default STUN server.
pub open spec fn google_stun() -> Seq<char> {
    seq!['s', 't', 'u', 'n', ':', 's', 't', 'u', 'n', '.', 'l', '.', 'g', 'o', 'o', 'g', 'l', 'e', '.', 'c', 'o', 'm',
        ':', '1', '9', '3', '0', '2']
}

/// The second default STUN server.
pub open spec fn cloudflare_stun() -> Seq<char> {
    seq!['s', 't', 'u', 'n', ':', 's', 't', 'u', 'n', '.', 'c', 'l', 'o', 'u', 'd', 'f', 'l', 'a', 'r', 'e', '.', 'c',
        'o', 'm', ':', '3', '4', '7', '8']
}

/// A STUN server with the given URL and no credentials.
fn stun_server(url: &str) -> (s: IceServer)
    ensures
        s.urls@.len() == 1,
        s.urls@[0]@ == url@,
        s.username@.len() == 0,
        s.credential@.len() == 0,
        s.credential_type == IceCredentialType::Password,
{
    let mut urls: Vec<String> = Vec::new();
    urls.push(url.to_owned());
    IceServer { urls, username: String::new(), credential: String::new(), credential_type: IceCredentialType::Password }
}

/// The default WebRTC options: two public STUN servers without credentials, an unordered
/// data channel with at most two retransmits, at most 55 connections, no room, enabled.
pub open spec fn default_webrtc(o: WebRTCOptions) -> bool {
    &&& o.ice_servers@.len() == 2
    &&& o.ice_servers@[0].urls@.len() == 1 && o.ice_servers@[0].urls@[0]@ == google_stun()
    &&& o.ice_servers@[1].urls@.len() == 1 && o.ice_servers@[1].urls@[0]@ == cloudflare_stun()
    &&& forall|i: int| 0 <= i < 2 ==> (#[trigger] o.ice_servers@[i]).username@.len() == 0
        && o.ice_servers@[i].credential@.len() == 0
        && o.ice_servers@[i].credential_type == IceCredentialType::Password
    &&& o.data_channel.ordered == Some(false)
    &&& o.data_channel.max_retransmits == Some(2u16)
    &&& o.data_channel.max_packet_life_time is None
    &&& o.data_channel.protocol is None
    &&& o.data_channel.negotiated is None
    &&& o.max_connections == 55
    &&& o.room is None
    &&& o.enabled
}

impl Default for WebRTCOptions {
    /// Two public STUN servers, an unordered data channel with at most two retransmits,
    /// at most 55 connections, no room, enabled.
    fn default() -> (o: WebRTCOptions)
        ensures
            default_webrtc(o),
    {
        proof {
            reveal_strlit("stun:stun.l.google.com:19302");
            reveal_strlit("stun:stun.cloudflare.com:3478");
            assert("stun:stun.l.google.com:19302"@ =~= google_stun());
            assert("stun:stun.cloudflare.com:3478"@ =~= cloudflare_stun());
        }
        let mut ice_servers: Vec<IceServer> = Vec::new();
        ice_servers.push(stun_server("stun:stun.l.google.com:19302"));
        ice_servers.push(stun_server("stun:stun.cloudflare.com:3478"));
        let data_channel = DataChannelInit {
            ordered: Some(false),
            max_packet_life_time: None,
            max_retransmits: Some(2),
            protocol: None,
            negotiated: None,
        };
        WebRTCOptions { ice_servers, data_channel, max_connections: 55, room: None, enabled: true }
    }
}

/// A signalling message: `{"ok": {"rtc": ...}}`.
#[derive(Debug)]
pub struct RTCMessage {
    pub ok: RTCMessageOk,
}

/// The `ok` part of a signalling message.
#[derive(Debug)]
pub struct RTCMessageOk {
    pub rtc: RTCMessageRTC,
}

/// The `rtc` part of a signalling message: the sender's ID and an offer, an answer or an ICE candidate.
#[derive(Debug)]
pub struct RTCMessageRTC {
    pub id: String,
    pub offer: Option<RTCMessageSDP>,
    pub answer: Option<RTCMessageSDP>,
    pub candidate: Option<RTCMessageCandidate>,
}

/// A session description: its type (`"offer"` or `"answer"`) and its SDP text.
#[derive(Debug)]
pub struct RTCMessageSDP {
    pub sdp_type: String,
    pub sdp: String,
}

/// An ICE candidate.
#[derive(Debug)]
pub struct RTCMessageCandidate {
    pub candidate: String,
    pub sdp_mid: Option<String>,
    pub sdp_m_line_index: Option<u16>,
}

} // verus!

verus! {

/// The `"ok"` key.
pub open spec fn ok_key() -> Seq<char> { seq!['o', 'k'] }
/// The `"rtc"` key.
pub open spec fn rtc_key() -> Seq<char> { seq!['r', 't', 'c'] }
/// The `"id"` key.
pub open spec fn id_key() -> Seq<char> { seq!['i', 'd'] }
/// The `"candidate"` key.
pub open spec fn candidate_key() -> Seq<char> { seq!['c', 'a', 'n', 'd', 'i', 'd', 'a', 't', 'e'] }
/// The `"answer"` key.
pub open spec fn answer_key() -> Seq<char> { seq!['a', 'n', 's', 'w', 'e', 'r'] }
/// The `"offer"` key.
pub open spec fn offer_key() -> Seq<char> { seq!['o', 'f', 'f', 'e', 'r'] }
/// The `"sdp"` key.
pub open spec fn sdp_key() -> Seq<char> { seq!['s', 'd', 'p'] }
/// The `"type"` key.
pub open spec fn type_key() -> Seq<char> { seq!['t', 'y', 'p', 'e'] }

/// The `ok.rtc` part of a message.
pub open spec fn rtc_part(msg: Json) -> Option<Json> {
    match spec_field(msg, ok_key()) {
        Some(ok) => spec_field(ok, rtc_key()),
        None => None,
    }
}

/// The `ok.rtc` part of a message, if it has one.
pub fn rtc_part_of(msg: &Json) -> (r: Option<&Json>)
    ensures
        match r {
            Some(v) => rtc_part(*msg) == Some(*v),
            None => rtc_part(*msg) is None,
        },
{
    proof {
        reveal_strlit("ok");
        reveal_strlit("rtc");
        assert("ok"@ =~= ok_key());
        assert("rtc"@ =~= rtc_key());
    }
    match msg.get("ok") {
        Some(ok) => ok.get("rtc"),
        None => None,
    }
}

/// What a signalling message asks for, with the sending peer's ID.
pub enum RtcAction<'a> {
    /// Nothing: the message has no `ok.rtc` part, or it is our own.
    Ignore,
    /// Take the peer's ICE candidate.
    Candidate(&'a str),
    /// Take the peer's answer.
    Answer(&'a str),
    /// Take the peer's offer, and answer it.
    Offer(&'a str),
    /// The peer announced itself: connect to it.
    Discover(&'a str),
}

/// What a signalling message asks for: nothing without an `ok.rtc` part; an error when
/// that part has no string `id`; nothing when the ID is ours; otherwise, by the first
/// of `candidate`, `answer` and `offer` that it has, that step, or else a connection.
pub open spec fn rtc_action_is(msg: Json, pid: Seq<char>, r: GunResult<RtcAction>) -> bool {
    match rtc_part(msg) {
        None => r matches Ok(a) && a is Ignore,
        Some(rtc) => match spec_field(rtc, id_key()) {
            Some(idv) if spec_str(idv) is Some => {
                let id = spec_str(idv)->Some_0;
                if id == pid {
                    r matches Ok(a) && a is Ignore
                } else if spec_field(rtc, candidate_key()) is Some {
                    r matches Ok(RtcAction::Candidate(p)) && p@ == id
                } else if spec_field(rtc, answer_key()) is Some {
                    r matches Ok(RtcAction::Answer(p)) && p@ == id
                } else if spec_field(rtc, offer_key()) is Some {
                    r matches Ok(RtcAction::Offer(p)) && p@ == id
                } else {
                    r matches Ok(RtcAction::Discover(p)) && p@ == id
                }
            },
            _ => r matches Err(e) && e is InvalidData,
        },
    }
}

/// Decide what a signalling message asks of the peer whose ID is `pid`.
pub fn classify_rtc<'a>(msg: &'a Json, pid: &str) -> (r: GunResult<RtcAction<'a>>)
    ensures
        rtc_action_is(*msg, pid@, r),
{
    proof {
        reveal_strlit("id");
        reveal_strlit("candidate");
        reveal_strlit("answer");
        reveal_strlit("offer");
        assert("id"@ =~= id_key());
        assert("candidate"@ =~= candidate_key());
        assert("answer"@ =~= answer_key());
        assert("offer"@ =~= offer_key());
    }
    let rtc = match rtc_part_of(msg) {
        Some(r) => r,
        None => {
            return Ok(RtcAction::Ignore);
        },
    };
    let peer_id = match rtc.get("id") {
        Some(v) => match v.as_str() {
            Some(s) => s,
            None => {
                return Err(GunError::InvalidData("Missing RTC peer ID".to_owned()));
            },
        },
        None => {
            return Err(GunError::InvalidData("Missing RTC peer ID".to_owned()));
        },
    };
    if str_eq(peer_id, pid) {
        return Ok(RtcAction::Ignore);
    }
    if rtc.get("candidate").is_some() {
        Ok(RtcAction::Candidate(peer_id))
    } else if rtc.get("answer").is_some() {
        Ok(RtcAction::Answer(peer_id))
    } else if rtc.get("offer").is_some() {
        Ok(RtcAction::Offer(peer_id))
    } else {
        Ok(RtcAction::Discover(peer_id))
    }
}

/// The SDP text of an answer: the string under `answer.sdp`.
pub fn answer_sdp(rtc: &Json) -> (r: GunResult<&str>)
    ensures
        match r {
            Ok(s) => spec_field(*rtc, answer_key()) matches Some(a) && spec_field(a, sdp_key()) matches Some(t)
                && spec_str(t) == Some(s@),
            Err(e) => e is InvalidData && !(spec_field(*rtc, answer_key()) matches Some(a)
                && spec_field(a, sdp_key()) matches Some(t) && spec_str(t) is Some),
        },
{
    proof {
        reveal_strlit("answer");
        reveal_strlit("sdp");
        assert("answer"@ =~= answer_key());
        assert("sdp"@ =~= sdp_key());
    }
    let answer = match rtc.get("answer") {
        Some(a) => a,
        None => {
            return Err(GunError::InvalidData("Missing answer in RTC message".to_owned()));
        },
    };
    match answer.get("sdp") {
        Some(t) => match t.as_str() {
            Some(s) => Ok(s),
            None => Err(GunError::InvalidData("Missing SDP in answer".to_owned())),
        },
        None => Err(GunError::InvalidData("Missing SDP in answer".to_owned())),
    }
}

/// A text with every escaped line break, the four characters `\r\n`, turned into a
/// carriage return and a line feed, scanning from the left.
pub open spec fn unescape_crlf(s: Seq<char>) -> Seq<char>
    decreases s.len(),
{
    if s.len() == 0 {
        Seq::empty()
    } else if s.len() >= 4 && s.subrange(0, 4) == seq!['\\', 'r', '\\', 'n'] {
        seq!['\r', '\n'] + unescape_crlf(s.subrange(4, s.len() as int))
    } else {
        seq![s[0]] + unescape_crlf(s.subrange(1, s.len() as int))
    }
}

/// Turn the escaped line breaks of an SDP text into real ones.
pub fn unescape_sdp(s: &str) -> (r: String)
    ensures
        r@ == unescape_crlf(s@),
{
    let n = s.unicode_len();
    let mut out = String::new();
    let mut i: usize = 0;
    proof {
        assert(s@.subrange(0, n as int) =~= s@);
        assert(out@ + unescape_crlf(s@) =~= unescape_crlf(s@));
    }
    while i < n
        invariant
            n == s@.len(),
            i <= n,
            out@ + unescape_crlf(s@.subrange(i as int, n as int)) == unescape_crlf(s@),
        decreases n - i,
    {
        let ghost rest = s@.subrange(i as int, n as int);
        if n - i >= 4 && s.get_char(i) == '\\' && s.get_char(i + 1) == 'r' && s.get_char(i + 2) == '\\'
            && s.get_char(i + 3) == 'n' {
            proof {
                assert(rest.subrange(0, 4) =~= seq!['\\', 'r', '\\', 'n']);
                assert(rest.subrange(4, rest.len() as int) =~= s@.subrange(i + 4, n as int));
            }
            push_char(&mut out, '\r');
            push_char(&mut out, '\n');
            proof {
                assert(out@ + unescape_crlf(s@.subrange(i + 4, n as int)) =~= unescape_crlf(s@));
            }
            i = i + 4;
        } else {
            let c = s.get_char(i);
            proof {
                if rest.len() >= 4 {
                    assert(rest.subrange(0, 4) != seq!['\\', 'r', '\\', 'n']) by {
                        if rest.subrange(0, 4) == seq!['\\', 'r', '\\', 'n'] {
                            assert(rest.subrange(0, 4)[0] == s@[i as int]);
                            assert(rest.subrange(0, 4)[1] == s@[i + 1]);
                            assert(rest.subrange(0, 4)[2] == s@[i + 2]);
                            assert(rest.subrange(0, 4)[3] == s@[i + 3]);
                        }
                    }
                }
                assert(rest.subrange(1, rest.len() as int) =~= s@.subrange(i + 1, n as int));
                assert(rest[0] == c);
            }
            push_char(&mut out, c);
            proof {
                assert(out@ + unescape_crlf(s@.subrange(i + 1, n as int)) =~= unescape_crlf(s@));
            }
            i = i + 1;
        }
    }
    proof {
        assert(s@.subrange(n as int, n as int) =~= Seq::<char>::empty());
        assert(out@ + Seq::<char>::empty() =~= out@);
    }
    out
}

/// The SDP text of an offer: the string under `offer.sdp`, with its escaped line breaks turned into real ones.
pub fn offer_sdp(rtc: &Json) -> (r: GunResult<String>)
    ensures
        match r {
            Ok(s) => spec_field(*rtc, offer_key()) matches Some(a) && spec_field(a, sdp_key()) matches Some(t)
                && spec_str(t) matches Some(text) && s@ == unescape_crlf(text),
            Err(e) => e is InvalidData && !(spec_field(*rtc, offer_key()) matches Some(a)
                && spec_field(a, sdp_key()) matches Some(t) && spec_str(t) is Some),
        },
{
    proof {
        reveal_strlit("offer");
        reveal_strlit("sdp");
        assert("offer"@ =~= offer_key());
        assert("sdp"@ =~= sdp_key());
    }
    let offer = match rtc.get("offer") {
        Some(a) => a,
        None => {
            return Err(GunError::InvalidData("Missing offer in RTC message".to_owned()));
        },
    };
    match offer.get("sdp") {
        Some(t) => match t.as_str() {
            Some(s) => Ok(unescape_sdp(s)),
            None => Err(GunError::InvalidData("Missing SDP in offer".to_owned())),
        },
        None => Err(GunError::InvalidData("Missing SDP in offer".to_owned())),
    }
}

/// Whether to open a connection to a peer: none is open to it yet, and fewer than the
/// most connections allowed are open.
pub fn should_connect(known: bool, open: usize, options: &WebRTCOptions) -> (b: bool)
    ensures
        b == (!known && open < options.max_connections),
{
    !known && open < options.max_connections
}

/// The kind of a session description.
#[derive(Clone, Copy, Debug, PartialEq, Eq, Structural)]
pub enum SdpKind {
    Offer,
    Answer,
}

/// A session description `{"sdp": ..., "type": ...}`.
fn sdp_json(kind: SdpKind, sdp: String) -> (j: Json)
    ensures
        spec_field(j, sdp_key()) matches Some(t) && spec_str(t) == Some(sdp@),
        spec_field(j, type_key()) matches Some(t) && spec_str(t) == Some(match kind {
            SdpKind::Offer => offer_key(),
            SdpKind::Answer => answer_key(),
        }),
        j matches Json::Object(m) && m@.dom().len() == 2,
{
    proof {
        reveal_strlit("sdp");
        reveal_strlit("type");
        reveal_strlit("offer");
        reveal_strlit("answer");
        assert("sdp"@ =~= sdp_key());
        assert("type"@ =~= type_key());
        assert("offer"@ =~= offer_key());
        assert("answer"@ =~= answer_key());
    }
    let mut m: StrMap<Json> = StrMap::new();
    m.insert("sdp".to_owned(), Json::String(sdp));
    let t = match kind {
        SdpKind::Offer => "offer".to_owned(),
        SdpKind::Answer => "answer".to_owned(),
    };
    m.insert("type".to_owned(), Json::String(t));
    proof {
        assert(m@.dom() =~= set![sdp_key(), type_key()]);
        assert(sdp_key() != type_key());
    }
    Json::Object(m)
}

/// The signalling message that carries an offer or an answer from the peer `pid`:
/// `{"ok": {"rtc": {"id": pid, "offer" or "answer": {"sdp": ..., "type": ...}}}}`,
/// members in key order.
pub fn rtc_signal_message(pid: &str, kind: SdpKind, sdp: String) -> (m: Json)
    ensures
        rtc_part(m) matches Some(rtc) && {
            &&& spec_field(rtc, id_key()) matches Some(i) && spec_str(i) == Some(pid@)
            &&& spec_field(rtc, match kind { SdpKind::Offer => offer_key(), SdpKind::Answer => answer_key() })
                matches Some(d) && spec_field(d, sdp_key()) matches Some(t) && spec_str(t) == Some(sdp@)
            &&& rtc matches Json::Object(r) && r@.dom().len() == 2
        },
{
    proof {
        reveal_strlit("ok");
        reveal_strlit("rtc");
        reveal_strlit("id");
        reveal_strlit("offer");
        reveal_strlit("answer");
        assert("ok"@ =~= ok_key());
        assert("rtc"@ =~= rtc_key());
        assert("id"@ =~= id_key());
        assert("offer"@ =~= offer_key());
        assert("answer"@ =~= answer_key());
    }
    let desc = sdp_json(kind, sdp);
    let mut rtc: StrMap<Json> = StrMap::new();
    match kind {
        SdpKind::Answer => {
            rtc.insert("answer".to_owned(), desc);
            rtc.insert("id".to_owned(), Json::String(pid.to_owned()));
            proof { assert(rtc@.dom() =~= set![answer_key(), id_key()]); assert(answer_key() != id_key()); }
        },
        SdpKind::Offer => {
            rtc.insert("id".to_owned(), Json::String(pid.to_owned()));
            rtc.insert("offer".to_owned(), desc);
            proof { assert(rtc@.dom() =~= set![id_key(), offer_key()]); assert(offer_key() != id_key()); }
        },
    }
    let mut ok: StrMap<Json> = StrMap::new();
    ok.insert("rtc".to_owned(), Json::Object(rtc));
    let mut top: StrMap<Json> = StrMap::new();
    top.insert("ok".to_owned(), Json::Object(ok));
    Json::Object(top)
}

} // verus!
