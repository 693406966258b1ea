//! Turning an HTTP `CONNECT` request into a SOCKS5 handshake.
//!
//! When the main proxy is a SOCKS5 proxy and the first bytes a TCP socket
//! sends are an HTTP `CONNECT host:port` request, the request is replaced by a
//! SOCKS5 greeting and connect request, and the SOCKS5 success reply that
//! comes back is later answered to the client as an HTTP `200`.  The network
//! calls themselves are made by the caller; this module decides what to send
//! and what each answer means.

use vstd::prelude::*;
use crate::config::Config;
use crate::state::SocketState;
use crate::text::{starts_with, str_starts_with};

verus! {

/// The pattern that finds host and port in a `CONNECT` request line.
pub const CONNECT_PATTERN: &'static str = "(?i)\\ACONNECT ([a-z0-9.-]+):(\\d+)";

/// What `regex::bytes::Regex` reports for `pattern` on `haystack`: `None` when
/// there is no match (or the pattern does not compile), else one entry per
/// capture group of the leftmost-first match, group 0 being the whole match.
pub uninterp spec fn regex_captures(pattern: Seq<char>, haystack: Seq<u8>) -> Option<Seq<Option<Seq<u8>>>>;

/// `regex::bytes::Regex::new(pattern)` followed by `Regex::captures(haystack)`,
/// with every group's bytes copied out.  The contract only names the result;
/// that it is the leftmost-first match of the regex crate is not stated.
#[verifier::external_body]
fn first_captures(pattern: &str, haystack: &[u8]) -> (groups: Option<Vec<Option<Vec<u8>>>>)
    ensures
        groups.deep_view() == regex_captures(pattern@, haystack@),
{
    match regex::bytes::Regex::new(pattern) {
        Ok(re) => match re.captures(haystack) {
            Some(caps) => {
                let mut groups = Vec::new();
                for m in caps.iter() {
                    groups.push(m.map(|m| m.as_bytes().to_vec()));
                }
                Some(groups)
            },
            None => None,
        },
        Err(_) => None,
    }
}

/// Host and port named by a `CONNECT` request.
#[derive(Debug)]
pub struct ConnectTarget {
    pub host: Vec<u8>,
    pub port: u16,
}

/// The plain value of an optional target.
pub open spec fn target_view(t: Option<ConnectTarget>) -> Option<(Seq<u8>, u16)> {
    match t {
        Some(t) => Some((t.host@, t.port)),
        None => None,
    }
}

/// An ASCII decimal digit.
pub open spec fn is_ascii_digit(b: u8) -> bool {
    48 <= b && b <= 57
}

/// The value of a string of decimal digits.
pub open spec fn decimal_value(s: Seq<u8>) -> int
    decreases s.len(),
{
    if s.len() == 0 {
        0
    } else {
        decimal_value(s.drop_last()) * 10 + (s.last() - 48)
    }
}

/// The digits of a port field: a leading `+` is allowed.
pub open spec fn port_digits(s: Seq<u8>) -> Seq<u8> {
    if s.len() > 0 && s[0] == 43 {
        s.skip(1)
    } else {
        s
    }
}

/// A port field read as a `u16`, as UTF-8 decoding and `u16::from_str` read it:
/// an optional `+`, then one or more ASCII digits, with a value below 65536.
pub open spec fn parse_u16(s: Seq<u8>) -> Option<u16> {
    let d = port_digits(s);
    if d.len() > 0 && (forall|i: int| 0 <= i < d.len() ==> is_ascii_digit(#[trigger] d[i]))
        && decimal_value(d) <= 65535 {
        Some(decimal_value(d) as u16)
    } else {
        None
    }
}

/// Host and port from the capture groups of `CONNECT_PATTERN`.
pub open spec fn target_from_captures(caps: Option<Seq<Option<Seq<u8>>>>) -> Option<(Seq<u8>, u16)> {
    match caps {
        Some(groups) => if groups.len() >= 3 && groups[1] is Some && groups[2] is Some {
            match parse_u16(groups[2]->0) {
                Some(port) => Some((groups[1]->0, port)),
                None => None,
            }
        } else {
            None
        },
        None => None,
    }
}

proof fn lemma_decimal_prefix(s: Seq<u8>, k: int)
    requires
        0 <= k <= s.len(),
        forall|i: int| 0 <= i < s.len() ==> is_ascii_digit(#[trigger] s[i]),
    ensures
        0 <= decimal_value(s.take(k)) <= decimal_value(s),
    decreases s.len(),
{
    if s.len() > 0 {
        let t = s.drop_last();
        assert forall|i: int| 0 <= i < t.len() implies is_ascii_digit(#[trigger] t[i]) by {
            assert(t[i] == s[i]);
        }
        if k == s.len() {
            assert(s.take(k) =~= s);
            lemma_decimal_prefix(t, t.len() as int);
            assert(t.take(t.len() as int) =~= t);
        } else {
            lemma_decimal_prefix(t, k);
            assert(t.take(k) =~= s.take(k));
            lemma_decimal_prefix(t, t.len() as int);
            assert(t.take(t.len() as int) =~= t);
        }
    } else {
        assert(s.take(k) =~= s);
    }
}

/// Reads a port field as UTF-8 decoding and `u16::from_str` would.
pub fn parse_port(field: &[u8]) -> (port: Option<u16>)
    ensures
        port == parse_u16(field@),
{
    let mut start: usize = 0;
    if field.len() > 0 && field[0] == 43u8 {
        start = 1;
    }
    let ghost d = port_digits(field@);
    assert(d =~= field@.skip(start as int));
    if start >= field.len() {
        return None;
    }
    let mut i: usize = start;
    while i < field.len()
        invariant
            start <= i <= field@.len(),
            d =~= field@.skip(start as int),
            d == port_digits(field@),
            forall|j: int| 0 <= j < i - start ==> is_ascii_digit(#[trigger] d[j]),
        decreases field.len() - i,
    {
        assert(d[i - start] == field@[i as int]);
        if !(48u8 <= field[i] && field[i] <= 57u8) {
            assert(!is_ascii_digit(d[i - start]));
            return None;
        }
        i = i + 1;
    }
    let mut value: u32 = 0;
    let mut k: usize = start;
    while k < field.len()
        invariant
            start <= k <= field@.len(),
            d =~= field@.skip(start as int),
            d == port_digits(field@),
            d.len() > 0,
            forall|j: int| 0 <= j < d.len() ==> is_ascii_digit(#[trigger] d[j]),
            value == decimal_value(d.take(k - start)),
            value <= 65535,
        decreases field.len() - k,
    {
        assert(d[k - start] == field@[k as int]);
        assert(is_ascii_digit(d[k - start]));
        let digit = (field[k] - 48u8) as u32;
        let ghost t = d.take(k - start + 1);
        assert(t.drop_last() =~= d.take(k - start));
        assert(t.last() == d[k - start]);
        assert(decimal_value(t) == value * 10 + digit);
        let next = value * 10 + digit;
        if next > 65535 {
            proof {
                lemma_decimal_prefix(d, k - start + 1);
            }
            return None;
        }
        value = next;
        k = k + 1;
    }
    assert(d.take(d.len() as int) =~= d);
    Some(value as u16)
}

/// Host and port from the capture groups, as `target_from_captures` states.
pub fn connect_target_from_captures(groups: Option<Vec<Option<Vec<u8>>>>) -> (target: Option<ConnectTarget>)
    ensures
        target_view(target) == target_from_captures(groups.deep_view()),
{
    match groups {
        Some(g) => {
            if g.len() < 3 {
                return None;
            }
            match (&g[1], &g[2]) {
                (Some(host), Some(digits)) => {
                    proof {
                        assert(g.deep_view()[1] == Some(host.deep_view()));
                        assert(g.deep_view()[2] == Some(digits.deep_view()));
                        assert(host.deep_view() =~= host@);
                        assert(digits.deep_view() =~= digits@);
                    }
                    match parse_port(digits.as_slice()) {
                        Some(port) => {
                            let h = host.clone();
                            assert(h@ == host@);
                            Some(ConnectTarget { host: h, port })
                        },
                        None => None,
                    }
                },
                _ => None,
            }
        },
        None => None,
    }
}

/// Finds host and port in a `CONNECT` request.
pub fn parse_connect_request(buf: &[u8]) -> (target: Option<ConnectTarget>)
    ensures
        target_view(target) == target_from_captures(regex_captures(CONNECT_PATTERN@, buf@)),
{
    let groups = first_captures(CONNECT_PATTERN, buf);
    connect_target_from_captures(groups)
}

/// The bytes an HTTP `CONNECT` request starts with.
pub open spec fn connect_prefix() -> Seq<u8> {
    seq![67u8, 79u8, 78u8, 78u8, 69u8, 67u8, 84u8, 32u8]
}

/// The socket, the configuration and the first bytes sent call for the conversion:
/// a TCP socket, a non-empty `socks5://` main proxy, and a buffer that begins
/// with `CONNECT `.
pub open spec fn wants_socks5_conversion(state: SocketState, config: Config, buf: Seq<u8>) -> bool {
    &&& state.is_tcp
    &&& config.proxy.main matches Some(m) && m@.len() > 0 && starts_with(m@, "socks5://"@)
    &&& buf.len() >= 8
    &&& buf.subrange(0, 8) == connect_prefix()
}

/// The SOCKS5 greeting: version 5, one method, no authentication.
pub open spec fn socks5_greeting() -> Seq<u8> {
    seq![5u8, 1u8, 0u8]
}

/// The reply that accepts the greeting.
pub open spec fn socks5_greeting_accepted() -> Seq<u8> {
    seq![5u8, 0u8]
}

/// The SOCKS5 connect request for a domain name: the length byte is the
/// host length taken modulo 256, the port is big-endian.
pub open spec fn socks5_connect_request(host: Seq<u8>, port: u16) -> Seq<u8> {
    seq![5u8, 1u8, 0u8, 3u8, (host.len() % 256) as u8] + host + seq![(port / 256) as u8, (port % 256) as u8]
}

/// Builds the greeting.
pub fn make_socks5_greeting() -> (bytes: Vec<u8>)
    ensures
        bytes@ == socks5_greeting(),
{
    let mut v = Vec::new();
    v.push(5u8);
    v.push(1u8);
    v.push(0u8);
    assert(v@ =~= socks5_greeting());
    v
}

/// Builds the connect request for a target.
pub fn make_socks5_connect_request(target: &ConnectTarget) -> (bytes: Vec<u8>)
    ensures
        bytes@ == socks5_connect_request(target.host@, target.port),
{
    let host = &target.host;
    let mut v: Vec<u8> = Vec::new();
    v.push(5u8);
    v.push(1u8);
    v.push(0u8);
    v.push(3u8);
    v.push((host.len() % 256) as u8);
    let ghost head = v@;
    let mut i: usize = 0;
    while i < host.len()
        invariant
            i <= host@.len(),
            v@ == head + host@.take(i as int),
        decreases host.len() - i,
    {
        v.push(host[i]);
        assert(host@.take(i + 1) =~= host@.take(i as int).push(host@[i as int]));
        i = i + 1;
    }
    assert(host@.take(host@.len() as int) =~= host@);
    v.push((target.port / 256) as u8);
    v.push((target.port % 256) as u8);
    assert(v@ =~= socks5_connect_request(target.host@, target.port));
    v
}

/// Whether the first bytes sent call for the conversion, as `wants_socks5_conversion` states.
pub fn is_socks5_conversion_candidate(state: &SocketState, config: &Config, buf: &[u8]) -> (r: bool)
    ensures
        r == wants_socks5_conversion(*state, *config, buf@),
{
    if !state.is_tcp {
        return false;
    }
    let main = match &config.proxy.main {
        Some(m) => m,
        None => return false,
    };
    let main_str = main.as_str();
    if main_str.is_empty() || !str_starts_with(main_str, "socks5://") {
        return false;
    }
    if buf.len() < 8 {
        return false;
    }
    let prefix: [u8; 8] = [67u8, 79u8, 78u8, 78u8, 69u8, 67u8, 84u8, 32u8];
    let mut i: usize = 0;
    while i < 8
        invariant
            buf@.len() >= 8,
            prefix@ == connect_prefix(),
            i <= 8,
            forall|j: int| 0 <= j < i ==> buf@[j] == connect_prefix()[j],
        decreases 8 - i,
    {
        if buf[i] != prefix[i] {
            assert(buf@.subrange(0, 8)[i as int] != connect_prefix()[i as int]);
            return false;
        }
        i = i + 1;
    }
    assert(buf@.subrange(0, 8) =~= connect_prefix());
    true
}

/// Where a SOCKS5 handshake stands.
#[derive(Clone, Copy, Debug, PartialEq, Eq, Structural)]
pub enum HandshakeStage {
    /// Nothing sent yet.
    Start,
    /// The greeting was handed out; waiting for how much of it was sent.
    GreetingSent,
    /// Waiting until the socket is readable.
    AwaitingReadable,
    /// Waiting for the two-byte reply to the greeting.
    AwaitingReply,
    /// The connect request was handed out; waiting for how much was sent.
    RequestSent,
    /// The proxy accepted; the request was converted.
    Connected,
    /// A step failed; the request goes out unchanged.
    Failed,
}

/// What happened since the last step.
#[derive(Debug)]
pub enum HandshakeEvent {
    /// The caller is ready to begin.
    Begin,
    /// A send returned this count.
    Sent(i32),
    /// Waiting for readability returned this count of ready sockets.
    Readable(i32),
    /// A receive returned this count, with the two bytes of the buffer.
    Received(i32, [u8; 2]),
}

/// What the caller does next.
#[derive(Debug)]
pub enum HandshakeAction {
    /// Send these bytes on the socket.
    Send(Vec<u8>),
    /// Wait at most this many seconds for the socket to become readable.
    WaitReadable(i32),
    /// Receive this many bytes.
    Receive(i32),
    /// The conversion is done: report the client's request as sent.
    Complete,
    /// Give up: let the client's request through.
    Abort,
}

/// The plain value of an action.
pub enum ActionModel {
    Send(Seq<u8>),
    WaitReadable(i32),
    Receive(i32),
    Complete,
    Abort,
}

impl View for HandshakeAction {
    type V = ActionModel;

    open spec fn view(&self) -> ActionModel {
        match self {
            HandshakeAction::Send(b) => ActionModel::Send(b@),
            HandshakeAction::WaitReadable(s) => ActionModel::WaitReadable(*s),
            HandshakeAction::Receive(n) => ActionModel::Receive(*n),
            HandshakeAction::Complete => ActionModel::Complete,
            HandshakeAction::Abort => ActionModel::Abort,
        }
    }
}

/// One step of the handshake: the next stage and action for a stage, the
/// connect request that will be sent, and an event.
pub open spec fn handshake_step(stage: HandshakeStage, request: Seq<u8>, event: HandshakeEvent) -> (HandshakeStage, ActionModel) {
    match (stage, event) {
        (HandshakeStage::Start, HandshakeEvent::Begin) =>
            (HandshakeStage::GreetingSent, ActionModel::Send(socks5_greeting())),
        (HandshakeStage::GreetingSent, HandshakeEvent::Sent(n)) => if n == 3 {
            (HandshakeStage::AwaitingReadable, ActionModel::WaitReadable(10))
        } else {
            (HandshakeStage::Failed, ActionModel::Abort)
        },
        (HandshakeStage::AwaitingReadable, HandshakeEvent::Readable(n)) => if n >= 1 {
            (HandshakeStage::AwaitingReply, ActionModel::Receive(2))
        } else {
            (HandshakeStage::Failed, ActionModel::Abort)
        },
        (HandshakeStage::AwaitingReply, HandshakeEvent::Received(n, reply)) => if n == 2 && reply@ == socks5_greeting_accepted() {
            (HandshakeStage::RequestSent, ActionModel::Send(request))
        } else {
            (HandshakeStage::Failed, ActionModel::Abort)
        },
        (HandshakeStage::RequestSent, HandshakeEvent::Sent(n)) => if n == #[verifier::truncate] (request.len() as i32) {
            (HandshakeStage::Connected, ActionModel::Complete)
        } else {
            (HandshakeStage::Failed, ActionModel::Abort)
        },
        _ => (HandshakeStage::Failed, ActionModel::Abort),
    }
}

/// A SOCKS5 handshake in progress for one converted `CONNECT` request.
pub struct Socks5Handshake {
    pub target: ConnectTarget,
    pub stage: HandshakeStage,
}

impl Socks5Handshake {
    /// The connect request this handshake sends.
    pub open spec fn request(&self) -> Seq<u8> {
        socks5_connect_request(self.target.host@, self.target.port)
    }

    /// Advances the handshake by one event.  On completion the socket is
    /// marked so that the proxy's reply is later answered as HTTP.
    pub fn step(&mut self, state: &mut SocketState, event: HandshakeEvent) -> (action: HandshakeAction)
        ensures
            (final(self).stage, action@) == handshake_step(old(self).stage, old(self).request(), event),
            final(self).target == old(self).target,
            *final(state) == (if action@ is Complete {
                SocketState { fake_http_proxy: true, ..*old(state) }
            } else {
                *old(state)
            }),
    {
        let stage = self.stage;
        match (stage, event) {
            (HandshakeStage::Start, HandshakeEvent::Begin) => {
                self.stage = HandshakeStage::GreetingSent;
                HandshakeAction::Send(make_socks5_greeting())
            },
            (HandshakeStage::GreetingSent, HandshakeEvent::Sent(n)) => {
                if n == 3 {
                    self.stage = HandshakeStage::AwaitingReadable;
                    HandshakeAction::WaitReadable(10)
                } else {
                    self.stage = HandshakeStage::Failed;
                    HandshakeAction::Abort
                }
            },
            (HandshakeStage::AwaitingReadable, HandshakeEvent::Readable(n)) => {
                if n >= 1 {
                    self.stage = HandshakeStage::AwaitingReply;
                    HandshakeAction::Receive(2)
                } else {
                    self.stage = HandshakeStage::Failed;
                    HandshakeAction::Abort
                }
            },
            (HandshakeStage::AwaitingReply, HandshakeEvent::Received(n, reply)) => {
                if n == 2 && reply[0] == 5u8 && reply[1] == 0u8 {
                    assert(reply@ =~= socks5_greeting_accepted());
                    self.stage = HandshakeStage::RequestSent;
                    HandshakeAction::Send(make_socks5_connect_request(&self.target))
                } else {
                    assert(n == 2 ==> reply@ != socks5_greeting_accepted());
                    self.stage = HandshakeStage::Failed;
                    HandshakeAction::Abort
                }
            },
            (HandshakeStage::RequestSent, HandshakeEvent::Sent(n)) => {
                let total: u128 = self.target.host.len() as u128 + 7;
                if #[verifier::truncate] (total as i32) == n {
                    self.stage = HandshakeStage::Connected;
                    state.fake_http_proxy = true;
                    HandshakeAction::Complete
                } else {
                    self.stage = HandshakeStage::Failed;
                    HandshakeAction::Abort
                }
            },
            _ => {
                self.stage = HandshakeStage::Failed;
                HandshakeAction::Abort
            },
        }
    }
}

/// Only a TCP socket whose main proxy is a `socks5://` address, sending
/// bytes that begin with `CONNECT `, is converted: a `socks4://`, `http://`
/// or any other main proxy never is.
pub proof fn lemma_conversion_conditions(state: SocketState, config: Config, buf: Seq<u8>)
    ensures
        !state.is_tcp ==> !wants_socks5_conversion(state, config, buf),
        !(config.proxy.main matches Some(m) && starts_with(m@, seq!['s', 'o', 'c', 'k', 's', '5', ':', '/', '/']))
            ==> !wants_socks5_conversion(state, config, buf),
        !(buf.len() >= 8 && buf.take(8) == seq![67u8, 79u8, 78u8, 78u8, 69u8, 67u8, 84u8, 32u8])
            ==> !wants_socks5_conversion(state, config, buf),
{
    reveal_strlit("socks5://");
    assert("socks5://"@ =~= seq!['s', 'o', 'c', 'k', 's', '5', ':', '/', '/']);
    if buf.len() >= 8 {
        assert(buf.take(8) =~= buf.subrange(0, 8));
    }
}

/// Decides whether the first bytes sent on a socket become a SOCKS5
/// handshake, and if so for which target.
pub fn convert_http_to_socks5(state: &SocketState, config: &Config, buf: &[u8]) -> (handshake: Option<Socks5Handshake>)
    ensures
        handshake is Some <==> wants_socks5_conversion(*state, *config, buf@)
            && target_from_captures(regex_captures(CONNECT_PATTERN@, buf@)) is Some,
        handshake matches Some(h) ==> h.stage == HandshakeStage::Start
            && Some((h.target.host@, h.target.port)) == target_from_captures(regex_captures(CONNECT_PATTERN@, buf@)),
        handshake is Some ==> state.is_tcp,
        handshake is Some ==> (config.proxy.main matches Some(m) && starts_with(
            m@,
            seq!['s', 'o', 'c', 'k', 's', '5', ':', '/', '/'],
        )),
        handshake is Some ==> buf@.len() >= 8 && buf@.take(8) == seq![67u8, 79u8, 78u8, 78u8, 69u8, 67u8, 84u8, 32u8],
{
    proof {
        lemma_conversion_conditions(*state, *config, buf@);
    }
    if !is_socks5_conversion_candidate(state, config, buf) {
        return None;
    }
    match parse_connect_request(buf) {
        Some(target) => Some(Socks5Handshake { target, stage: HandshakeStage::Start }),
        None => None,
    }
}

/// The HTTP answer given to the client once the SOCKS5 proxy accepted:
/// `HTTP/1.1 200 Connection Established` followed by an empty line.
pub open spec fn fake_http_ok() -> Seq<u8> {
    seq![72u8, 84u8, 84u8, 80u8, 47u8, 49u8, 46u8, 49u8, 32u8, 50u8, 48u8, 48u8, 32u8, 67u8, 111u8, 110u8, 110u8, 101u8, 99u8, 116u8, 105u8, 111u8, 110u8, 32u8, 69u8, 115u8, 116u8, 97u8, 98u8, 108u8, 105u8, 115u8, 104u8, 101u8, 100u8, 13u8, 10u8, 13u8, 10u8]
}

/// The bytes received start with a SOCKS5 success reply (version 5, success, reserved 0).
pub open spec fn is_socks5_success(received: Seq<u8>) -> bool {
    received.len() >= 3 && received[0] == 5 && received[1] == 0 && received[2] == 0
}

/// What the first receive after a conversion hands the client, and the new
/// socket state.  `None` keeps the received bytes and count as they are;
/// `Some(bytes)` replaces the start of the buffer with `bytes` and reports
/// their length.
pub open spec fn fake_http_response(state: SocketState, received: Seq<u8>, len: i32, res: i32) -> (SocketState, Option<Seq<u8>>) {
    if state.fake_http_proxy {
        let next = SocketState { fake_http_proxy: false, ..state };
        if res >= 10 && is_socks5_success(received) && fake_http_ok().len() <= len {
            (next, Some(fake_http_ok()))
        } else {
            (next, None)
        }
    } else {
        (state, None)
    }
}

/// Answers the client's `CONNECT` once: the first receive on a converted
/// socket that holds a SOCKS5 success reply (at least ten bytes) becomes an
/// HTTP `200`, when the client's buffer of `len` bytes can hold it.  The mark
/// on the socket is cleared by the first receive either way.
///
/// `received` holds the `res` bytes received when `res` is at least ten.
pub fn handle_fake_http_response(state: &mut SocketState, received: &[u8], len: i32, res: i32) -> (reply: Option<Vec<u8>>)
    requires
        res >= 10 ==> received@.len() == res,
    ensures
        (*final(state), match reply { Some(b) => Some(b@), None => None })
            == fake_http_response(*old(state), received@, len, res),
{
    if state.fake_http_proxy {
        state.fake_http_proxy = false;
        if res >= 10 {
            if received.len() >= 3 && received[0] == 5u8 && received[1] == 0u8 && received[2] == 0u8 {
                let fake: Vec<u8> = vec![72u8, 84u8, 84u8, 80u8, 47u8, 49u8, 46u8, 49u8, 32u8, 50u8, 48u8, 48u8, 32u8, 67u8, 111u8, 110u8, 110u8, 101u8, 99u8, 116u8, 105u8, 111u8, 110u8, 32u8, 69u8, 115u8, 116u8, 97u8, 98u8, 108u8, 105u8, 115u8, 104u8, 101u8, 100u8, 13u8, 10u8, 13u8, 10u8];
                assert(fake@ =~= fake_http_ok());
                if fake.len() as i64 <= len as i64 {
                    return Some(fake);
                }
            }
        }
    }
    None
}

/// A proxy that answers every step as hoped takes the handshake from its
/// start through the greeting, the accepted reply and the connect request to
/// completion.
pub proof fn lemma_handshake_success_path(request: Seq<u8>, reply: [u8; 2])
    requires
        reply@ == socks5_greeting_accepted(),
    ensures
        handshake_step(HandshakeStage::Start, request, HandshakeEvent::Begin)
            == (HandshakeStage::GreetingSent, ActionModel::Send(socks5_greeting())),
        handshake_step(HandshakeStage::Start, request, HandshakeEvent::Begin)
            == (HandshakeStage::GreetingSent, ActionModel::Send(seq![5u8, 1u8, 0u8])),
        handshake_step(HandshakeStage::AwaitingReply, request, HandshakeEvent::Received(2, [5u8, 0u8]))
            == (HandshakeStage::RequestSent, ActionModel::Send(request)),
        forall|r: [u8; 2]| r@ != seq![5u8, 0u8] ==> #[trigger] handshake_step(HandshakeStage::AwaitingReply, request, HandshakeEvent::Received(2, r))
            == (HandshakeStage::Failed, ActionModel::Abort),
        handshake_step(HandshakeStage::GreetingSent, request, HandshakeEvent::Sent(3))
            == (HandshakeStage::AwaitingReadable, ActionModel::WaitReadable(10)),
        handshake_step(HandshakeStage::AwaitingReadable, request, HandshakeEvent::Readable(1))
            == (HandshakeStage::AwaitingReply, ActionModel::Receive(2)),
        handshake_step(HandshakeStage::AwaitingReply, request, HandshakeEvent::Received(2, reply))
            == (HandshakeStage::RequestSent, ActionModel::Send(request)),
        handshake_step(
            HandshakeStage::RequestSent,
            request,
            HandshakeEvent::Sent(#[verifier::truncate] (request.len() as i32)),
        ) == (HandshakeStage::Connected, ActionModel::Complete),
{
    assert(socks5_greeting() =~= seq![5u8, 1u8, 0u8]);
    assert([5u8, 0u8]@ =~= seq![5u8, 0u8]);
    assert(socks5_greeting_accepted() =~= seq![5u8, 0u8]);
}

/// Once a step failed, every later step gives up too.
pub proof fn lemma_handshake_failure_is_final(request: Seq<u8>, event: HandshakeEvent)
    ensures
        handshake_step(HandshakeStage::Failed, request, event) == (HandshakeStage::Failed, ActionModel::Abort),
{
}

/// Only a completed step marks the socket: every other outcome of a step is
/// an abort or a further action, never `Complete`.
pub proof fn lemma_handshake_completes_only_after_request(stage: HandshakeStage, request: Seq<u8>, event: HandshakeEvent)
    ensures
        handshake_step(stage, request, event).1 is Complete ==> stage == HandshakeStage::RequestSent,
{
}

/// The fake HTTP answer is given at most once: after any receive the mark is
/// gone, and the next receive keeps its bytes.
pub proof fn lemma_fake_response_once(
    state: SocketState,
    first: Seq<u8>,
    first_len: i32,
    first_res: i32,
    second: Seq<u8>,
    second_len: i32,
    second_res: i32,
)
    ensures
        !fake_http_response(state, first, first_len, first_res).0.fake_http_proxy,
        fake_http_response(fake_http_response(state, first, first_len, first_res).0, second, second_len, second_res).1 is None,
{
}

/// The connect request carries version 5, the connect command, a reserved
/// zero, the domain-name address type, the host's length byte (modulo 256),
/// the host itself, and the port in network byte order: the port read back
/// from its last two bytes is the port asked for.
pub proof fn lemma_connect_request_layout(host: Seq<u8>, port: u16)
    ensures
        ({
            let r = socks5_connect_request(host, port);
            let n = host.len() as int;
            &&& r.len() == n + 7
            &&& r.take(4) == seq![5u8, 1u8, 0u8, 3u8]
            &&& r[4] as int == n % 256
            &&& r.subrange(5, 5 + n) == host
            &&& (r[5 + n] as int) * 256 + (r[6 + n] as int) == port as int
        }),
{
    let r = socks5_connect_request(host, port);
    let n = host.len() as int;
    assert(r.take(4) =~= seq![5u8, 1u8, 0u8, 3u8]);
    assert(r.subrange(5, 5 + n) =~= host);
}

/// On a socket marked by a completed handshake, a receive of at least ten
/// bytes that begin with the SOCKS5 success reply `5 0 0`, into a buffer of
/// at least 39 bytes, is answered with `HTTP/1.1 200 Connection Established`
/// and an empty line; any other receive keeps its bytes.  Either way the
/// mark is cleared, and an unmarked socket is left alone.
pub proof fn lemma_fake_response_answer(state: SocketState, received: Seq<u8>, len: i32, res: i32)
    ensures
        ({
            let (next, reply) = fake_http_response(state, received, len, res);
            let accepted = received.len() >= 3 && received.take(3) == seq![5u8, 0u8, 0u8];
            &&& state.fake_http_proxy && res >= 10 && accepted && len >= 39 ==> reply == Some(seq![72u8, 84u8, 84u8, 80u8, 47u8, 49u8, 46u8, 49u8, 32u8, 50u8, 48u8, 48u8, 32u8, 67u8, 111u8, 110u8, 110u8, 101u8, 99u8, 116u8, 105u8, 111u8, 110u8, 32u8, 69u8, 115u8, 116u8, 97u8, 98u8, 108u8, 105u8, 115u8, 104u8, 101u8, 100u8, 13u8, 10u8, 13u8, 10u8])
            &&& !(state.fake_http_proxy && res >= 10 && accepted && len >= 39) ==> reply is None
            &&& next.fake_http_proxy == false
            &&& next.is_tcp == state.is_tcp && next.is_udp == state.is_udp
            &&& next.first_send_done == state.first_send_done
        }),
{
    if received.len() >= 3 {
        if received[0] == 5 && received[1] == 0 && received[2] == 0 {
            assert(received.take(3) =~= seq![5u8, 0u8, 0u8]);
        }
        if received.take(3) == seq![5u8, 0u8, 0u8] {
            assert(received.take(3)[0] == received[0]);
            assert(received.take(3)[1] == received[1]);
            assert(received.take(3)[2] == received[2]);
        }
    }
}

/// A port field made only of ASCII digits, extended by one more digit, reads
/// as ten times its value plus that digit while the result fits in a `u16`,
/// and is refused once it does not; a single digit reads as itself.
pub proof fn lemma_port_digits_extend(s: Seq<u8>, c: u8)
    requires
        48 <= c <= 57,
        forall|i: int| 0 <= i < s.len() ==> 48 <= #[trigger] s[i] <= 57,
    ensures
        s.len() == 0 ==> parse_u16(s.push(c)) == Some((c - 48) as u16),
        s.len() > 0 ==> match parse_u16(s) {
            Some(v) => parse_u16(s.push(c)) == (if 10 * v + (c - 48) <= 65535 {
                Some((10 * v + (c - 48)) as u16)
            } else {
                None
            }),
            None => parse_u16(s.push(c)) is None,
        },
        s.len() == 0 ==> parse_u16(s) is None,
{
    let t = s.push(c);
    assert(t.drop_last() =~= s);
    if s.len() > 0 {
        assert(s[0] != 43);
        assert(t[0] == s[0]);
        assert(port_digits(t) == t);
        assert(port_digits(s) == s);
        assert forall|i: int| 0 <= i < t.len() implies is_ascii_digit(#[trigger] t[i]) by {
            if i < s.len() {
                assert(t[i] == s[i]);
            }
        }
        lemma_decimal_prefix(s, 0);
    } else {
        assert(port_digits(t) == t);
        assert(decimal_value(s) == 0);
    }
}

/// A port field with any byte other than an ASCII digit, apart from a single
/// leading `+`, is refused, as is an empty field.
pub proof fn lemma_port_rejects_non_digits(s: Seq<u8>, i: int)
    requires
        0 <= i < s.len(),
        !(48 <= s[i] <= 57),
        !(i == 0 && s[0] == 43),
    ensures
        parse_u16(s) is None,
        parse_u16(Seq::<u8>::empty()) is None,
{
    let d = port_digits(s);
    if s.len() > 0 && s[0] == 43 {
        assert(d[i - 1] == s[i]);
    } else {
        assert(d[i] == s[i]);
    }
}

} // verus!
