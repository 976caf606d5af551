//! The decisions of the `/websockify` WebSocket-to-TCP relay.
//!
//! A connection starts in [`RelayStart`]: its first byte tells a SOCKS5 client (`0x05`) from a direct
//! byte stream. A SOCKS5 client gets just enough of RFC 1928 (no-auth method selection, then CONNECT)
//! and is bridged only when it asked to CONNECT to a loopback address; any other request is refused.
//! The relay target itself is fixed by the server and never read from the client. Once bridged,
//! [`BridgeTally`] decides what each frame or read means and counts the bytes relayed each way.

use vstd::prelude::*;
use crate::text::{chars_of, range_equals, string_push, trim, trim_bounds};

verus! {

pub const SOCKS5_VERSION: u8 = 5;
pub const SOCKS5_CMD_CONNECT: u8 = 1;
pub const SOCKS5_ATYP_IPV4: u8 = 1;
pub const SOCKS5_ATYP_DOMAIN: u8 = 3;
pub const SOCKS5_ATYP_IPV6: u8 = 4;

/// How many bytes of a relayed chunk the log preview shows.
pub const PREVIEW_BYTES: usize = 256;

/// What the first byte of a connection says about the client.
#[derive(Clone, Copy, Debug, PartialEq, Eq, Structural)]
pub enum ClientKind {
    /// A SOCKS5 client (first byte `0x05`).
    Socks5,
    /// Anything else: a raw byte stream bridged as it is.
    Direct,
}

pub open spec fn spec_client_kind(first: u8) -> ClientKind {
    if first == SOCKS5_VERSION {
        ClientKind::Socks5
    } else {
        ClientKind::Direct
    }
}

pub fn client_kind(first: u8) -> (r: ClientKind)
    ensures
        r == spec_client_kind(first),
{
    if first == SOCKS5_VERSION {
        ClientKind::Socks5
    } else {
        ClientKind::Direct
    }
}

/// Progress of the SOCKS5 method-selection message `VER, NMETHODS, METHODS...`.
#[derive(Clone, Copy, Debug, PartialEq, Eq, Structural)]
pub enum MethodStep {
    /// The message is incomplete until the buffer holds this many bytes.
    NeedBytes(usize),
    /// The message is complete and occupies this many leading bytes.
    Selected(usize),
}

pub open spec fn spec_method_step(buf: Seq<u8>) -> MethodStep {
    if buf.len() < 2 {
        MethodStep::NeedBytes(2)
    } else if buf.len() < 2 + buf[1] {
        MethodStep::NeedBytes((2 + buf[1]) as usize)
    } else {
        MethodStep::Selected((2 + buf[1]) as usize)
    }
}

/// Where the method-selection message ends, or how many bytes it needs first.
pub fn socks5_method_step(buf: &[u8]) -> (r: MethodStep)
    ensures
        r == spec_method_step(buf@),
{
    if buf.len() < 2 {
        return MethodStep::NeedBytes(2);
    }
    let select_len: usize = 2 + buf[1] as usize;
    if buf.len() < select_len {
        MethodStep::NeedBytes(select_len)
    } else {
        MethodStep::Selected(select_len)
    }
}

/// Progress of the SOCKS5 request `VER, CMD, RSV, ATYP, DST.ADDR, DST.PORT`.
#[derive(Clone, Copy, Debug, PartialEq, Eq, Structural)]
pub enum RequestStep {
    /// The request is incomplete until the buffer holds this many bytes.
    NeedBytes(usize),
    /// A CONNECT to a loopback address, occupying this many leading bytes.
    Accept(usize),
    /// Any other command, a non-loopback target or an unknown address type.
    Refuse,
}

/// `Ipv4Addr::is_loopback`: the address lies in `127.0.0.0/8`.
pub open spec fn ipv4_is_loopback(octets: Seq<u8>) -> bool {
    octets[0] == 127
}

/// `Ipv6Addr::is_loopback`: the address is `::1`.
pub open spec fn ipv6_is_loopback(octets: Seq<u8>) -> bool {
    &&& forall|k: int| 0 <= k < 15 ==> #[trigger] octets[k] == 0
    &&& octets[15] == 1
}

pub open spec fn localhost_bytes() -> Seq<u8> {
    seq![0x6cu8, 0x6f, 0x63, 0x61, 0x6c, 0x68, 0x6f, 0x73, 0x74]
}

pub open spec fn ipv4_loopback_text_bytes() -> Seq<u8> {
    seq![0x31u8, 0x32, 0x37, 0x2e, 0x30, 0x2e, 0x30, 0x2e, 0x31]
}

pub open spec fn ipv6_loopback_text_bytes() -> Seq<u8> {
    seq![0x3au8, 0x3a, 0x31]
}

/// A domain name the relay treats as loopback: exactly `localhost`, `127.0.0.1` or `::1`.
pub open spec fn is_loopback_name(name: Seq<u8>) -> bool {
    name == localhost_bytes() || name == ipv4_loopback_text_bytes() || name == ipv6_loopback_text_bytes()
}

/// The decision of the request parser on the buffered bytes `buf`.
pub open spec fn spec_request_step(buf: Seq<u8>) -> RequestStep {
    if buf.len() < 4 {
        RequestStep::NeedBytes(4)
    } else {
        let command = buf[1];
        let atyp = buf[3];
        if atyp == SOCKS5_ATYP_IPV4 {
            if buf.len() < 10 {
                RequestStep::NeedBytes(10)
            } else if command == SOCKS5_CMD_CONNECT && ipv4_is_loopback(buf.subrange(4, 8)) {
                RequestStep::Accept(10)
            } else {
                RequestStep::Refuse
            }
        } else if atyp == SOCKS5_ATYP_IPV6 {
            if buf.len() < 22 {
                RequestStep::NeedBytes(22)
            } else if command == SOCKS5_CMD_CONNECT && ipv6_is_loopback(buf.subrange(4, 20)) {
                RequestStep::Accept(22)
            } else {
                RequestStep::Refuse
            }
        } else if atyp == SOCKS5_ATYP_DOMAIN {
            if buf.len() < 5 {
                RequestStep::NeedBytes(5)
            } else {
                let request_len = 5 + buf[4] + 2;
                if buf.len() < request_len {
                    RequestStep::NeedBytes(request_len as usize)
                } else if command == SOCKS5_CMD_CONNECT && is_loopback_name(buf.subrange(5, 5 + buf[4])) {
                    RequestStep::Accept(request_len as usize)
                } else {
                    RequestStep::Refuse
                }
            }
        } else {
            RequestStep::Refuse
        }
    }
}

/// Whether `buf[a..a + lit.len()]` equals `lit`.
fn bytes_at_equal(buf: &[u8], a: usize, lit: &[u8]) -> (r: bool)
    requires
        a + lit@.len() <= buf@.len(),
    ensures
        r == (buf@.subrange(a as int, a + lit@.len()) == lit@),
{
    let mut k: usize = 0;
    let blen = buf.len();
    while k < lit.len()
        invariant
            blen == buf@.len(),
            a + lit@.len() <= buf@.len(),
            k <= lit@.len(),
            forall|m: int| 0 <= m < k ==> buf@[a + m] == lit@[m],
        decreases lit@.len() - k,
    {
        assert(a + k < buf@.len());
        if buf[a + k] != lit[k] {
            assert(buf@.subrange(a as int, a + lit@.len())[k as int] != lit@[k as int]);
            return false;
        }
        k = k + 1;
    }
    assert(buf@.subrange(a as int, a + lit@.len()) =~= lit@);
    true
}

fn name_is_loopback(buf: &[u8], a: usize, n: usize) -> (r: bool)
    requires
        a + n <= buf@.len(),
    ensures
        r == is_loopback_name(buf@.subrange(a as int, a + n)),
{
    let localhost: [u8; 9] = [0x6c, 0x6f, 0x63, 0x61, 0x6c, 0x68, 0x6f, 0x73, 0x74];
    let v4: [u8; 9] = [0x31, 0x32, 0x37, 0x2e, 0x30, 0x2e, 0x30, 0x2e, 0x31];
    let v6: [u8; 3] = [0x3a, 0x3a, 0x31];
    assert(localhost@ =~= localhost_bytes());
    assert(v4@ =~= ipv4_loopback_text_bytes());
    assert(v6@ =~= ipv6_loopback_text_bytes());
    let ghost name = buf@.subrange(a as int, a + n);
    if n == 9 {
        let l = bytes_at_equal(buf, a, localhost.as_slice());
        let f = bytes_at_equal(buf, a, v4.as_slice());
        l || f
    } else if n == 3 {
        bytes_at_equal(buf, a, v6.as_slice())
    } else {
        assert(name.len() != 9 && name.len() != 3);
        false
    }
}

/// The SOCKS5 request parser: what the bytes buffered so far decide.
pub fn socks5_request_step(buf: &[u8]) -> (r: RequestStep)
    ensures
        r == spec_request_step(buf@),
{
    if buf.len() < 4 {
        return RequestStep::NeedBytes(4);
    }
    let command = buf[1];
    let atyp = buf[3];
    if atyp == SOCKS5_ATYP_IPV4 {
        if buf.len() < 10 {
            return RequestStep::NeedBytes(10);
        }
        assert(buf@.subrange(4, 8)[0] == buf@[4]);
        if command == SOCKS5_CMD_CONNECT && buf[4] == 127 {
            RequestStep::Accept(10)
        } else {
            RequestStep::Refuse
        }
    } else if atyp == SOCKS5_ATYP_IPV6 {
        if buf.len() < 22 {
            return RequestStep::NeedBytes(22);
        }
        let ghost octets = buf@.subrange(4, 20);
        let mut zeros = true;
        let mut k: usize = 0;
        while k < 15
            invariant
                buf@.len() >= 22,
                octets == buf@.subrange(4, 20),
                k <= 15,
                zeros == (forall|m: int| 0 <= m < k ==> #[trigger] octets[m] == 0),
            decreases 15 - k,
        {
            if buf[4 + k] != 0 {
                assert(octets[k as int] != 0);
                zeros = false;
            }
            k = k + 1;
            assert(zeros == (forall|m: int| 0 <= m < k ==> #[trigger] octets[m] == 0)) by {
                if zeros {
                    assert forall|m: int| 0 <= m < k implies #[trigger] octets[m] == 0 by {
                        if m < k - 1 {
                        } else {
                            assert(octets[m] == buf@[4 + m]);
                        }
                    }
                }
            }
        }
        assert(octets[15] == buf@[19]);
        if command == SOCKS5_CMD_CONNECT && zeros && buf[19] == 1 {
            RequestStep::Accept(22)
        } else {
            RequestStep::Refuse
        }
    } else if atyp == SOCKS5_ATYP_DOMAIN {
        if buf.len() < 5 {
            return RequestStep::NeedBytes(5);
        }
        let name_len = buf[4] as usize;
        let request_len: usize = 5 + name_len + 2;
        if buf.len() < request_len {
            return RequestStep::NeedBytes(request_len);
        }
        if command == SOCKS5_CMD_CONNECT && name_is_loopback(buf, 5, name_len) {
            RequestStep::Accept(request_len)
        } else {
            RequestStep::Refuse
        }
    } else {
        RequestStep::Refuse
    }
}

/// The requested CONNECT target, as the relay judges it from a complete request.
pub open spec fn requested_loopback(buf: Seq<u8>) -> bool {
    ||| buf[3] == SOCKS5_ATYP_IPV4 && ipv4_is_loopback(buf.subrange(4, 8))
    ||| buf[3] == SOCKS5_ATYP_IPV6 && ipv6_is_loopback(buf.subrange(4, 20))
    ||| buf[3] == SOCKS5_ATYP_DOMAIN && is_loopback_name(buf.subrange(5, 5 + buf[4]))
}

/// The relay only ever accepts a SOCKS5 request that is a CONNECT to a loopback target: whatever the
/// client sends, an accepted request carries command CONNECT and names `127.0.0.0/8`, `::1`, or one
/// of the names `localhost`, `127.0.0.1`, `::1`.
pub proof fn accepted_requests_are_loopback_connects(buf: Seq<u8>)
    ensures
        spec_request_step(buf) is Accept ==> {
            &&& buf.len() >= 4
            &&& buf[1] == SOCKS5_CMD_CONNECT
            &&& requested_loopback(buf)
        },
{
}

/// The fixed SOCKS5 replies the relay sends.
#[derive(Clone, Copy, Debug, PartialEq, Eq, Structural)]
pub enum Socks5Reply {
    /// Method selection: version 5, "no authentication required".
    NoAuth,
    /// CONNECT succeeded (`REP=0`, bound address `0.0.0.0:0`).
    Succeeded,
    /// CONNECT not allowed by ruleset (`REP=2`).
    Refused,
}

pub open spec fn spec_reply_bytes(reply: Socks5Reply) -> Seq<u8> {
    match reply {
        Socks5Reply::NoAuth => seq![5u8, 0],
        Socks5Reply::Succeeded => seq![5u8, 0, 0, 1, 0, 0, 0, 0, 0, 0],
        Socks5Reply::Refused => seq![5u8, 2, 0, 1, 0, 0, 0, 0, 0, 0],
    }
}

/// The wire bytes of a reply.
pub fn reply_bytes(reply: Socks5Reply) -> (r: Vec<u8>)
    ensures
        r@ == spec_reply_bytes(reply),
{
    let r = match reply {
        Socks5Reply::NoAuth => vec![5u8, 0],
        Socks5Reply::Succeeded => vec![5u8, 0, 0, 1, 0, 0, 0, 0, 0, 0],
        Socks5Reply::Refused => vec![5u8, 2, 0, 1, 0, 0, 0, 0, 0, 0],
    };
    assert(r@ =~= spec_reply_bytes(reply));
    r
}

/// Where a connection is before it is bridged.
#[derive(Clone, Copy, Debug, PartialEq, Eq, Structural)]
pub enum RelayPhase {
    /// Waiting for the first byte.
    Detect,
    /// SOCKS5: waiting for the method-selection message.
    Methods,
    /// SOCKS5: waiting for the request.
    Request,
    /// Ready to connect to the fixed target and bridge.
    Bridge,
    /// Refused or ended: the socket is to be closed.
    Closed,
}

/// What the driver is to do next.
#[derive(Clone, Copy, Debug, PartialEq, Eq, Structural)]
pub enum RelayAction {
    /// Read client frames until the buffer holds at least this many bytes (or the socket ends).
    ReadAtLeast(usize),
    /// Send this reply as one binary frame, then ask again.
    Reply(Socks5Reply),
    /// Connect to the fixed target and bridge, forwarding the buffered bytes first.
    Connect,
    /// Close the client socket.
    Close,
}

/// The pre-bridge state of one relay connection: its phase and the client bytes not yet consumed.
pub struct RelayStart {
    pub phase: RelayPhase,
    pub buf: Vec<u8>,
}

/// One step of the connection start: the phase, buffer and action after `advance` on `(phase, buf)`.
pub open spec fn spec_advance(phase: RelayPhase, buf: Seq<u8>) -> (RelayPhase, Seq<u8>, RelayAction) {
    match phase {
        RelayPhase::Detect => {
            if buf.len() == 0 {
                (RelayPhase::Detect, buf, RelayAction::ReadAtLeast(1))
            } else if spec_client_kind(buf[0]) == ClientKind::Direct {
                (RelayPhase::Bridge, buf, RelayAction::Connect)
            } else {
                spec_advance_methods(buf)
            }
        },
        RelayPhase::Methods => spec_advance_methods(buf),
        RelayPhase::Request => match spec_request_step(buf) {
            RequestStep::NeedBytes(n) => (RelayPhase::Request, buf, RelayAction::ReadAtLeast(n)),
            RequestStep::Accept(n) => (
                RelayPhase::Bridge,
                buf.subrange(n as int, buf.len() as int),
                RelayAction::Reply(Socks5Reply::Succeeded),
            ),
            RequestStep::Refuse => (RelayPhase::Closed, buf, RelayAction::Reply(Socks5Reply::Refused)),
        },
        RelayPhase::Bridge => (RelayPhase::Bridge, buf, RelayAction::Connect),
        RelayPhase::Closed => (RelayPhase::Closed, buf, RelayAction::Close),
    }
}

pub open spec fn spec_advance_methods(buf: Seq<u8>) -> (RelayPhase, Seq<u8>, RelayAction) {
    match spec_method_step(buf) {
        MethodStep::NeedBytes(n) => (RelayPhase::Methods, buf, RelayAction::ReadAtLeast(n)),
        MethodStep::Selected(n) => (
            RelayPhase::Request,
            buf.subrange(n as int, buf.len() as int),
            RelayAction::Reply(Socks5Reply::NoAuth),
        ),
    }
}

/// A connection reaches the bridge in one of two ways only: its first byte shows a direct client, or
/// a SOCKS5 client's request was accepted (so it is a CONNECT to a loopback target). A refused or ended
/// connection stays closed.
pub proof fn bridging_needs_a_direct_client_or_an_accepted_request(phase: RelayPhase, buf: Seq<u8>)
    ensures
        phase != RelayPhase::Bridge && spec_advance(phase, buf).0 == RelayPhase::Bridge ==> {
            ||| phase == RelayPhase::Detect && buf.len() > 0 && buf[0] != SOCKS5_VERSION
            ||| phase == RelayPhase::Request && spec_request_step(buf) is Accept && buf[1] == SOCKS5_CMD_CONNECT
                && requested_loopback(buf)
        },
        phase == RelayPhase::Closed ==> spec_advance(phase, buf) == (RelayPhase::Closed, buf, RelayAction::Close),
{
    accepted_requests_are_loopback_connects(buf);
}

/// The bytes of `v` from index `n` on.
fn tail_from(v: &Vec<u8>, n: usize) -> (r: Vec<u8>)
    requires
        n <= v.len(),
    ensures
        r@ == v@.subrange(n as int, v@.len() as int),
{
    let mut r: Vec<u8> = Vec::new();
    let mut i = n;
    while i < v.len()
        invariant
            n <= i <= v.len(),
            r@ == v@.subrange(n as int, i as int),
        decreases v.len() - i,
    {
        r.push(v[i]);
        i = i + 1;
        assert(r@ =~= v@.subrange(n as int, i as int));
    }
    r
}

impl RelayStart {
    /// A fresh connection: nothing read yet.
    pub fn new() -> (r: RelayStart)
        ensures
            r.phase == RelayPhase::Detect,
            r.buf@ == Seq::<u8>::empty(),
    {
        RelayStart { phase: RelayPhase::Detect, buf: Vec::new() }
    }

    /// Append bytes read from the client.
    pub fn push(&mut self, data: &[u8])
        ensures
            final(self).phase == old(self).phase,
            final(self).buf@ == old(self).buf@ + data@,
    {
        let mut i: usize = 0;
        let ghost start = self.buf@;
        while i < data.len()
            invariant
                i <= data@.len(),
                self.phase == old(self).phase,
                start == old(self).buf@,
                self.buf@ == start + data@.take(i as int),
            decreases data@.len() - i,
        {
            self.buf.push(data[i]);
            i = i + 1;
            assert(self.buf@ =~= start + data@.take(i as int));
        }
        assert(data@.take(data@.len() as int) =~= data@);
    }

    /// The client socket ended or failed before the start completed.
    pub fn client_ended(&mut self)
        ensures
            final(self).phase == RelayPhase::Closed,
            final(self).buf@ == old(self).buf@,
    {
        self.phase = RelayPhase::Closed;
    }

    /// Take one step: decide the next action from the phase and the buffered bytes.
    pub fn advance(&mut self) -> (action: RelayAction)
        ensures
            (final(self).phase, final(self).buf@, action) == spec_advance(old(self).phase, old(self).buf@),
    {
        match self.phase {
            RelayPhase::Detect => {
                if self.buf.len() == 0 {
                    RelayAction::ReadAtLeast(1)
                } else if client_kind(self.buf[0]) == ClientKind::Direct {
                    self.phase = RelayPhase::Bridge;
                    RelayAction::Connect
                } else {
                    self.advance_methods()
                }
            },
            RelayPhase::Methods => self.advance_methods(),
            RelayPhase::Request => match socks5_request_step(self.buf.as_slice()) {
                RequestStep::NeedBytes(n) => RelayAction::ReadAtLeast(n),
                RequestStep::Accept(n) => {
                    self.buf = tail_from(&self.buf, n);
                    self.phase = RelayPhase::Bridge;
                    RelayAction::Reply(Socks5Reply::Succeeded)
                },
                RequestStep::Refuse => {
                    self.phase = RelayPhase::Closed;
                    RelayAction::Reply(Socks5Reply::Refused)
                },
            },
            RelayPhase::Bridge => RelayAction::Connect,
            RelayPhase::Closed => RelayAction::Close,
        }
    }

    fn advance_methods(&mut self) -> (action: RelayAction)
        ensures
            (final(self).phase, final(self).buf@, action) == spec_advance_methods(old(self).buf@),
    {
        match socks5_method_step(self.buf.as_slice()) {
            MethodStep::NeedBytes(n) => {
                self.phase = RelayPhase::Methods;
                RelayAction::ReadAtLeast(n)
            },
            MethodStep::Selected(n) => {
                self.buf = tail_from(&self.buf, n);
                self.phase = RelayPhase::Request;
                RelayAction::Reply(Socks5Reply::NoAuth)
            },
        }
    }
}

/// One event from the client side of an established bridge.
#[derive(Clone, Copy, Debug, PartialEq, Eq, Structural)]
pub enum ClientFrame {
    /// A binary or text message carrying this many bytes.
    Data(usize),
    Ping,
    Pong,
    /// A close frame, the end of the stream, or a receive error.
    Ended,
}

/// What the bridge does with one event.
#[derive(Clone, Copy, Debug, PartialEq, Eq, Structural)]
pub enum BridgeStep {
    /// Write the message bytes to the target.
    ForwardToTarget,
    /// Send the read bytes to the client; `first` when nothing was sent to the client before.
    ForwardToClient { first: bool },
    /// Answer a ping.
    Pong,
    /// Nothing to do.
    Continue,
    /// Shut the target down and close the client.
    Stop,
}

pub open spec fn saturating_add(a: usize, b: usize) -> usize {
    if a + b > usize::MAX {
        usize::MAX
    } else {
        (a + b) as usize
    }
}

/// The byte counts of an established bridge, each saturating at `usize::MAX`.
pub struct BridgeTally {
    pub to_target: usize,
    pub to_client: usize,
}

impl BridgeTally {
    /// A bridge that already forwarded `head` bytes read while the client was recognised.
    pub fn new(head: usize) -> (r: BridgeTally)
        ensures
            r.to_target == head,
            r.to_client == 0,
    {
        BridgeTally { to_target: head, to_client: 0 }
    }

    /// The decision for one client event, counting forwarded bytes.
    pub fn client_frame(&mut self, frame: ClientFrame) -> (step: BridgeStep)
        ensures
            final(self).to_client == old(self).to_client,
            match frame {
                ClientFrame::Data(n) => step == BridgeStep::ForwardToTarget
                    && final(self).to_target == saturating_add(old(self).to_target, n),
                ClientFrame::Ping => step == BridgeStep::Pong && final(self).to_target == old(self).to_target,
                ClientFrame::Pong => step == BridgeStep::Continue && final(self).to_target == old(self).to_target,
                ClientFrame::Ended => step == BridgeStep::Stop && final(self).to_target == old(self).to_target,
            },
    {
        match frame {
            ClientFrame::Data(n) => {
                self.to_target = self.to_target.saturating_add(n);
                BridgeStep::ForwardToTarget
            },
            ClientFrame::Ping => BridgeStep::Pong,
            ClientFrame::Pong => BridgeStep::Continue,
            ClientFrame::Ended => BridgeStep::Stop,
        }
    }

    /// The decision for one read from the target: `None` for a failed read, `Some(n)` for `n` bytes.
    pub fn target_read(&mut self, read: Option<usize>) -> (step: BridgeStep)
        ensures
            final(self).to_target == old(self).to_target,
            match read {
                Some(n) => if n == 0 {
                    step == BridgeStep::Stop && final(self).to_client == old(self).to_client
                } else {
                    step == (BridgeStep::ForwardToClient { first: old(self).to_client == 0 })
                        && final(self).to_client == saturating_add(old(self).to_client, n)
                },
                None => step == BridgeStep::Stop && final(self).to_client == old(self).to_client,
            },
    {
        match read {
            Some(n) => {
                if n == 0 {
                    BridgeStep::Stop
                } else {
                    let first = self.to_client == 0;
                    self.to_client = self.to_client.saturating_add(n);
                    BridgeStep::ForwardToClient { first }
                }
            },
            None => BridgeStep::Stop,
        }
    }
}

/// `[a, b)` is one of the comma-separated items of `s`.
pub open spec fn is_item(s: Seq<char>, a: int, b: int) -> bool {
    &&& 0 <= a <= b <= s.len()
    &&& a == 0 || s[a - 1] == ','
    &&& b == s.len() || s[b] == ','
    &&& forall|k: int| a <= k < b ==> s[k] != ','
}

pub open spec fn binary_word() -> Seq<char> {
    seq!['b', 'i', 'n', 'a', 'r', 'y']
}

/// A `Sec-WebSocket-Protocol` value offers `binary`: one of its comma-separated items, trimmed, is `binary`.
pub open spec fn spec_offers_binary(s: Seq<char>) -> bool {
    exists|a: int, b: int| is_item(s, a, b) && trim(#[trigger] s.subrange(a, b)) == binary_word()
}

/// Whether the offered subprotocols (absent when the header is missing) include `binary`.
pub fn offers_binary(offered: Option<&str>) -> (r: bool)
    ensures
        r == (match offered {
            Some(s) => spec_offers_binary(s@),
            None => false,
        }),
{
    let s = match offered {
        Some(s) => s,
        None => return false,
    };
    let v = chars_of(s);
    let word: Vec<char> = vec!['b', 'i', 'n', 'a', 'r', 'y'];
    assert(word@ =~= binary_word());
    let n = v.len();
    let mut start: usize = 0;
    let mut k: usize = 0;
    while k < n
        invariant
            offered == Some(s),
            n == v@.len(),
            v@ == s@,
            word@ == binary_word(),
            start <= k <= n,
            start == 0 || v@[start - 1] == ',',
            forall|m: int| start <= m < k ==> v@[m] != ',',
            forall|a: int, b: int| is_item(v@, a, b) && b < k ==> trim(#[trigger] v@.subrange(a, b)) != binary_word(),
        decreases n - k,
    {
        if v[k] == ',' {
            if item_is_binary(&v, start, k, &word) {
                assert(is_item(s@, start as int, k as int));
                assert(trim(s@.subrange(start as int, k as int)) == binary_word());
                assert(spec_offers_binary(s@));
                return true;
            }
            start = k + 1;
        } else {
            assert forall|a: int, b: int| is_item(v@, a, b) && b < k + 1 implies trim(
                #[trigger] v@.subrange(a, b),
            ) != binary_word() by {
                if b == k {
                    assert(v@[b] != ',');
                }
            }
        }
        k = k + 1;
    }
    if item_is_binary(&v, start, n, &word) {
        assert(is_item(s@, start as int, n as int));
        assert(trim(s@.subrange(start as int, n as int)) == binary_word());
        return true;
    }
    assert forall|a: int, b: int| is_item(s@, a, b) implies trim(#[trigger] s@.subrange(a, b)) != binary_word() by {
        if b == n {
            if a < start {
                assert(v@[start - 1] == ',');
            } else if a > start {
                assert(v@[a - 1] == ',');
            }
        } else {
            assert(b < k);
        }
    }
    false
}

/// Whether the item `[start, k)` of `v`, trimmed, is `word`; when it is not, no item ending at `k`
/// trims to `word`.
fn item_is_binary(v: &Vec<char>, start: usize, k: usize, word: &Vec<char>) -> (r: bool)
    requires
        start <= k <= v.len(),
        start == 0 || v@[start - 1] == ',',
        forall|m: int| start <= m < k ==> v@[m] != ',',
        k == v.len() || v@[k as int] == ',',
    ensures
        r == (trim(v@.subrange(start as int, k as int)) == word@),
        !r ==> forall|a: int, b: int| is_item(v@, a, b) && b == k ==> trim(#[trigger] v@.subrange(a, b)) != word@,
{
    let (a2, b2) = trim_bounds(v, start, k);
    let r = range_equals(v, a2, b2, word);
    if !r {
        assert forall|a: int, b: int| is_item(v@, a, b) && b == k implies trim(#[trigger] v@.subrange(a, b)) != word@ by {
            if a < start {
                assert(v@[start - 1] == ',');
            } else if a > start {
                assert(v@[a - 1] == ',');
            }
        }
    }
    r
}

/// `String::from_utf8_lossy`: the text of `bytes`, with U+FFFD for each invalid sequence.
pub uninterp spec fn utf8_lossy(bytes: Seq<u8>) -> Seq<char>;

/// Calls `String::from_utf8_lossy`; the text is named by `utf8_lossy`.
#[verifier::external_body]
fn lossy_text(bytes: &[u8]) -> (r: String)
    ensures
        r@ == utf8_lossy(bytes@),
{
    String::from_utf8_lossy(bytes).into_owned()
}

/// A hexadecimal digit, lower case.
pub open spec fn hex_digit(d: int) -> char {
    if d < 10 {
        ('0' as int + d) as char
    } else {
        ('a' as int + d - 10) as char
    }
}

/// The shortest lower-case hexadecimal text of `n`.
pub open spec fn hex_text(n: nat) -> Seq<char>
    decreases n,
{
    if n < 16 {
        seq![hex_digit(n as int)]
    } else {
        hex_text(n / 16).push(hex_digit((n % 16) as int))
    }
}

/// `char::escape_default`: tab, carriage return, line feed, quotes and backslash as their two-character
/// escapes, printable ASCII (`0x20..=0x7e`) as itself, anything else as `\u{<hex>}`.
pub open spec fn char_escape(c: char) -> Seq<char> {
    if c == '\t' {
        seq!['\\', 't']
    } else if c == '\r' {
        seq!['\\', 'r']
    } else if c == '\n' {
        seq!['\\', 'n']
    } else if c == '\'' || c == '"' || c == '\\' {
        seq!['\\', c]
    } else if 0x20 <= (c as int) && (c as int) <= 0x7e {
        seq![c]
    } else {
        seq!['\\', 'u', '{'] + hex_text(c as nat) + seq!['}']
    }
}

/// `str::escape_default`: every character escaped by [`char_escape`], in order.
pub open spec fn escape_text(s: Seq<char>) -> Seq<char>
    decreases s.len(),
{
    if s.len() == 0 {
        Seq::empty()
    } else {
        escape_text(s.drop_last()) + char_escape(s.last())
    }
}

fn hex_digit_exec(d: u32) -> (c: char)
    requires
        d < 16,
    ensures
        c == hex_digit(d as int),
{
    if d < 10 {
        let b: u8 = 0x30 + d as u8;
        b as char
    } else {
        let b: u8 = 0x61 + (d - 10) as u8;
        b as char
    }
}

fn push_hex(out: &mut String, n: u32)
    ensures
        final(out)@ == old(out)@ + hex_text(n as nat),
    decreases n,
{
    if n >= 16 {
        push_hex(out, n / 16);
    }
    string_push(out, hex_digit_exec(n % 16));
    assert(out@ =~= old(out)@ + hex_text(n as nat));
}

fn push_escaped(out: &mut String, c: char)
    ensures
        final(out)@ == old(out)@ + char_escape(c),
{
    if c == '\t' {
        string_push(out, '\\');
        string_push(out, 't');
    } else if c == '\r' {
        string_push(out, '\\');
        string_push(out, 'r');
    } else if c == '\n' {
        string_push(out, '\\');
        string_push(out, 'n');
    } else if c == '\'' || c == '"' || c == '\\' {
        string_push(out, '\\');
        string_push(out, c);
    } else if ' ' <= c && c <= '~' {
        string_push(out, c);
    } else {
        string_push(out, '\\');
        string_push(out, 'u');
        string_push(out, '{');
        push_hex(out, c as u32);
        string_push(out, '}');
    }
    assert(out@ =~= old(out)@ + char_escape(c));
}

/// The text escaped as `str::escape_default` escapes it.
pub fn escape_default(text: &str) -> (r: String)
    ensures
        r@ == escape_text(text@),
{
    let v = chars_of(text);
    let mut r = String::new();
    let mut k: usize = 0;
    while k < v.len()
        invariant
            k <= v@.len(),
            v@ == text@,
            r@ == escape_text(v@.take(k as int)),
        decreases v@.len() - k,
    {
        push_escaped(&mut r, v[k]);
        proof {
            assert(v@.take(k + 1).drop_last() =~= v@.take(k as int));
        }
        k = k + 1;
    }
    assert(v@.take(v@.len() as int) =~= v@);
    r
}

/// The first [`PREVIEW_BYTES`] of a relayed chunk, decoded lossily and escaped for a log line.
pub fn preview(bytes: &[u8]) -> (r: String)
    ensures
        r@ == escape_text(
            utf8_lossy(bytes@.take(if bytes@.len() < PREVIEW_BYTES { bytes@.len() as int } else { PREVIEW_BYTES as int })),
        ),
{
    let end = if bytes.len() < PREVIEW_BYTES { bytes.len() } else { PREVIEW_BYTES };
    let mut head: Vec<u8> = Vec::new();
    let mut i: usize = 0;
    while i < end
        invariant
            end <= bytes@.len(),
            i <= end,
            head@ == bytes@.take(i as int),
        decreases end - i,
    {
        head.push(bytes[i]);
        i = i + 1;
        assert(head@ =~= bytes@.take(i as int));
    }
    let text = lossy_text(head.as_slice());
    escape_default(text.as_str())
}

} // verus!
