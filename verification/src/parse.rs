//! Reading the answer of a WireGuard device: lines of `key=value`, ended by
//! an empty line.

use crate::ip::{endpoint_of_text, find, ip_net_of_text, position, Endpoint, IpNet};
use crate::keys::{PublicKey, SecretKey};
use crate::text::{
    chars_of, copy_range, int_error_message, int_error_text, parse_i32, parse_unsigned, push_str,
    range_is, read_i32, read_unsigned, string_of, IntError,
};
use crate::time::Duration;
use crate::uapi::{
    time_since, upsert, Error, Interface, InterfaceView, Peer, PeerView, Response, ResponseView,
};
use vstd::prelude::*;
use vstd::string::StringExecFns;

verus! {

/// The key whose value could not be read, and why.
pub struct ParseFailure {
    pub key: Seq<char>,
    pub message: Seq<char>,
}

impl View for Error {
    type V = ParseFailure;

    open spec fn view(&self) -> ParseFailure {
        ParseFailure { key: self.spec_key(), message: self.spec_message() }
    }
}

/// Where the line that starts at `pos` ends: behind its line feed, or at the
/// end of the text.
pub open spec fn line_end(text: Seq<char>, pos: int) -> int {
    let nl = pos + position(text.subrange(pos, text.len() as int), '\n');
    if nl < text.len() {
        nl + 1
    } else {
        text.len() as int
    }
}

/// The line that starts at `pos` without its last character, which is the
/// line feed unless the text ends before one.
pub open spec fn command_at(text: Seq<char>, pos: int) -> Seq<char> {
    let end = line_end(text, pos);
    if end > pos {
        text.subrange(pos, end - 1)
    } else {
        Seq::empty()
    }
}

/// A peer while its lines are read: what was read so far, and the time of
/// the last handshake by the UNIX clock.
pub struct PeerAcc {
    pub peer: PeerView,
    pub handshake: Option<Duration>,
}

/// What a line of a peer leads to.
pub enum PeerStep {
    /// The peer goes on.
    More(PeerAcc),
    /// The next peer begins, with this key.
    Next(PublicKey),
    /// The answer's error code ends the peer.
    Errno(i32),
}

/// The seconds of a span fit 64 bits.
pub open spec fn span_fits(nanos: nat) -> bool {
    nanos < 0x1_0000_0000_0000_0000 * 1_000_000_000
}

/// What the line `key=val` does to a peer.
pub open spec fn peer_step(acc: PeerAcc, key: Seq<char>, val: Seq<char>) -> Result<
    PeerStep,
    ParseFailure,
> {
    if key == "endpoint"@ {
        match endpoint_of_text(val) {
            Some(e) => Ok(
                PeerStep::More(PeerAcc { peer: PeerView { endpoint: Some(e), ..acc.peer }, ..acc }),
            ),
            None => Err(ParseFailure { key, message: "invalid socket address syntax"@ }),
        }
    } else if key == "persistent_keepalive_interval"@ {
        match parse_unsigned(val, 0xffff_ffff) {
            Ok(v) => Ok(
                PeerStep::More(
                    PeerAcc {
                        peer: PeerView {
                            persistent_keepalive_interval: Some(v as u32),
                            ..acc.peer
                        },
                        ..acc
                    },
                ),
            ),
            Err(e) => Err(ParseFailure { key, message: int_error_message(e) }),
        }
    } else if key == "allowed_ip"@ {
        match ip_net_of_text(val) {
            Some(n) => Ok(
                PeerStep::More(
                    PeerAcc {
                        peer: PeerView { allowed_ips: acc.peer.allowed_ips.push(n), ..acc.peer },
                        ..acc
                    },
                ),
            ),
            None => Err(ParseFailure { key, message: "invalid address: "@ + val }),
        }
    } else if key == "rx_bytes"@ {
        match parse_unsigned(val, 0xffff_ffff_ffff_ffff) {
            Ok(v) => Ok(
                PeerStep::More(
                    PeerAcc { peer: PeerView { rx_bytes: Some(v as u64), ..acc.peer }, ..acc },
                ),
            ),
            Err(e) => Err(ParseFailure { key, message: int_error_message(e) }),
        }
    } else if key == "tx_bytes"@ {
        match parse_unsigned(val, 0xffff_ffff_ffff_ffff) {
            Ok(v) => Ok(
                PeerStep::More(
                    PeerAcc { peer: PeerView { tx_bytes: Some(v as u64), ..acc.peer }, ..acc },
                ),
            ),
            Err(e) => Err(ParseFailure { key, message: int_error_message(e) }),
        }
    } else if key == "last_handshake_time_nsec"@ || key == "last_handshake_time_sec"@ {
        match parse_unsigned(val, 0xffff_ffff_ffff_ffff) {
            Ok(v) => {
                let span = if key == "last_handshake_time_sec"@ {
                    v * 1_000_000_000
                } else {
                    v
                };
                let total = span + match acc.handshake {
                    Some(t) => t.spec_nanos(),
                    None => 0,
                };
                if span_fits(total) {
                    Ok(
                        PeerStep::More(
                            PeerAcc { handshake: Some(Duration::spec_of_nanos(total)), ..acc },
                        ),
                    )
                } else {
                    Err(ParseFailure { key, message: "overflow when adding durations"@ })
                }
            },
            Err(e) => Err(ParseFailure { key, message: int_error_message(e) }),
        }
    } else if key == "public_key"@ {
        match PublicKey::spec_from_hex(val) {
            Some(k) => Ok(PeerStep::Next(k)),
            None => Err(ParseFailure { key, message: "expected 64 hexadecimal digits"@ }),
        }
    } else if key == "errno"@ {
        match parse_i32(val) {
            Ok(v) => Ok(PeerStep::Errno(v as i32)),
            Err(e) => Err(ParseFailure { key, message: int_error_message(e) }),
        }
    } else {
        Ok(PeerStep::More(acc))
    }
}

/// How the lines of one peer ended.
pub struct PeerOutcome {
    pub acc: PeerAcc,
    /// The key of the peer that follows.
    pub next: Option<PublicKey>,
    /// The answer's error code, where it ended the peer.
    pub errno: Option<i32>,
    /// Where the reading goes on.
    pub pos: int,
}

/// Reads the lines of one peer from `pos` on: up to an empty line or the
/// end of the text, the key of the next peer, or the answer's error code.
pub open spec fn peer_lines(text: Seq<char>, pos: int, acc: PeerAcc) -> Result<
    PeerOutcome,
    ParseFailure,
>
    decreases text.len() - pos,
{
    let cmd = command_at(text, pos);
    let next = line_end(text, pos);
    if cmd.len() == 0 {
        Ok(PeerOutcome { acc, next: None, errno: None, pos: next })
    } else {
        let eq = position(cmd, '=');
        if eq == cmd.len() {
            Err(ParseFailure { key: "cmd"@, message: "not in A=B format"@ })
        } else {
            match peer_step(acc, cmd.subrange(0, eq), cmd.subrange(eq + 1, cmd.len() as int)) {
                Err(e) => Err(e),
                Ok(PeerStep::More(a)) => peer_lines(text, next, a),
                Ok(PeerStep::Next(k)) => Ok(
                    PeerOutcome { acc, next: Some(k), errno: None, pos: next },
                ),
                Ok(PeerStep::Errno(e)) => Ok(
                    PeerOutcome { acc, next: None, errno: Some(e), pos: next },
                ),
            }
        }
    }
}

/// The peer as it enters the interface: with the time since its last
/// handshake, by the clock's reading `now`.
pub open spec fn finish_peer(acc: PeerAcc, now: Option<Duration>) -> PeerView {
    PeerView {
        time_since_last_handshake: match now {
            Some(n) => time_since(acc.handshake, n),
            None => None,
        },
        ..acc.peer
    }
}

/// The answer while its lines are read.
pub struct TopState {
    pub interface: InterfaceView,
    /// A key of the interface or of a peer was met.
    pub inited: bool,
    pub errno: i32,
}

/// What a line of the interface leads to.
pub enum TopStep {
    More(TopState),
    /// The first peer begins, with this key.
    Peer(TopState, PublicKey),
}

/// What the line `key=val` does to the interface.
pub open spec fn top_step(st: TopState, key: Seq<char>, val: Seq<char>) -> Result<
    TopStep,
    ParseFailure,
> {
    if key == "private_key"@ {
        match SecretKey::spec_from_hex(val) {
            Some(k) => Ok(
                TopStep::More(
                    TopState {
                        interface: InterfaceView { private_key: Some(k), ..st.interface },
                        inited: true,
                        ..st
                    },
                ),
            ),
            None => Err(ParseFailure { key, message: "expected 64 hexadecimal digits"@ }),
        }
    } else if key == "listen_port"@ {
        match parse_unsigned(val, 0xffff) {
            Ok(v) => Ok(
                TopStep::More(
                    TopState {
                        interface: if v > 0 {
                            InterfaceView { listen_port: Some(v as u16), ..st.interface }
                        } else {
                            st.interface
                        },
                        inited: true,
                        ..st
                    },
                ),
            ),
            Err(e) => Err(ParseFailure { key, message: int_error_message(e) }),
        }
    } else if key == "fwmark"@ {
        match parse_unsigned(val, 0xffff_ffff) {
            Ok(v) => Ok(
                TopStep::More(
                    TopState {
                        interface: InterfaceView { fwmark: v as u32, ..st.interface },
                        inited: true,
                        ..st
                    },
                ),
            ),
            Err(e) => Err(ParseFailure { key, message: int_error_message(e) }),
        }
    } else if key == "public_key"@ {
        match PublicKey::spec_from_hex(val) {
            Some(k) => Ok(TopStep::Peer(TopState { inited: true, ..st }, k)),
            None => Err(ParseFailure { key, message: "expected 64 hexadecimal digits"@ }),
        }
    } else if key == "errno"@ {
        match parse_i32(val) {
            Ok(v) => Ok(TopStep::More(TopState { errno: v as i32, ..st })),
            Err(e) => Err(ParseFailure { key, message: int_error_message(e) }),
        }
    } else {
        Ok(TopStep::More(st))
    }
}

/// The answer that the lines read so far make.
pub open spec fn finish(st: TopState) -> ResponseView {
    ResponseView {
        errno: st.errno,
        interface: if st.inited {
            Some(st.interface)
        } else {
            None
        },
    }
}

/// The lines of a peer take the reading forward, and past at least one line
/// where they end with a key or an error code.
pub proof fn lemma_peer_lines_advance(text: Seq<char>, pos: int, acc: PeerAcc)
    requires
        0 <= pos <= text.len(),
    ensures
        peer_lines(text, pos, acc) matches Ok(o) ==> pos <= o.pos <= text.len() && (o.next is Some
            || o.errno is Some ==> pos < o.pos),
    decreases text.len() - pos,
{
    let cmd = command_at(text, pos);
    let next = line_end(text, pos);
    crate::ip::lemma_position(text.subrange(pos, text.len() as int), '\n');
    if cmd.len() != 0 {
        let eq = position(cmd, '=');
        if eq != cmd.len() {
            match peer_step(acc, cmd.subrange(0, eq), cmd.subrange(eq + 1, cmd.len() as int)) {
                Ok(PeerStep::More(a)) => {
                    lemma_peer_lines_advance(text, next, a);
                },
                _ => {},
            }
        }
    }
}

/// Reads the lines of the interface from `pos` on.
pub open spec fn parse_top(text: Seq<char>, pos: int, st: TopState, now: Option<Duration>) -> Result<
    ResponseView,
    ParseFailure,
>
    decreases text.len() - pos, 0int,
{
    let cmd = command_at(text, pos);
    let next = line_end(text, pos);
    if cmd.len() == 0 {
        Ok(finish(st))
    } else {
        let eq = position(cmd, '=');
        if eq == cmd.len() {
            Err(ParseFailure { key: "cmd"@, message: "not in A=B format"@ })
        } else {
            match top_step(st, cmd.subrange(0, eq), cmd.subrange(eq + 1, cmd.len() as int)) {
                Err(e) => Err(e),
                Ok(TopStep::More(s)) => parse_top(text, next, s, now),
                Ok(TopStep::Peer(s, k)) => parse_peers(text, next, s, k, now),
            }
        }
    }
}

/// Reads the peer with the given key from `pos` on, puts it into the
/// interface, and goes on with what follows it.
pub open spec fn parse_peers(
    text: Seq<char>,
    pos: int,
    st: TopState,
    key: PublicKey,
    now: Option<Duration>,
) -> Result<ResponseView, ParseFailure>
    decreases text.len() - pos, 1int,
{
    if 0 <= pos <= text.len() {
        match peer_lines(text, pos, PeerAcc { peer: PeerView::new(key), handshake: None }) {
            Err(e) => Err(e),
            Ok(o) => {
                proof {
                    lemma_peer_lines_advance(
                        text,
                        pos,
                        PeerAcc { peer: PeerView::new(key), handshake: None },
                    );
                }
                let with_peer = TopState {
                    interface: InterfaceView {
                        peers: upsert(st.interface.peers, finish_peer(o.acc, now)),
                        ..st.interface
                    },
                    ..st
                };
                match (o.errno, o.next) {
                    (Some(e), _) => parse_top(text, o.pos, TopState { errno: e, ..with_peer }, now),
                    (None, Some(k)) => parse_peers(text, o.pos, with_peer, k, now),
                    (None, None) => parse_top(text, o.pos, with_peer, now),
                }
            },
        }
    } else {
        Ok(finish(st))
    }
}

/// The answer that a text stands for, with the clock's reading `now`.
pub open spec fn response_of_text(text: Seq<char>, now: Option<Duration>) -> Result<
    ResponseView,
    ParseFailure,
> {
    parse_top(
        text,
        0,
        TopState { interface: InterfaceView::empty(), inited: false, errno: 0 },
        now,
    )
}


/// The end of the command of the line at `pos`, and where the next line starts.
fn next_command(chars: &Vec<char>, pos: usize) -> (r: (usize, usize))
    requires
        pos <= chars@.len(),
    ensures
        r.1 == line_end(chars@, pos as int),
        pos <= r.0 <= r.1 <= chars@.len(),
        chars@.subrange(pos as int, r.0 as int) == command_at(chars@, pos as int),
        r.0 > pos ==> r.1 > r.0,
{
    let nl = find(chars, pos, chars.len(), '\n');
    let next = if nl < chars.len() {
        nl + 1
    } else {
        chars.len()
    };
    let end = if next > pos {
        next - 1
    } else {
        pos
    };
    proof {
        assert(chars@.subrange(pos as int, pos as int) =~= Seq::<char>::empty());
    }
    (end, next)
}

fn int_failure(key: &'static str, e: IntError) -> (r: Error)
    ensures
        r@ == (ParseFailure { key: key@, message: int_error_message(e) }),
{
    Error::ParsingError(key, int_error_text(e))
}

fn failure(key: &'static str, message: &str) -> (r: Error)
    ensures
        r@ == (ParseFailure { key: key@, message: message@ }),
{
    Error::ParsingError(key, String::from_str(message))
}

/// What a line of a peer led to, the peer itself being changed in place.
enum Flow {
    More,
    Next(PublicKey),
    Errno(i32),
}

/// Adds a span to the time of the last handshake.
fn add_handshake(handshake: &mut Option<Duration>, span: Duration) -> (fits: bool)
    requires
        span.wf(),
        *old(handshake) matches Some(t) ==> t.wf(),
    ensures
        fits == span_fits(
            span.spec_nanos() + match *old(handshake) {
                Some(t) => t.spec_nanos(),
                None => 0,
            },
        ),
        fits ==> *final(handshake) == Some(
            Duration::spec_of_nanos(
                span.spec_nanos() + match *old(handshake) {
                    Some(t) => t.spec_nanos(),
                    None => 0,
                },
            ),
        ),
        !fits ==> *final(handshake) == *old(handshake),
        *final(handshake) matches Some(t) ==> t.wf(),
{
    let total = match *handshake {
        Some(t) => t.checked_add(&span),
        None => Some(span),
    };
    match total {
        Some(t) => {
            proof {
                crate::time::lemma_duration_by_nanos(t, Duration::spec_of_nanos(t.spec_nanos()));
            }
            *handshake = Some(t);
            true
        },
        None => false,
    }
}

/// Applies the line whose key stands from `k0` up to `k1` and whose value
/// stands behind the `=` up to `v1` to a peer.
fn read_peer_line(
    peer: &mut Peer,
    handshake: &mut Option<Duration>,
    chars: &Vec<char>,
    k0: usize,
    k1: usize,
    v1: usize,
) -> (r: Result<Flow, Error>)
    requires
        k0 <= k1 < v1 <= chars@.len(),
        old(peer).wf(),
        *old(handshake) matches Some(t) ==> t.wf(),
    ensures
        final(peer).wf(),
        *final(handshake) matches Some(t) ==> t.wf(),
        match peer_step(
            PeerAcc { peer: old(peer)@, handshake: *old(handshake) },
            chars@.subrange(k0 as int, k1 as int),
            chars@.subrange(k1 + 1, v1 as int),
        ) {
            Ok(PeerStep::More(a)) => r matches Ok(Flow::More) && final(peer)@ == a.peer
                && *final(handshake) == a.handshake,
            Ok(PeerStep::Next(k)) => r matches Ok(Flow::Next(x)) && x == k && final(peer)@ == old(
                peer,
            )@ && *final(handshake) == *old(handshake),
            Ok(PeerStep::Errno(e)) => r matches Ok(Flow::Errno(x)) && x == e && final(peer)@
                == old(peer)@ && *final(handshake) == *old(handshake),
            Err(f) => r matches Err(e) && e@ == f,
        },
{
    let v0 = k1 + 1;
    if range_is(chars, k0, k1, "endpoint") {
        match Endpoint::parse(chars, v0, v1) {
            Some(e) => {
                peer.endpoint = Some(e);
                Ok(Flow::More)
            },
            None => Err(failure("endpoint", "invalid socket address syntax")),
        }
    } else if range_is(chars, k0, k1, "persistent_keepalive_interval") {
        match read_unsigned(chars, v0, v1, 0xffff_ffff) {
            Ok(v) => {
                peer.persistent_keepalive_interval = Some(v as u32);
                Ok(Flow::More)
            },
            Err(e) => Err(int_failure("persistent_keepalive_interval", e)),
        }
    } else if range_is(chars, k0, k1, "allowed_ip") {
        match IpNet::parse(chars, v0, v1) {
            Some(n) => {
                peer.allowed_ips.push(n);
                Ok(Flow::More)
            },
            None => {
                let mut message: Vec<char> = Vec::new();
                push_str(&mut message, "invalid address: ");
                let val = copy_range(chars, v0, v1);
                crate::text::push_chars(&mut message, &val);
                Err(Error::ParsingError("allowed_ip", string_of(&message)))
            },
        }
    } else if range_is(chars, k0, k1, "rx_bytes") {
        match read_unsigned(chars, v0, v1, 0xffff_ffff_ffff_ffff) {
            Ok(v) => {
                peer.rx_bytes = Some(v);
                Ok(Flow::More)
            },
            Err(e) => Err(int_failure("rx_bytes", e)),
        }
    } else if range_is(chars, k0, k1, "tx_bytes") {
        match read_unsigned(chars, v0, v1, 0xffff_ffff_ffff_ffff) {
            Ok(v) => {
                peer.tx_bytes = Some(v);
                Ok(Flow::More)
            },
            Err(e) => Err(int_failure("tx_bytes", e)),
        }
    } else if range_is(chars, k0, k1, "last_handshake_time_nsec") {
        proof {
            lemma_handshake_keys_differ();
        }
        match read_unsigned(chars, v0, v1, 0xffff_ffff_ffff_ffff) {
            Ok(v) => {
                if add_handshake(handshake, Duration::from_nanos(v)) {
                    Ok(Flow::More)
                } else {
                    Err(failure("last_handshake_time_nsec", "overflow when adding durations"))
                }
            },
            Err(e) => Err(int_failure("last_handshake_time_nsec", e)),
        }
    } else if range_is(chars, k0, k1, "last_handshake_time_sec") {
        match read_unsigned(chars, v0, v1, 0xffff_ffff_ffff_ffff) {
            Ok(v) => {
                if add_handshake(handshake, Duration::from_secs(v)) {
                    Ok(Flow::More)
                } else {
                    Err(failure("last_handshake_time_sec", "overflow when adding durations"))
                }
            },
            Err(e) => Err(int_failure("last_handshake_time_sec", e)),
        }
    } else if range_is(chars, k0, k1, "public_key") {
        let val = copy_range(chars, v0, v1);
        match PublicKey::from_hex_chars(&val) {
            Some(k) => Ok(Flow::Next(k)),
            None => Err(failure("public_key", "expected 64 hexadecimal digits")),
        }
    } else if range_is(chars, k0, k1, "errno") {
        match read_i32(chars, v0, v1) {
            Ok(v) => Ok(Flow::Errno(v)),
            Err(e) => Err(int_failure("errno", e)),
        }
    } else {
        Ok(Flow::More)
    }
}

/// The two keys of the handshake time are different texts.
proof fn lemma_handshake_keys_differ()
    ensures
        "last_handshake_time_sec"@ != "last_handshake_time_nsec"@,
{
    reveal_strlit("last_handshake_time_sec");
    reveal_strlit("last_handshake_time_nsec");
    assert("last_handshake_time_sec"@.len() != "last_handshake_time_nsec"@.len());
}

/// Reads the lines of the peer with the given key from `pos` on. Gives the
/// peer, the key of the peer that follows, the error code where it ended
/// the peer, and where the reading goes on.
pub fn parse_peer(chars: &Vec<char>, pos: usize, public_key: PublicKey, now: Option<Duration>) -> (r:
    Result<(Peer, Option<PublicKey>, Option<i32>, usize), Error>)
    requires
        pos <= chars@.len(),
        now matches Some(n) ==> n.wf(),
    ensures
        match peer_lines(
            chars@,
            pos as int,
            PeerAcc { peer: PeerView::new(public_key), handshake: None },
        ) {
            Ok(o) => r matches Ok(out) && out.0@ == finish_peer(o.acc, now) && out.1 == o.next
                && out.2 == o.errno && out.3 == o.pos && out.0.wf() && pos <= out.3
                <= chars@.len() && (out.1 is Some || out.2 is Some ==> pos < out.3),
            Err(f) => r matches Err(e) && e@ == f,
        },
{
    let ghost start = PeerAcc { peer: PeerView::new(public_key), handshake: None };
    let mut peer = Peer::new(public_key);
    let mut handshake: Option<Duration> = None;
    let mut at: usize = pos;
    let mut next_key: Option<PublicKey> = None;
    let mut errno: Option<i32> = None;
    let mut done = false;
    proof {
        lemma_peer_lines_advance(chars@, pos as int, start);
    }
    while !done
        invariant
            pos <= at <= chars@.len(),
            start == (PeerAcc { peer: PeerView::new(public_key), handshake: None }),
            !done ==> next_key is None && errno is None,
            peer.wf(),
            handshake matches Some(t) ==> t.wf(),
            !done ==> peer_lines(chars@, pos as int, start) == peer_lines(
                chars@,
                at as int,
                PeerAcc { peer: peer@, handshake },
            ),
            done ==> peer_lines(chars@, pos as int, start) == Ok::<PeerOutcome, ParseFailure>(
                PeerOutcome {
                    acc: PeerAcc { peer: peer@, handshake },
                    next: next_key,
                    errno,
                    pos: at as int,
                },
            ),
        decreases
                (if done {
                    0int
                } else {
                    1int
                }),
                chars@.len() - at,
    {
        let (end, next) = next_command(chars, at);
        if end == at {
            at = next;
            done = true;
        } else {
            let eq = find(chars, at, end, '=');
            let ghost cmd = chars@.subrange(at as int, end as int);
            if eq == end {
                return Err(failure("cmd", "not in A=B format"));
            }
            proof {
                assert(cmd.subrange(0, eq - at) =~= chars@.subrange(at as int, eq as int));
                assert(cmd.subrange(eq - at + 1, cmd.len() as int) =~= chars@.subrange(
                    eq + 1,
                    end as int,
                ));
            }
            match read_peer_line(&mut peer, &mut handshake, chars, at, eq, end) {
                Err(e) => {
                    return Err(e);
                },
                Ok(Flow::More) => {
                    at = next;
                },
                Ok(Flow::Next(k)) => {
                    next_key = Some(k);
                    at = next;
                    done = true;
                },
                Ok(Flow::Errno(e)) => {
                    errno = Some(e);
                    at = next;
                    done = true;
                },
            }
        }
    }
    peer.time_since_last_handshake = match now {
        Some(n) => Peer::calculate_time_since_last_handshake_at(handshake, n),
        None => None,
    };
    Ok((peer, next_key, errno, at))
}

/// Applies the line whose key stands from `k0` up to `k1` and whose value
/// stands behind the `=` up to `v1` to the interface. Gives the key of the
/// first peer where the line begins one.
fn read_interface_line(
    interface: &mut Interface,
    inited: &mut bool,
    errno: &mut i32,
    chars: &Vec<char>,
    k0: usize,
    k1: usize,
    v1: usize,
) -> (r: Result<Option<PublicKey>, Error>)
    requires
        k0 <= k1 < v1 <= chars@.len(),
        old(interface).wf(),
    ensures
        final(interface).wf(),
        old(interface).peers_wf() ==> final(interface).peers_wf(),
        match top_step(
            TopState { interface: old(interface)@, inited: *old(inited), errno: *old(errno) },
            chars@.subrange(k0 as int, k1 as int),
            chars@.subrange(k1 + 1, v1 as int),
        ) {
            Ok(TopStep::More(s)) => r matches Ok(None) && s == (TopState {
                interface: final(interface)@,
                inited: *final(inited),
                errno: *final(errno),
            }),
            Ok(TopStep::Peer(s, k)) => r matches Ok(Some(x)) && x == k && s == (TopState {
                interface: final(interface)@,
                inited: *final(inited),
                errno: *final(errno),
            }),
            Err(f) => r matches Err(e) && e@ == f,
        },
{
    let v0 = k1 + 1;
    if range_is(chars, k0, k1, "private_key") {
        let val = copy_range(chars, v0, v1);
        match SecretKey::from_hex_chars(&val) {
            Some(k) => {
                *inited = true;
                interface.private_key = Some(k);
                Ok(None)
            },
            None => Err(failure("private_key", "expected 64 hexadecimal digits")),
        }
    } else if range_is(chars, k0, k1, "listen_port") {
        match read_unsigned(chars, v0, v1, 0xffff) {
            Ok(v) => {
                *inited = true;
                if v > 0 {
                    interface.listen_port = Some(v as u16);
                }
                Ok(None)
            },
            Err(e) => Err(int_failure("listen_port", e)),
        }
    } else if range_is(chars, k0, k1, "fwmark") {
        match read_unsigned(chars, v0, v1, 0xffff_ffff) {
            Ok(v) => {
                *inited = true;
                interface.fwmark = v as u32;
                Ok(None)
            },
            Err(e) => Err(int_failure("fwmark", e)),
        }
    } else if range_is(chars, k0, k1, "public_key") {
        let val = copy_range(chars, v0, v1);
        match PublicKey::from_hex_chars(&val) {
            Some(k) => {
                *inited = true;
                Ok(Some(k))
            },
            None => Err(failure("public_key", "expected 64 hexadecimal digits")),
        }
    } else if range_is(chars, k0, k1, "errno") {
        match read_i32(chars, v0, v1) {
            Ok(v) => {
                *errno = v;
                Ok(None)
            },
            Err(e) => Err(int_failure("errno", e)),
        }
    } else {
        Ok(None)
    }
}

/// Reads an answer from its characters, with the clock's reading `now` for
/// the time since each peer's last handshake.
pub fn response_from_chars(chars: &Vec<char>, now: Option<Duration>) -> (r: Result<Response, Error>)
    requires
        now matches Some(n) ==> n.wf(),
    ensures
        match response_of_text(chars@, now) {
            Ok(v) => r matches Ok(resp) && resp@ == v && (resp.interface matches Some(itf)
                ==> itf.wf() && itf.peers_wf()),
            Err(f) => r matches Err(e) && e@ == f,
        },
{
    let mut interface = Interface::new();
    let mut inited = false;
    let mut errno: i32 = 0;
    let mut at: usize = 0;
    let mut done = false;
    while !done
        invariant
            at <= chars@.len(),
            interface.wf(),
            interface.peers_wf(),
            response_of_text(chars@, now) == if done {
                Ok::<ResponseView, ParseFailure>(
                    finish(TopState { interface: interface@, inited, errno }),
                )
            } else {
                parse_top(chars@, at as int, TopState { interface: interface@, inited, errno }, now)
            },
            now matches Some(n) ==> n.wf(),
        decreases
                (if done {
                    0int
                } else {
                    1int
                }),
                chars@.len() - at,
    {
        let (end, next) = next_command(chars, at);
        if end == at {
            done = true;
        } else {
            let eq = find(chars, at, end, '=');
            let ghost cmd = chars@.subrange(at as int, end as int);
            if eq == end {
                return Err(failure("cmd", "not in A=B format"));
            }
            proof {
                assert(cmd.subrange(0, eq - at) =~= chars@.subrange(at as int, eq as int));
                assert(cmd.subrange(eq - at + 1, cmd.len() as int) =~= chars@.subrange(
                    eq + 1,
                    end as int,
                ));
            }
            match read_interface_line(&mut interface, &mut inited, &mut errno, chars, at, eq, end) {
                Err(e) => {
                    return Err(e);
                },
                Ok(None) => {
                    at = next;
                },
                Ok(Some(first)) => {
                    at = next;
                    let mut public = first;
                    let mut more = true;
                    while more
                        invariant
                            next <= at <= chars@.len(),
                            interface.wf(),
                            interface.peers_wf(),
                            now matches Some(n) ==> n.wf(),
                            response_of_text(chars@, now) == if more {
                                parse_peers(
                                    chars@,
                                    at as int,
                                    TopState { interface: interface@, inited, errno },
                                    public,
                                    now,
                                )
                            } else {
                                parse_top(
                                    chars@,
                                    at as int,
                                    TopState { interface: interface@, inited, errno },
                                    now,
                                )
                            },
                        decreases
                                (if more {
                                    1int
                                } else {
                                    0int
                                }),
                                chars@.len() - at,
                    {
                        match parse_peer(chars, at, public, now) {
                            Err(e) => {
                                return Err(e);
                            },
                            Ok((peer, following, code, end)) => {
                                interface.insert_peer(peer);
                                at = end;
                                match (code, following) {
                                    (Some(e), _) => {
                                        errno = e;
                                        more = false;
                                    },
                                    (None, Some(k)) => {
                                        public = k;
                                    },
                                    (None, None) => {
                                        more = false;
                                    },
                                }
                            },
                        }
                    }
                },
            }
        }
    }
    Ok(
        Response {
            errno,
            interface: if inited {
                Some(interface)
            } else {
                None
            },
        },
    )
}

/// Reads an answer from a text, with the clock's reading `now`.
pub fn response_from_str_at(text: &str, now: Option<Duration>) -> (r: Result<Response, Error>)
    requires
        now matches Some(n) ==> n.wf(),
    ensures
        match response_of_text(text@, now) {
            Ok(v) => r matches Ok(resp) && resp@ == v && (resp.interface matches Some(itf)
                ==> itf.wf() && itf.peers_wf()),
            Err(f) => r matches Err(e) && e@ == f,
        },
{
    let chars = chars_of(text);
    response_from_chars(&chars, now)
}


/// Whether a result is the given answer or failure.
pub open spec fn answers(r: Result<Response, Error>, v: Result<ResponseView, ParseFailure>) -> bool {
    match v {
        Ok(x) => r matches Ok(resp) && resp@ == x,
        Err(f) => r matches Err(e) && e@ == f,
    }
}

/// Reads an answer from a text. The time since each peer's last handshake
/// is taken by the clock of the machine, so the result is the answer that
/// the text stands for at some reading of the clock, or at none.
pub fn response_from_str(text: &str) -> (r: Result<Response, Error>)
    ensures
        exists|now: Option<Duration>| #[trigger] answers(r, response_of_text(text@, now)),
        r matches Ok(resp) ==> (resp.interface matches Some(itf) ==> itf.wf() && itf.peers_wf()),
{
    let now = crate::uapi::unix_time();
    let r = response_from_str_at(text, now);
    proof {
        assert(answers(r, response_of_text(text@, now)));
    }
    r
}

} // verus!
