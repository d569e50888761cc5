//! What is written as a request to set an interface reads back as that
//! interface.

use crate::cmd::{
    allowed_ips_text, cmd_text, line, set_device_of, set_head_text, set_peer_body, set_peer_of,
    set_peer_text, set_peers_text, CmdView, SetPeerView,
};
use crate::ip::{endpoint_of_text, ip_net_of_text, lemma_position_is, position, Endpoint, IpNet};
use crate::keys::{
    hex_text, lemma_public_key_hex_round_trip, lemma_secret_key_hex_round_trip, PublicKey,
    SecretKey,
};
use crate::parse::{
    command_at, finish, finish_peer, line_end, parse_peers, parse_top, peer_lines, peer_step,
    response_of_text, top_step, ParseFailure, PeerAcc, PeerOutcome, PeerStep, TopState, TopStep,
};
use crate::text::{decimal_text, is_digit, lemma_decimal_round_trip, lemma_decimal_text_digits};
use crate::time::Duration;
use crate::cmd::Cmd;
use crate::uapi::{keys_sorted, upsert, Interface, InterfaceView, Peer, PeerView, ResponseView};
use vstd::prelude::*;

verus! {

/// The text from `pos` on.
pub open spec fn tail(text: Seq<char>, pos: int) -> Seq<char> {
    text.subrange(pos, text.len() as int)
}

/// The text holds no line feed.
pub open spec fn no_line_feed(s: Seq<char>) -> bool {
    forall|i: int| 0 <= i < s.len() ==> s[i] != '\n'
}

/// The text can stand as a key: it holds neither a line feed nor `=`.
pub open spec fn plain_key(s: Seq<char>) -> bool {
    forall|i: int| 0 <= i < s.len() ==> s[i] != '\n' && s[i] != '='
}

/// A line that begins at `pos` is found there: its command is `key=value`,
/// split at the first `=`, and the next line begins behind it.
pub proof fn lemma_line_at(text: Seq<char>, pos: int, key: Seq<char>, val: Seq<char>, rest: Seq<char>)
    requires
        0 <= pos <= text.len(),
        tail(text, pos) == line(key, val) + rest,
        plain_key(key),
        no_line_feed(val),
    ensures
        command_at(text, pos) == key + seq!['='] + val,
        command_at(text, pos).len() > 0,
        line_end(text, pos) == pos + line(key, val).len(),
        line_end(text, pos) <= text.len(),
        tail(text, line_end(text, pos)) == rest,
        position(command_at(text, pos), '=') == key.len(),
        command_at(text, pos).subrange(0, key.len() as int) == key,
        command_at(text, pos).subrange(key.len() as int + 1, command_at(text, pos).len() as int) == val,
{
    let t = tail(text, pos);
    let l = line(key, val);
    let n = key.len() + 1 + val.len();
    assert(l.len() == n + 1);
    assert(t.len() == l.len() + rest.len());
    assert forall|i: int| 0 <= i < n implies t[i] != '\n' by {
        assert(t[i] == l[i]);
        if i < key.len() {
            assert(l[i] == key[i]);
        } else if i == key.len() {
            assert(l[i] == '=');
        } else {
            assert(l[i] == val[i - key.len() - 1]);
        }
    }
    assert(t[n as int] == l[n as int]);
    assert(l[n as int] == '\n');
    lemma_position_is(t, '\n', n as int);
    let end = line_end(text, pos);
    assert(end == pos + n + 1);
    let cmd = command_at(text, pos);
    assert(cmd =~= key + seq!['='] + val) by {
        assert(cmd.len() == n);
        assert forall|i: int| 0 <= i < n implies cmd[i] == (key + seq!['='] + val)[i] by {
            assert(cmd[i] == text[pos + i]);
            assert(t[i] == text[pos + i]);
            assert(t[i] == l[i]);
        }
    }
    assert(tail(text, end) =~= rest) by {
        assert forall|i: int| 0 <= i < rest.len() implies tail(text, end)[i] == rest[i] by {
            assert(tail(text, end)[i] == text[end + i]);
            assert(t[n + 1 + i] == text[pos + n + 1 + i]);
        }
    }
    assert forall|i: int| 0 <= i < key.len() implies cmd[i] != '=' by {
        assert(cmd[i] == key[i]);
    }
    assert(cmd[key.len() as int] == '=');
    lemma_position_is(cmd, '=', key.len() as int);
    assert(cmd.subrange(0, key.len() as int) =~= key);
    assert(cmd.subrange(key.len() as int + 1, cmd.len() as int) =~= val);
}

/// An empty line at `pos` is found there.
pub proof fn lemma_blank_at(text: Seq<char>, pos: int, rest: Seq<char>)
    requires
        0 <= pos <= text.len(),
        tail(text, pos) == seq!['\n'] + rest,
    ensures
        command_at(text, pos).len() == 0,
        line_end(text, pos) == pos + 1,
        tail(text, pos + 1) == rest,
{
    let t = tail(text, pos);
    assert(t.len() == 1 + rest.len()) by {
        assert(seq!['\n'].len() == 1);
    }
    assert(t[0] == '\n');
    lemma_position_is(t, '\n', 0);
    assert(tail(text, pos + 1) =~= rest) by {
        assert forall|i: int| 0 <= i < rest.len() implies tail(text, pos + 1)[i] == rest[i] by {
            assert(t[1 + i] == text[pos + 1 + i]);
        }
    }
}

/// At the end of the text there is no command.
pub proof fn lemma_end_at(text: Seq<char>)
    ensures
        command_at(text, text.len() as int).len() == 0,
{
    let t = tail(text, text.len() as int);
    assert(t.len() == 0);
}

/// The keys of the protocol are plain, and no two of them are the same.
pub proof fn lemma_keys()
    ensures
        plain_key("set"@),
        plain_key("private_key"@),
        plain_key("listen_port"@),
        plain_key("fwmark"@),
        plain_key("public_key"@),
        plain_key("endpoint"@),
        plain_key("persistent_keepalive_interval"@),
        plain_key("allowed_ip"@),
        "set"@.len() == 3,
        "private_key"@.len() == 11 && "private_key"@[0] == 'p' && "private_key"@[1] == 'r',
        "listen_port"@.len() == 11 && "listen_port"@[0] == 'l',
        "fwmark"@.len() == 6,
        "public_key"@.len() == 10 && "public_key"@[0] == 'p' && "public_key"@[1] == 'u',
        "errno"@.len() == 5,
        "endpoint"@.len() == 8 && "endpoint"@[0] == 'e',
        "persistent_keepalive_interval"@.len() == 29,
        "allowed_ip"@.len() == 10 && "allowed_ip"@[0] == 'a',
        "rx_bytes"@.len() == 8 && "rx_bytes"@[0] == 'r',
        "tx_bytes"@.len() == 8 && "tx_bytes"@[0] == 't',
        "last_handshake_time_nsec"@.len() == 24,
        "last_handshake_time_sec"@.len() == 23,
        "1"@.len() == 1 && "1"@[0] == '1',
{
    reveal_strlit("set");
    reveal_strlit("private_key");
    reveal_strlit("listen_port");
    reveal_strlit("fwmark");
    reveal_strlit("public_key");
    reveal_strlit("errno");
    reveal_strlit("endpoint");
    reveal_strlit("persistent_keepalive_interval");
    reveal_strlit("allowed_ip");
    reveal_strlit("rx_bytes");
    reveal_strlit("tx_bytes");
    reveal_strlit("last_handshake_time_nsec");
    reveal_strlit("last_handshake_time_sec");
    reveal_strlit("1");
}

/// A line of the interface that leaves it an interface takes the reading
/// to the next line.
pub proof fn lemma_top_line(
    text: Seq<char>,
    pos: int,
    st: TopState,
    key: Seq<char>,
    val: Seq<char>,
    rest: Seq<char>,
    after: TopState,
    now: Option<Duration>,
)
    requires
        0 <= pos <= text.len(),
        tail(text, pos) == line(key, val) + rest,
        plain_key(key),
        no_line_feed(val),
        top_step(st, key, val) == Ok::<TopStep, ParseFailure>(TopStep::More(after)),
    ensures
        parse_top(text, pos, st, now) == parse_top(text, pos + line(key, val).len(), after, now),
        tail(text, pos + line(key, val).len()) == rest,
        pos + line(key, val).len() <= text.len(),
{
    lemma_line_at(text, pos, key, val, rest);
}

/// A line of a peer that leaves the peer open takes the reading to the next line.
pub proof fn lemma_peer_line(
    text: Seq<char>,
    pos: int,
    acc: PeerAcc,
    key: Seq<char>,
    val: Seq<char>,
    rest: Seq<char>,
    after: PeerAcc,
)
    requires
        0 <= pos <= text.len(),
        tail(text, pos) == line(key, val) + rest,
        plain_key(key),
        no_line_feed(val),
        peer_step(acc, key, val) == Ok::<PeerStep, ParseFailure>(PeerStep::More(after)),
    ensures
        peer_lines(text, pos, acc) == peer_lines(text, pos + line(key, val).len(), after),
        tail(text, pos + line(key, val).len()) == rest,
        pos + line(key, val).len() <= text.len(),
{
    lemma_line_at(text, pos, key, val, rest);
}

/// The hexadecimal text of a key is plain.
pub proof fn lemma_hex_plain(bytes: Seq<u8>)
    ensures
        no_line_feed(hex_text(bytes)),
{
    assert forall|i: int| 0 <= i < hex_text(bytes).len() implies hex_text(bytes)[i] != '\n' by {
        let b = bytes[i / 2] as nat;
        assert(b / 16 < 16 && b % 16 < 16);
    }
}

/// The decimal text of a number is plain.
pub proof fn lemma_decimal_plain(v: nat)
    ensures
        no_line_feed(decimal_text(v)),
{
    lemma_decimal_text_digits(v);
    assert forall|i: int| 0 <= i < decimal_text(v).len() implies decimal_text(v)[i] != '\n' by {
        assert(is_digit(decimal_text(v)[i]));
    }
}


/// The text of the endpoint holds no line feed and reads back as the endpoint.
pub open spec fn endpoint_reads_back(e: Endpoint) -> bool {
    no_line_feed(e.spec_text()) && endpoint_of_text(e.spec_text()) == Some(e)
}

/// The text of the network holds no line feed and reads back as the network.
pub open spec fn net_reads_back(n: IpNet) -> bool {
    no_line_feed(n.spec_text()) && ip_net_of_text(n.spec_text()) == Some(n)
}

/// A peer of which a request to set it says everything: it has no
/// counters and no handshake, its keepalive interval fits 16 bits, each of
/// its allowed networks is the lowest address of itself, and the texts of
/// its addresses read back.
pub open spec fn settable(p: PeerView) -> bool {
    &&& p.rx_bytes is None
    &&& p.tx_bytes is None
    &&& p.time_since_last_handshake is None
    &&& p.persistent_keepalive_interval matches Some(k) ==> k <= 0xffff
    &&& p.endpoint matches Some(e) ==> endpoint_reads_back(e)
    &&& forall|j: int|
        0 <= j < p.allowed_ips.len() ==> net_reads_back(#[trigger] p.allowed_ips[j])
            && p.allowed_ips[j].spec_network() == p.allowed_ips[j]
}

/// The lines of some networks begin with the line of the first.
pub proof fn lemma_allowed_ips_front(ips: Seq<IpNet>)
    requires
        ips.len() > 0,
    ensures
        allowed_ips_text(ips) == line("allowed_ip"@, ips[0].spec_text()) + allowed_ips_text(
            ips.drop_first(),
        ),
    decreases ips.len(),
{
    if ips.len() == 1 {
        assert(ips.drop_last() =~= Seq::<IpNet>::empty());
        assert(ips.drop_first() =~= Seq::<IpNet>::empty());
        assert(allowed_ips_text(ips) =~= line("allowed_ip"@, ips[0].spec_text())
            + allowed_ips_text(ips.drop_first()));
    } else {
        lemma_allowed_ips_front(ips.drop_last());
        assert(ips.drop_last().drop_first() =~= ips.drop_first().drop_last());
        assert(ips.drop_last()[0] == ips[0]);
        assert(ips.drop_first().last() == ips.last());
        assert(allowed_ips_text(ips) =~= line("allowed_ip"@, ips[0].spec_text())
            + allowed_ips_text(ips.drop_first()));
    }
}

/// The lines of some networks are read as those networks, in their order.
pub proof fn lemma_read_allowed_ips(
    text: Seq<char>,
    pos: int,
    acc: PeerAcc,
    ips: Seq<IpNet>,
    rest: Seq<char>,
)
    requires
        0 <= pos <= text.len(),
        tail(text, pos) == allowed_ips_text(ips) + rest,
        forall|j: int| 0 <= j < ips.len() ==> net_reads_back(#[trigger] ips[j]),
    ensures
        peer_lines(text, pos, acc) == peer_lines(
            text,
            pos + allowed_ips_text(ips).len(),
            PeerAcc {
                peer: PeerView { allowed_ips: acc.peer.allowed_ips + ips, ..acc.peer },
                ..acc
            },
        ),
        tail(text, pos + allowed_ips_text(ips).len()) == rest,
        pos + allowed_ips_text(ips).len() <= text.len(),
    decreases ips.len(),
{
    if ips.len() == 0 {
        assert(acc.peer.allowed_ips + ips =~= acc.peer.allowed_ips);
        assert(allowed_ips_text(ips) + rest =~= rest);
    } else {
        lemma_keys();
        lemma_allowed_ips_front(ips);
        let val = ips[0].spec_text();
        let l = line("allowed_ip"@, val);
        let more = allowed_ips_text(ips.drop_first());
        assert(tail(text, pos) =~= l + (more + rest));
        let after = PeerAcc {
            peer: PeerView { allowed_ips: acc.peer.allowed_ips.push(ips[0]), ..acc.peer },
            ..acc
        };
        assert(net_reads_back(ips[0]));
        assert("allowed_ip"@ != "endpoint"@);
        assert("allowed_ip"@ != "persistent_keepalive_interval"@);
        lemma_peer_line(text, pos, acc, "allowed_ip"@, val, more + rest, after);
        assert forall|j: int| 0 <= j < ips.drop_first().len() implies net_reads_back(
            #[trigger] ips.drop_first()[j],
        ) by {
            assert(ips.drop_first()[j] == ips[j + 1]);
        }
        lemma_read_allowed_ips(text, pos + l.len(), after, ips.drop_first(), rest);
        assert(acc.peer.allowed_ips.push(ips[0]) + ips.drop_first() =~= acc.peer.allowed_ips
            + ips);
        assert(allowed_ips_text(ips).len() == l.len() + more.len());
    }
}

/// The lines that a peer is set with are read as the peer.
pub proof fn lemma_read_peer_body(text: Seq<char>, pos: int, p: PeerView, rest: Seq<char>)
    requires
        0 <= pos <= text.len(),
        tail(text, pos) == set_peer_body(set_peer_of(p)) + rest,
        settable(p),
    ensures
        peer_lines(text, pos, PeerAcc { peer: PeerView::new(p.public_key), handshake: None })
            == peer_lines(
            text,
            pos + set_peer_body(set_peer_of(p)).len(),
            PeerAcc { peer: p, handshake: None },
        ),
        tail(text, pos + set_peer_body(set_peer_of(p)).len()) == rest,
        pos + set_peer_body(set_peer_of(p)).len() <= text.len(),
{
    lemma_keys();
    let sp = set_peer_of(p);
    let acc0 = PeerAcc { peer: PeerView::new(p.public_key), handshake: None };
    let e_line = match p.endpoint {
        Some(e) => line("endpoint"@, e.spec_text()),
        None => Seq::<char>::empty(),
    };
    let k_line = match p.persistent_keepalive_interval {
        Some(k) => line("persistent_keepalive_interval"@, decimal_text(k as nat)),
        None => Seq::<char>::empty(),
    };
    assert(sp.allowed_ips =~= p.allowed_ips);
    let ips_text = allowed_ips_text(p.allowed_ips);
    assert(set_peer_body(sp) =~= e_line + k_line + ips_text) by {
        if let Some(k) = p.persistent_keepalive_interval {
            assert(((k % 0x1_0000) as u16) as nat == k as nat);
        }
    }
    assert(tail(text, pos) =~= e_line + (k_line + ips_text + rest));
    let acc1 = PeerAcc { peer: PeerView { endpoint: p.endpoint, ..acc0.peer }, ..acc0 };
    let pos1 = pos + e_line.len();
    assert(peer_lines(text, pos, acc0) == peer_lines(text, pos1, acc1) && tail(text, pos1)
        == k_line + ips_text + rest && pos1 <= text.len()) by {
        match p.endpoint {
            Some(e) => {
                lemma_peer_line(
                    text,
                    pos,
                    acc0,
                    "endpoint"@,
                    e.spec_text(),
                    k_line + ips_text + rest,
                    acc1,
                );
            },
            None => {
                assert(tail(text, pos) =~= k_line + ips_text + rest);
            },
        }
    }
    let acc2 = PeerAcc {
        peer: PeerView {
            persistent_keepalive_interval: p.persistent_keepalive_interval,
            ..acc1.peer
        },
        ..acc1
    };
    let pos2 = pos1 + k_line.len();
    assert(tail(text, pos1) =~= k_line + (ips_text + rest));
    assert(peer_lines(text, pos1, acc1) == peer_lines(text, pos2, acc2) && tail(text, pos2)
        == ips_text + rest && pos2 <= text.len()) by {
        match p.persistent_keepalive_interval {
            Some(k) => {
                lemma_decimal_round_trip(k as nat, 0xffff_ffff);
                lemma_decimal_plain(k as nat);
                assert("persistent_keepalive_interval"@ != "endpoint"@);
                lemma_peer_line(
                    text,
                    pos1,
                    acc1,
                    "persistent_keepalive_interval"@,
                    decimal_text(k as nat),
                    ips_text + rest,
                    acc2,
                );
            },
            None => {
                assert(tail(text, pos1) =~= ips_text + rest);
            },
        }
    }
    lemma_read_allowed_ips(text, pos2, acc2, p.allowed_ips, rest);
    assert(acc2.peer.allowed_ips + p.allowed_ips =~= p.allowed_ips);
    assert(set_peer_body(sp).len() == e_line.len() + k_line.len() + ips_text.len());
}


/// What is set of each of some peers.
pub open spec fn set_views(peers: Seq<PeerView>) -> Seq<SetPeerView> {
    Seq::new(peers.len(), |i: int| set_peer_of(peers[i]))
}

/// The lines of some peers begin with the lines of the first.
pub proof fn lemma_peers_front(peers: Seq<SetPeerView>)
    requires
        peers.len() > 0,
    ensures
        set_peers_text(peers) == set_peer_text(peers[0]) + set_peers_text(peers.drop_first()),
    decreases peers.len(),
{
    if peers.len() == 1 {
        assert(peers.drop_last() =~= Seq::<SetPeerView>::empty());
        assert(peers.drop_first() =~= Seq::<SetPeerView>::empty());
        assert(set_peers_text(peers) =~= set_peer_text(peers[0]) + set_peers_text(
            peers.drop_first(),
        ));
    } else {
        lemma_peers_front(peers.drop_last());
        assert(peers.drop_last().drop_first() =~= peers.drop_first().drop_last());
        assert(peers.drop_last()[0] == peers[0]);
        assert(peers.drop_first().last() == peers.last());
        assert(set_peers_text(peers) =~= set_peer_text(peers[0]) + set_peers_text(
            peers.drop_first(),
        ));
    }
}

/// A peer whose key is above all keys of the others goes to their end.
pub proof fn lemma_upsert_last(s: Seq<PeerView>, p: PeerView)
    requires
        keys_sorted(s.push(p)),
    ensures
        upsert(s, p) == s.push(p),
{
    if s.len() == 0 {
        assert(seq![p] =~= s.push(p));
    } else {
        let all = s.push(p);
        assert(all[s.len() - 1] == s.last());
        assert(all[s.len() as int] == p);
        assert(all[s.len() - 1].public_key.spec_lt(all[s.len() as int].public_key));
    }
}

/// The lines of a peer and of those that follow it, up to the empty line
/// that ends the request, are read as these peers behind those already read.
pub proof fn lemma_read_peers(
    text: Seq<char>,
    pos: int,
    st: TopState,
    p: PeerView,
    later: Seq<PeerView>,
    now: Option<Duration>,
)
    requires
        0 <= pos <= text.len(),
        tail(text, pos) == set_peer_body(set_peer_of(p)) + set_peers_text(set_views(later))
            + seq!['\n'],
        keys_sorted(st.interface.peers.push(p) + later),
        settable(p),
        forall|j: int| 0 <= j < later.len() ==> settable(#[trigger] later[j]),
    ensures
        parse_peers(text, pos, st, p.public_key, now) == Ok::<ResponseView, ParseFailure>(
            finish(
                TopState {
                    interface: InterfaceView {
                        peers: st.interface.peers.push(p) + later,
                        ..st.interface
                    },
                    ..st
                },
            ),
        ),
    decreases later.len(),
{
    lemma_keys();
    let body = set_peer_body(set_peer_of(p));
    let follow = set_peers_text(set_views(later));
    let acc0 = PeerAcc { peer: PeerView::new(p.public_key), handshake: None };
    let acc = PeerAcc { peer: p, handshake: None };
    assert(tail(text, pos) =~= body + (follow + seq!['\n']));
    lemma_read_peer_body(text, pos, p, follow + seq!['\n']);
    let at = pos + body.len();
    let all = st.interface.peers.push(p) + later;
    assert(keys_sorted(st.interface.peers.push(p))) by {
        assert forall|i: int, j: int|
            0 <= i < j < st.interface.peers.push(p).len() implies (
        #[trigger] st.interface.peers.push(p)[i]).public_key.spec_lt(
            (#[trigger] st.interface.peers.push(p)[j]).public_key,
        ) by {
            assert(all[i] == st.interface.peers.push(p)[i]);
            assert(all[j] == st.interface.peers.push(p)[j]);
            assert(all[i].public_key.spec_lt(all[j].public_key));
        }
    }
    lemma_upsert_last(st.interface.peers, p);
    assert(finish_peer(acc, now) == p);
    let with_peer = TopState {
        interface: InterfaceView { peers: st.interface.peers.push(p), ..st.interface },
        ..st
    };
    if later.len() == 0 {
        assert(follow =~= Seq::<char>::empty());
        assert(tail(text, at) =~= seq!['\n'] + Seq::<char>::empty());
        lemma_blank_at(text, at, Seq::<char>::empty());
        assert(tail(text, at + 1).len() == 0);
        assert(at + 1 == text.len());
        lemma_end_at(text);
        assert(peer_lines(text, at, acc) == Ok::<PeerOutcome, ParseFailure>(
            PeerOutcome { acc, next: None, errno: None, pos: at + 1 },
        ));
        assert(parse_top(text, at + 1, with_peer, now) == Ok::<ResponseView, ParseFailure>(
            finish(with_peer),
        ));
        assert(st.interface.peers.push(p) + later =~= st.interface.peers.push(p));
    } else {
        let q = later[0];
        let others = later.drop_first();
        lemma_peers_front(set_views(later));
        assert(set_views(later)[0] == set_peer_of(q));
        assert(set_views(later).drop_first() =~= set_views(others));
        let hex = q.public_key.spec_hex();
        let q_body = set_peer_body(set_peer_of(q));
        let tail_q = q_body + set_peers_text(set_views(others)) + seq!['\n'];
        assert(tail(text, at) =~= line("public_key"@, hex) + tail_q);
        lemma_hex_plain(q.public_key.spec_bytes());
        lemma_public_key_hex_round_trip(q.public_key);
        lemma_line_at(text, at, "public_key"@, hex, tail_q);
        let next = at + line("public_key"@, hex).len();
        assert("public_key"@ != "endpoint"@);
        assert("public_key"@ != "persistent_keepalive_interval"@);
        assert("public_key"@ != "allowed_ip"@);
        assert("public_key"@ != "rx_bytes"@);
        assert("public_key"@ != "tx_bytes"@);
        assert("public_key"@ != "last_handshake_time_nsec"@);
        assert("public_key"@ != "last_handshake_time_sec"@);
        assert(peer_step(acc, "public_key"@, hex) == Ok::<PeerStep, ParseFailure>(
            PeerStep::Next(q.public_key),
        ));
        assert(peer_lines(text, at, acc) == Ok::<PeerOutcome, ParseFailure>(
            PeerOutcome { acc, next: Some(q.public_key), errno: None, pos: next },
        ));
        assert(with_peer.interface.peers.push(q) + others =~= all);
        assert forall|j: int| 0 <= j < others.len() implies settable(#[trigger] others[j]) by {
            assert(others[j] == later[j + 1]);
        }
        lemma_read_peers(text, next, with_peer, q, others, now);
    }
}

/// What a request to set an interface reads back as: the interface,
/// without a listen port where the port is 0; and no interface where there
/// was nothing to set.
pub open spec fn reads_back_as(d: InterfaceView) -> ResponseView {
    ResponseView {
        errno: 0,
        interface: if d.private_key is Some || d.listen_port is Some || d.fwmark != 0
            || d.peers.len() > 0 {
            Some(
                InterfaceView {
                    listen_port: if d.listen_port == Some(0u16) {
                        None
                    } else {
                        d.listen_port
                    },
                    ..d
                },
            )
        } else {
            None
        },
    }
}

/// The line `set=1` changes nothing.
proof fn lemma_step_set(st: TopState)
    ensures
        top_step(st, "set"@, "1"@) == Ok::<TopStep, ParseFailure>(TopStep::More(st)),
        plain_key("set"@),
        no_line_feed("1"@),
{
    lemma_keys();
    assert("set"@ != "private_key"@);
    assert("set"@ != "listen_port"@);
    assert("set"@ != "fwmark"@);
    assert("set"@ != "public_key"@);
    assert("set"@ != "errno"@);
}

/// The state after the line of the private key.
pub open spec fn with_private_key(st: TopState, key: Option<SecretKey>) -> TopState {
    match key {
        Some(k) => TopState {
            interface: InterfaceView { private_key: Some(k), ..st.interface },
            inited: true,
            ..st
        },
        None => st,
    }
}

/// The state after the line of the listen port.
pub open spec fn with_listen_port(st: TopState, port: Option<u16>) -> TopState {
    match port {
        Some(p) => TopState {
            interface: if p > 0 {
                InterfaceView { listen_port: Some(p), ..st.interface }
            } else {
                st.interface
            },
            inited: true,
            ..st
        },
        None => st,
    }
}

/// The state after the line of the firewall mark, which is written for a
/// mark other than 0.
pub open spec fn with_fwmark(st: TopState, mark: u32) -> TopState {
    if mark != 0 {
        TopState { interface: InterfaceView { fwmark: mark, ..st.interface }, inited: true, ..st }
    } else {
        st
    }
}

proof fn lemma_step_private_key(st: TopState, k: SecretKey)
    ensures
        top_step(st, "private_key"@, k.spec_hex()) == Ok::<TopStep, ParseFailure>(
            TopStep::More(with_private_key(st, Some(k))),
        ),
        plain_key("private_key"@),
        no_line_feed(k.spec_hex()),
{
    lemma_keys();
    lemma_hex_plain(k.spec_bytes());
    lemma_secret_key_hex_round_trip(k);
}

proof fn lemma_step_listen_port(st: TopState, p: u16)
    ensures
        top_step(st, "listen_port"@, decimal_text(p as nat)) == Ok::<TopStep, ParseFailure>(
            TopStep::More(with_listen_port(st, Some(p))),
        ),
        plain_key("listen_port"@),
        no_line_feed(decimal_text(p as nat)),
{
    lemma_keys();
    lemma_decimal_plain(p as nat);
    lemma_decimal_round_trip(p as nat, 0xffff);
    assert("listen_port"@ != "private_key"@);
}

proof fn lemma_step_fwmark(st: TopState, m: u32)
    requires
        m != 0,
    ensures
        top_step(st, "fwmark"@, decimal_text(m as nat)) == Ok::<TopStep, ParseFailure>(
            TopStep::More(with_fwmark(st, m)),
        ),
        plain_key("fwmark"@),
        no_line_feed(decimal_text(m as nat)),
{
    lemma_keys();
    lemma_decimal_plain(m as nat);
    lemma_decimal_round_trip(m as nat, 0xffff_ffff);
    assert("fwmark"@ != "private_key"@);
    assert("fwmark"@ != "listen_port"@);
}

proof fn lemma_step_public_key(st: TopState, k: PublicKey)
    ensures
        top_step(st, "public_key"@, k.spec_hex()) == Ok::<TopStep, ParseFailure>(
            TopStep::Peer(TopState { inited: true, ..st }, k),
        ),
        plain_key("public_key"@),
        no_line_feed(k.spec_hex()),
{
    lemma_keys();
    lemma_hex_plain(k.spec_bytes());
    lemma_public_key_hex_round_trip(k);
    assert("public_key"@ != "private_key"@);
    assert("public_key"@ != "listen_port"@);
    assert("public_key"@ != "fwmark"@);
}

/// The line of the private key, where there is one.
pub open spec fn private_key_line(key: Option<SecretKey>) -> Seq<char> {
    match key {
        Some(k) => line("private_key"@, k.spec_hex()),
        None => Seq::empty(),
    }
}

/// The line of the listen port, where there is one.
pub open spec fn listen_port_line(port: Option<u16>) -> Seq<char> {
    match port {
        Some(p) => line("listen_port"@, decimal_text(p as nat)),
        None => Seq::empty(),
    }
}

/// The line of the firewall mark, where it is not 0.
pub open spec fn fwmark_line(mark: u32) -> Seq<char> {
    if mark != 0 {
        line("fwmark"@, decimal_text(mark as nat))
    } else {
        Seq::empty()
    }
}

/// The lines of the interface itself are read as what they set.
proof fn lemma_read_head(
    text: Seq<char>,
    d: InterfaceView,
    rest: Seq<char>,
    st: TopState,
    now: Option<Duration>,
)
    requires
        text == line("set"@, "1"@) + private_key_line(d.private_key) + listen_port_line(
            d.listen_port,
        ) + fwmark_line(d.fwmark) + rest,
    ensures
        parse_top(text, 0, st, now) == parse_top(
            text,
            text.len() - rest.len(),
            with_fwmark(with_listen_port(with_private_key(st, d.private_key), d.listen_port), d.fwmark),
            now,
        ),
        tail(text, text.len() - rest.len()) == rest,
        0 <= text.len() - rest.len() <= text.len(),
{
    let a = line("set"@, "1"@);
    let b = private_key_line(d.private_key);
    let c = listen_port_line(d.listen_port);
    let e = fwmark_line(d.fwmark);
    assert(tail(text, 0) =~= a + (b + c + e + rest));
    lemma_step_set(st);
    lemma_top_line(text, 0, st, "set"@, "1"@, b + c + e + rest, st, now);
    let pos0 = a.len() as int;
    let st1 = with_private_key(st, d.private_key);
    let pos1 = pos0 + b.len();
    assert(parse_top(text, pos0, st, now) == parse_top(text, pos1, st1, now) && tail(text, pos1)
        == c + e + rest && pos1 <= text.len()) by {
        assert(tail(text, pos0) =~= b + (c + e + rest));
        match d.private_key {
            Some(k) => {
                lemma_step_private_key(st, k);
                lemma_top_line(text, pos0, st, "private_key"@, k.spec_hex(), c + e + rest, st1, now);
            },
            None => {
                assert(tail(text, pos0) =~= c + e + rest);
            },
        }
    }
    let st2 = with_listen_port(st1, d.listen_port);
    let pos2 = pos1 + c.len();
    assert(parse_top(text, pos1, st1, now) == parse_top(text, pos2, st2, now) && tail(text, pos2)
        == e + rest && pos2 <= text.len()) by {
        assert(tail(text, pos1) =~= c + (e + rest));
        match d.listen_port {
            Some(p) => {
                lemma_step_listen_port(st1, p);
                lemma_top_line(
                    text,
                    pos1,
                    st1,
                    "listen_port"@,
                    decimal_text(p as nat),
                    e + rest,
                    st2,
                    now,
                );
            },
            None => {
                assert(tail(text, pos1) =~= e + rest);
            },
        }
    }
    let st3 = with_fwmark(st2, d.fwmark);
    let pos3 = pos2 + e.len();
    assert(parse_top(text, pos2, st2, now) == parse_top(text, pos3, st3, now) && tail(text, pos3)
        == rest && pos3 <= text.len()) by {
        if d.fwmark != 0 {
            lemma_step_fwmark(st2, d.fwmark);
            lemma_top_line(
                text,
                pos2,
                st2,
                "fwmark"@,
                decimal_text(d.fwmark as nat),
                rest,
                st3,
                now,
            );
        } else {
            assert(tail(text, pos2) =~= rest);
        }
    }
    assert(text.len() == a.len() + b.len() + c.len() + e.len() + rest.len());
}

/// The text of the request that sets an interface, line by line.
proof fn lemma_request_text(d: InterfaceView)
    ensures
        cmd_text(CmdView::SetDevice(set_device_of(d))) == line("set"@, "1"@) + private_key_line(
            d.private_key,
        ) + listen_port_line(d.listen_port) + fwmark_line(d.fwmark) + (set_peers_text(
            set_views(d.peers),
        ) + seq!['\n']),
{
    let sd = set_device_of(d);
    assert(sd.peers =~= set_views(d.peers));
    assert(set_head_text(sd) =~= private_key_line(d.private_key) + listen_port_line(
        d.listen_port,
    ) + fwmark_line(d.fwmark));
    assert(cmd_text(CmdView::SetDevice(sd)) =~= line("set"@, "1"@) + private_key_line(
        d.private_key,
    ) + listen_port_line(d.listen_port) + fwmark_line(d.fwmark) + (set_peers_text(
        set_views(d.peers),
    ) + seq!['\n']));
}

/// The lines of the peers of a request, read behind the lines of the
/// interface, give the peers.
proof fn lemma_read_all_peers(
    text: Seq<char>,
    pos: int,
    st: TopState,
    peers: Seq<PeerView>,
    now: Option<Duration>,
)
    requires
        0 <= pos <= text.len(),
        tail(text, pos) == set_peers_text(set_views(peers)) + seq!['\n'],
        st.interface.peers.len() == 0,
        keys_sorted(peers),
        forall|i: int| 0 <= i < peers.len() ==> settable(#[trigger] peers[i]),
    ensures
        parse_top(text, pos, st, now) == Ok::<ResponseView, ParseFailure>(
            finish(
                TopState {
                    interface: InterfaceView { peers, ..st.interface },
                    inited: st.inited || peers.len() > 0,
                    ..st
                },
            ),
        ),
{
    if peers.len() == 0 {
        assert(set_peers_text(set_views(peers)) =~= Seq::<char>::empty());
        assert(tail(text, pos) =~= seq!['\n'] + Seq::<char>::empty());
        lemma_blank_at(text, pos, Seq::<char>::empty());
        assert(st.interface.peers =~= peers);
    } else {
        let p = peers[0];
        let later = peers.drop_first();
        lemma_peers_front(set_views(peers));
        assert(set_views(peers)[0] == set_peer_of(p));
        assert(set_views(peers).drop_first() =~= set_views(later));
        let hex = p.public_key.spec_hex();
        let tail_p = set_peer_body(set_peer_of(p)) + set_peers_text(set_views(later))
            + seq!['\n'];
        assert(tail(text, pos) =~= line("public_key"@, hex) + tail_p);
        lemma_step_public_key(st, p.public_key);
        lemma_line_at(text, pos, "public_key"@, hex, tail_p);
        let next = pos + line("public_key"@, hex).len();
        let st4 = TopState { inited: true, ..st };
        assert(parse_top(text, pos, st, now) == parse_peers(text, next, st4, p.public_key, now));
        assert(st4.interface.peers.push(p) + later =~= peers);
        assert forall|j: int| 0 <= j < later.len() implies settable(#[trigger] later[j]) by {
            assert(later[j] == peers[j + 1]);
        }
        lemma_read_peers(text, next, st4, p, later, now);
    }
}

/// The protocol round-trip: the request that sets an interface, read as an
/// answer, gives the interface back, for every interface whose keys rise
/// and of whose peers a request says everything.
pub proof fn lemma_uapi_round_trip(d: InterfaceView, now: Option<Duration>)
    requires
        keys_sorted(d.peers),
        forall|i: int| 0 <= i < d.peers.len() ==> settable(#[trigger] d.peers[i]),
    ensures
        response_of_text(cmd_text(CmdView::SetDevice(set_device_of(d))), now) == Ok::<
            ResponseView,
            ParseFailure,
        >(reads_back_as(d)),
{
    let text = cmd_text(CmdView::SetDevice(set_device_of(d)));
    let end = set_peers_text(set_views(d.peers)) + seq!['\n'];
    let st0 = TopState { interface: InterfaceView::empty(), inited: false, errno: 0 };
    lemma_request_text(d);
    lemma_read_head(text, d, end, st0, now);
    let st3 = with_fwmark(
        with_listen_port(with_private_key(st0, d.private_key), d.listen_port),
        d.fwmark,
    );
    lemma_read_all_peers(text, text.len() - end.len(), st3, d.peers, now);
}


fn holds_no_line_feed(chars: &Vec<char>) -> (r: bool)
    ensures
        r == no_line_feed(chars@),
{
    let mut i: usize = 0;
    while i < chars.len()
        invariant
            i <= chars@.len(),
            forall|j: int| 0 <= j < i ==> chars@[j] != '\n',
        decreases chars@.len() - i,
    {
        if chars[i] == '\n' {
            return false;
        }
        i = i + 1;
    }
    true
}

/// Whether the text of the network holds no line feed and reads back as
/// the network: the text is written and read to find out.
pub fn net_reads_back_now(n: &IpNet) -> (r: bool)
    ensures
        r == net_reads_back(*n),
{
    let mut out: Vec<char> = Vec::new();
    n.write(&mut out);
    proof {
        assert(out@ =~= n.spec_text());
        assert(out@.subrange(0, out@.len() as int) =~= out@);
    }
    holds_no_line_feed(&out) && IpNet::parse(&out, 0, out.len()) == Some(*n)
}

/// Whether the text of the endpoint holds no line feed and reads back as
/// the endpoint: the text is written and read to find out.
pub fn endpoint_reads_back_now(e: &Endpoint) -> (r: bool)
    ensures
        r == endpoint_reads_back(*e),
{
    let mut out: Vec<char> = Vec::new();
    e.write(&mut out);
    proof {
        assert(out@ =~= e.spec_text());
        assert(out@.subrange(0, out@.len() as int) =~= out@);
    }
    holds_no_line_feed(&out) && Endpoint::parse(&out, 0, out.len()) == Some(*e)
}

impl Peer {
    /// Whether a request to set the peer says everything of it.
    pub fn is_settable(&self) -> (r: bool)
        ensures
            r == settable(self@),
    {
        if self.rx_bytes.is_some() || self.tx_bytes.is_some()
            || self.time_since_last_handshake.is_some() {
            return false;
        }
        match self.persistent_keepalive_interval {
            Some(k) => {
                if k > 0xffff {
                    return false;
                }
            },
            None => {},
        }
        match self.endpoint {
            Some(e) => {
                if !endpoint_reads_back_now(&e) {
                    return false;
                }
            },
            None => {},
        }
        let mut j: usize = 0;
        while j < self.allowed_ips.len()
            invariant
                j <= self.allowed_ips@.len(),
                forall|i: int|
                    0 <= i < j ==> net_reads_back(#[trigger] self.allowed_ips@[i])
                        && self.allowed_ips@[i].spec_network() == self.allowed_ips@[i],
            decreases self.allowed_ips@.len() - j,
        {
            let n = self.allowed_ips[j];
            if !net_reads_back_now(&n) || n.network() != n {
                return false;
            }
            j = j + 1;
        }
        true
    }
}

impl Interface {
    /// The request that sets what the interface holds, where it reads back
    /// as the interface; `None` where a request does not say everything of
    /// one of the peers.
    pub fn set_request(&self) -> (r: Option<String>)
        requires
            self.wf(),
        ensures
            match r {
                Some(text) => {
                    &&& text@ == cmd_text(CmdView::SetDevice(set_device_of(self@)))
                    &&& forall|now: Option<Duration>| #[trigger]
                        response_of_text(text@, now) == Ok::<ResponseView, ParseFailure>(
                            reads_back_as(self@),
                        )
                },
                None => exists|i: int| 0 <= i < self@.peers.len() && !settable(#[trigger] self@.peers[i]),
            },
    {
        let mut i: usize = 0;
        while i < self.peers.len()
            invariant
                i <= self.peers@.len(),
                forall|j: int| 0 <= j < i ==> settable(#[trigger] self@.peers[j]),
            decreases self.peers@.len() - i,
        {
            if !self.peers[i].is_settable() {
                proof {
                    assert(!settable(self@.peers[i as int]));
                }
                return None;
            }
            i = i + 1;
        }
        let text = Cmd::SetDevice(self.to_set_device()).to_text();
        proof {
            assert forall|now: Option<Duration>| #[trigger]
                response_of_text(text@, now) == Ok::<ResponseView, ParseFailure>(
                    reads_back_as(self@),
                ) by {
                lemma_uapi_round_trip(self@, now);
            }
        }
        Some(text)
    }
}

} // verus!
