//! The reducer of the WireGuard state: from what is asked for and what the
//! interface holds to the writes that make the second agree with the first.

use crate::config::{contains_key, endpoint_of, StunServer};
use crate::device::{Entities, RequestedState};
use crate::ip::{Endpoint, IpAddress, IpNet};
use crate::keys::{PublicKey, SecretKey};
use crate::mesh::ExitNode;
use crate::uapi::{
    keys_sorted, lemma_lookup_at, lemma_lookup_some, lemma_lookup_upsert, lemma_lookup_without,
    lookup, peer_views, upsert, without, Interface, InterfaceView, Peer, PeerView,
};
use vstd::prelude::*;

verus! {

/// Why the state asked for cannot be had.
#[derive(Clone, Copy, Debug, PartialEq, Eq, Structural)]
pub enum Error {
    /// An allowed network is asked for two peers.
    BadAllowedIps,
}

/// One write to the interface.
#[derive(Debug, PartialEq, Eq)]
pub enum UapiOp {
    SetPrivateKey(SecretKey),
    SetFwmark(u32),
    /// Remove the peer with this key.
    RemovePeer(PublicKey),
    /// Put this peer in, in place of the one that has its key.
    AddPeer(Peer),
    /// Give the peer with this key a new endpoint, if the interface has it.
    UpdateEndpoint(PublicKey, Endpoint),
}

/// What a `UapiOp` holds.
pub enum OpView {
    SetPrivateKey(SecretKey),
    SetFwmark(u32),
    RemovePeer(PublicKey),
    AddPeer(PeerView),
    UpdateEndpoint(PublicKey, Endpoint),
}

impl View for UapiOp {
    type V = OpView;

    open spec fn view(&self) -> OpView {
        match self {
            UapiOp::SetPrivateKey(k) => OpView::SetPrivateKey(*k),
            UapiOp::SetFwmark(m) => OpView::SetFwmark(*m),
            UapiOp::RemovePeer(k) => OpView::RemovePeer(*k),
            UapiOp::AddPeer(p) => OpView::AddPeer(p@),
            UapiOp::UpdateEndpoint(k, e) => OpView::UpdateEndpoint(*k, *e),
        }
    }
}

/// The views of some writes, in their order.
pub open spec fn op_views(ops: Seq<UapiOp>) -> Seq<OpView> {
    Seq::new(ops.len(), |i: int| ops[i]@)
}

/// The interface after one write.
pub open spec fn apply(itf: InterfaceView, op: OpView) -> InterfaceView {
    match op {
        OpView::SetPrivateKey(k) => InterfaceView { private_key: Some(k), ..itf },
        OpView::SetFwmark(m) => InterfaceView { fwmark: m, ..itf },
        OpView::RemovePeer(k) => InterfaceView { peers: without(itf.peers, k), ..itf },
        OpView::AddPeer(p) => InterfaceView { peers: upsert(itf.peers, p), ..itf },
        OpView::UpdateEndpoint(k, e) => match lookup(itf.peers, k) {
            Some(l) => InterfaceView {
                peers: upsert(itf.peers, PeerView { endpoint: Some(e), ..l }),
                ..itf
            },
            None => itf,
        },
    }
}

/// The interface after some writes, made in their order.
pub open spec fn apply_all(itf: InterfaceView, ops: Seq<OpView>) -> InterfaceView
    decreases ops.len(),
{
    if ops.len() == 0 {
        itf
    } else {
        apply(apply_all(itf, ops.drop_last()), ops.last())
    }
}

/// The writes that set the private key and the firewall mark, where the
/// interface has others than are asked for.
pub open spec fn head_ops(desired: InterfaceView, live: InterfaceView) -> Seq<OpView> {
    (if desired.private_key is Some && live.private_key != desired.private_key {
        seq![OpView::SetPrivateKey(desired.private_key.unwrap())]
    } else {
        Seq::<OpView>::empty()
    }) + (if live.fwmark != desired.fwmark {
        seq![OpView::SetFwmark(desired.fwmark)]
    } else {
        Seq::<OpView>::empty()
    })
}

/// A removal for each of `ls` whose key is not asked for.
pub open spec fn removals(ls: Seq<PeerView>, desired: Seq<PeerView>) -> Seq<OpView>
    decreases ls.len(),
{
    if ls.len() == 0 {
        Seq::empty()
    } else if lookup(desired, ls.last().public_key) is None {
        removals(ls.drop_last(), desired).push(OpView::RemovePeer(ls.last().public_key))
    } else {
        removals(ls.drop_last(), desired)
    }
}

/// The write that a peer asked for needs: none where the interface has it
/// so, its endpoint alone where nothing else differs, and else the whole peer.
pub open spec fn op_for(d: PeerView, live: Seq<PeerView>) -> Option<OpView> {
    match lookup(live, d.public_key) {
        None => Some(OpView::AddPeer(d)),
        Some(l) => if l.same_config(d) {
            None
        } else if d.endpoint is Some && (PeerView { endpoint: d.endpoint, ..l }).same_config(d) {
            Some(OpView::UpdateEndpoint(d.public_key, d.endpoint.unwrap()))
        } else {
            Some(OpView::AddPeer(d))
        },
    }
}

/// The writes that the peers asked for need.
pub open spec fn upserts(ds: Seq<PeerView>, live: Seq<PeerView>) -> Seq<OpView>
    decreases ds.len(),
{
    if ds.len() == 0 {
        Seq::empty()
    } else {
        match op_for(ds.last(), live) {
            Some(op) => upserts(ds.drop_last(), live).push(op),
            None => upserts(ds.drop_last(), live),
        }
    }
}

/// The writes that take the interface to what is asked for: key and mark,
/// then the removals, then the peers that are new or changed.
pub open spec fn diff(desired: InterfaceView, live: InterfaceView) -> Seq<OpView> {
    head_ops(desired, live) + removals(live.peers, desired.peers) + upserts(
        desired.peers,
        live.peers,
    )
}

/// Both are absent, or both are there with the same key, endpoint,
/// keepalive interval and allowed networks.
pub open spec fn config_matches(a: Option<PeerView>, b: Option<PeerView>) -> bool {
    match (a, b) {
        (None, None) => true,
        (Some(x), Some(y)) => x.same_config(y),
        _ => false,
    }
}

/// No allowed network of one peer is one of another peer.
pub open spec fn allowed_ips_disjoint(peers: Seq<PeerView>) -> bool {
    forall|i: int, j: int, a: int, b: int|
        0 <= i < peers.len() && 0 <= j < peers.len() && i != j && 0 <= a
            < peers[i].allowed_ips.len() && 0 <= b < peers[j].allowed_ips.len()
            ==> #[trigger] peers[i].allowed_ips[a] != #[trigger] peers[j].allowed_ips[b]
}

/// Writes made one list after another are the writes of both lists in a row.
pub proof fn lemma_apply_all_concat(itf: InterfaceView, a: Seq<OpView>, b: Seq<OpView>)
    ensures
        apply_all(itf, a + b) == apply_all(apply_all(itf, a), b),
    decreases b.len(),
{
    if b.len() == 0 {
        assert(a + b =~= a);
    } else {
        lemma_apply_all_concat(itf, a, b.drop_last());
        assert((a + b).drop_last() =~= a + b.drop_last());
        assert((a + b).last() == b.last());
    }
}

/// One more write is made after the others.
pub proof fn lemma_apply_all_push(itf: InterfaceView, a: Seq<OpView>, op: OpView)
    ensures
        apply_all(itf, a.push(op)) == apply(apply_all(itf, a), op),
{
    assert(a.push(op).drop_last() =~= a);
}

/// Every peer after `p` was put in is `p` or was there before.
pub proof fn lemma_upsert_members(s: Seq<PeerView>, p: PeerView)
    ensures
        forall|i: int|
            0 <= i < upsert(s, p).len() ==> (#[trigger] upsert(s, p)[i]) == p || s.contains(
                upsert(s, p)[i],
            ),
    decreases s.len(),
{
    let r = upsert(s, p);
    if s.len() == 0 {
    } else if s.last().public_key.spec_lt(p.public_key) {
        assert forall|i: int| 0 <= i < r.len() implies (#[trigger] r[i]) == p || s.contains(
            r[i],
        ) by {
            if i < s.len() {
                assert(s[i] == r[i]);
            }
        }
    } else if s.last().public_key == p.public_key {
        assert forall|i: int| 0 <= i < r.len() implies (#[trigger] r[i]) == p || s.contains(
            r[i],
        ) by {
            if i < s.len() - 1 {
                assert(s[i] == r[i]);
            }
        }
    } else {
        lemma_upsert_members(s.drop_last(), p);
        let f = upsert(s.drop_last(), p);
        assert forall|i: int| 0 <= i < r.len() implies (#[trigger] r[i]) == p || s.contains(
            r[i],
        ) by {
            if i < f.len() {
                assert(r[i] == f[i]);
                if f[i] != p {
                    let j = choose|j: int| 0 <= j < s.drop_last().len() && s.drop_last()[j] == f[i];
                    assert(s[j] == f[i]);
                }
            } else {
                assert(r[i] == s[s.len() - 1]);
            }
        }
    }
}

/// Putting a peer in keeps the keys rising.
pub proof fn lemma_upsert_sorted(s: Seq<PeerView>, p: PeerView)
    requires
        keys_sorted(s),
    ensures
        keys_sorted(upsert(s, p)),
    decreases s.len(),
{
    let r = upsert(s, p);
    if s.len() == 0 {
    } else if s.last().public_key.spec_lt(p.public_key) {
        assert forall|i: int, j: int| 0 <= i < j < r.len() implies (#[trigger] r[i]).public_key.spec_lt(
            (#[trigger] r[j]).public_key,
        ) by {
            if j < s.len() {
                assert(s[i].public_key.spec_lt(s[j].public_key));
            } else if i < s.len() - 1 {
                assert(s[i].public_key.spec_lt(s[s.len() - 1].public_key));
            }
        }
    } else if s.last().public_key == p.public_key {
        assert forall|i: int, j: int| 0 <= i < j < r.len() implies (#[trigger] r[i]).public_key.spec_lt(
            (#[trigger] r[j]).public_key,
        ) by {
            if j < s.len() - 1 {
                assert(s[i].public_key.spec_lt(s[j].public_key));
            } else {
                assert(s[i].public_key.spec_lt(s[s.len() - 1].public_key));
            }
        }
    } else {
        let front = s.drop_last();
        assert(keys_sorted(front)) by {
            assert forall|i: int, j: int| 0 <= i < j < front.len() implies (
            #[trigger] front[i]).public_key.spec_lt((#[trigger] front[j]).public_key) by {
                assert(s[i].public_key.spec_lt(s[j].public_key));
            }
        }
        lemma_upsert_sorted(front, p);
        lemma_upsert_members(front, p);
        let f = upsert(front, p);
        assert forall|i: int, j: int| 0 <= i < j < r.len() implies (#[trigger] r[i]).public_key.spec_lt(
            (#[trigger] r[j]).public_key,
        ) by {
            if j < f.len() {
                assert(f[i].public_key.spec_lt(f[j].public_key));
            } else {
                assert(r[j] == s.last());
                assert(r[i] == f[i]);
                if f[i] != p {
                    let k = choose|k: int| 0 <= k < front.len() && front[k] == f[i];
                    assert(s[k].public_key.spec_lt(s[s.len() - 1].public_key));
                }
            }
        }
    }
}

/// Every peer that is left after a key was taken out was there before.
pub proof fn lemma_without_members(s: Seq<PeerView>, key: PublicKey)
    ensures
        forall|i: int|
            0 <= i < without(s, key).len() ==> s.contains(#[trigger] without(s, key)[i]),
    decreases s.len(),
{
    let r = without(s, key);
    if s.len() > 0 {
        lemma_without_members(s.drop_last(), key);
        let f = without(s.drop_last(), key);
        assert forall|i: int| 0 <= i < r.len() implies s.contains(#[trigger] r[i]) by {
            if i < f.len() {
                assert(r[i] == f[i]);
                let j = choose|j: int| 0 <= j < s.drop_last().len() && s.drop_last()[j] == f[i];
                assert(s[j] == f[i]);
            } else {
                assert(r[i] == s[s.len() - 1]);
            }
        }
    }
}

/// Taking a key out keeps the keys rising.
pub proof fn lemma_without_sorted(s: Seq<PeerView>, key: PublicKey)
    requires
        keys_sorted(s),
    ensures
        keys_sorted(without(s, key)),
    decreases s.len(),
{
    let r = without(s, key);
    if s.len() > 0 {
        let front = s.drop_last();
        assert(keys_sorted(front)) by {
            assert forall|i: int, j: int| 0 <= i < j < front.len() implies (
            #[trigger] front[i]).public_key.spec_lt((#[trigger] front[j]).public_key) by {
                assert(s[i].public_key.spec_lt(s[j].public_key));
            }
        }
        lemma_without_sorted(front, key);
        lemma_without_members(front, key);
        let f = without(front, key);
        if s.last().public_key != key {
            assert forall|i: int, j: int| 0 <= i < j < r.len() implies (
            #[trigger] r[i]).public_key.spec_lt((#[trigger] r[j]).public_key) by {
                if j < f.len() {
                    assert(f[i].public_key.spec_lt(f[j].public_key));
                } else {
                    assert(r[i] == f[i]);
                    let k = choose|k: int| 0 <= k < front.len() && front[k] == f[i];
                    assert(s[k].public_key.spec_lt(s[s.len() - 1].public_key));
                }
            }
        }
    }
}

/// A write keeps the keys of the interface rising.
pub proof fn lemma_apply_sorted(itf: InterfaceView, op: OpView)
    requires
        keys_sorted(itf.peers),
    ensures
        keys_sorted(apply(itf, op).peers),
{
    match op {
        OpView::RemovePeer(k) => {
            lemma_without_sorted(itf.peers, k);
        },
        OpView::AddPeer(p) => {
            lemma_upsert_sorted(itf.peers, p);
        },
        OpView::UpdateEndpoint(k, e) => {
            if let Some(l) = lookup(itf.peers, k) {
                lemma_upsert_sorted(itf.peers, PeerView { endpoint: Some(e), ..l });
            }
        },
        _ => {},
    }
}

/// Writes keep the keys of the interface rising.
pub proof fn lemma_apply_all_sorted(itf: InterfaceView, ops: Seq<OpView>)
    requires
        keys_sorted(itf.peers),
    ensures
        keys_sorted(apply_all(itf, ops).peers),
    decreases ops.len(),
{
    if ops.len() > 0 {
        lemma_apply_all_sorted(itf, ops.drop_last());
        lemma_apply_sorted(apply_all(itf, ops.drop_last()), ops.last());
    }
}

/// After the removals, a key that is asked for finds what it found, and
/// a key that is not asked for finds nothing if it is one of `ls`.
pub proof fn lemma_apply_removals(
    itf: InterfaceView,
    ls: Seq<PeerView>,
    desired: Seq<PeerView>,
    key: PublicKey,
)
    ensures
        apply_all(itf, removals(ls, desired)).private_key == itf.private_key,
        apply_all(itf, removals(ls, desired)).fwmark == itf.fwmark,
        apply_all(itf, removals(ls, desired)).listen_port == itf.listen_port,
        lookup(apply_all(itf, removals(ls, desired)).peers, key) == if lookup(desired, key) is None
            && lookup(ls, key) is Some {
            None
        } else {
            lookup(itf.peers, key)
        },
    decreases ls.len(),
{
    if ls.len() > 0 {
        let front = ls.drop_last();
        lemma_apply_removals(itf, front, desired, key);
        let before = apply_all(itf, removals(front, desired));
        if lookup(desired, ls.last().public_key) is None {
            lemma_apply_all_push(
                itf,
                removals(front, desired),
                OpView::RemovePeer(ls.last().public_key),
            );
            lemma_lookup_without(before.peers, ls.last().public_key, key);
        }
    }
}

/// Where the keys rise, the last key is not among those before it.
pub proof fn lemma_last_key_is_new(s: Seq<PeerView>)
    requires
        keys_sorted(s),
        s.len() > 0,
    ensures
        lookup(s.drop_last(), s.last().public_key) is None,
        keys_sorted(s.drop_last()),
{
    let front = s.drop_last();
    lemma_lookup_some(front, s.last().public_key);
    if let Some(p) = lookup(front, s.last().public_key) {
        let j = choose|j: int| 0 <= j < front.len() && front[j] == p;
        assert(s[j].public_key.spec_lt(s[s.len() - 1].public_key));
    }
    assert forall|i: int, j: int| 0 <= i < j < front.len() implies (
    #[trigger] front[i]).public_key.spec_lt((#[trigger] front[j]).public_key) by {
        assert(s[i].public_key.spec_lt(s[j].public_key));
    }
}

/// What a key finds after the write that a peer asked for needs.
pub open spec fn after_op(d: PeerView, live: Seq<PeerView>, before: Option<PeerView>) -> Option<
    PeerView,
> {
    match op_for(d, live) {
        None => before,
        Some(OpView::UpdateEndpoint(_, e)) => Some(
            PeerView { endpoint: Some(e), ..lookup(live, d.public_key).unwrap() },
        ),
        Some(_) => Some(d),
    }
}

/// After the writes for the peers asked for, the key of each of them finds
/// what its write made, and every other key finds what it found.
pub proof fn lemma_apply_upserts(
    x: InterfaceView,
    ds: Seq<PeerView>,
    live: Seq<PeerView>,
    key: PublicKey,
)
    requires
        keys_sorted(ds),
        forall|j: int|
            0 <= j < ds.len() ==> lookup(x.peers, (#[trigger] ds[j]).public_key) == lookup(
                live,
                ds[j].public_key,
            ),
    ensures
        apply_all(x, upserts(ds, live)).private_key == x.private_key,
        apply_all(x, upserts(ds, live)).fwmark == x.fwmark,
        apply_all(x, upserts(ds, live)).listen_port == x.listen_port,
        lookup(apply_all(x, upserts(ds, live)).peers, key) == match lookup(ds, key) {
            Some(d) => after_op(d, live, lookup(x.peers, key)),
            None => lookup(x.peers, key),
        },
    decreases ds.len(),
{
    if ds.len() > 0 {
        let front = ds.drop_last();
        let last = ds.last();
        lemma_last_key_is_new(ds);
        assert forall|j: int| 0 <= j < front.len() implies lookup(
            x.peers,
            (#[trigger] front[j]).public_key,
        ) == lookup(live, front[j].public_key) by {
            assert(front[j] == ds[j]);
        }
        lemma_apply_upserts(x, front, live, key);
        lemma_apply_upserts(x, front, live, last.public_key);
        let before = apply_all(x, upserts(front, live));
        assert(lookup(before.peers, last.public_key) == lookup(live, last.public_key)) by {
            assert(ds[ds.len() - 1] == last);
        }
        match op_for(last, live) {
            Some(op) => {
                lemma_apply_all_push(x, upserts(front, live), op);
                match op {
                    OpView::AddPeer(p) => {
                        lemma_lookup_upsert(before.peers, p, key);
                    },
                    OpView::UpdateEndpoint(k, e) => {
                        let l = lookup(live, last.public_key).unwrap();
                        lemma_lookup_some(live, last.public_key);
                        lemma_lookup_upsert(before.peers, PeerView { endpoint: Some(e), ..l }, key);
                    },
                    _ => {},
                }
            },
            None => {},
        }
    }
}

/// The interface after the writes that take `live` to `desired`.
pub open spec fn reconciled(desired: InterfaceView, live: InterfaceView) -> InterfaceView {
    apply_all(live, diff(desired, live))
}

/// After the writes, the interface has the key and the mark asked for, and
/// under every key a peer with the configuration asked for, or none.
pub proof fn lemma_diff_reaches_desired(desired: InterfaceView, live: InterfaceView)
    requires
        keys_sorted(desired.peers),
        keys_sorted(live.peers),
    ensures
        keys_sorted(reconciled(desired, live).peers),
        desired.private_key is Some ==> reconciled(desired, live).private_key
            == desired.private_key,
        reconciled(desired, live).fwmark == desired.fwmark,
        reconciled(desired, live).listen_port == live.listen_port,
        forall|key: PublicKey|
            config_matches(
                #[trigger] lookup(reconciled(desired, live).peers, key),
                lookup(desired.peers, key),
            ),
{
    let head = head_ops(desired, live);
    let rem = removals(live.peers, desired.peers);
    let ups = upserts(desired.peers, live.peers);
    let a = apply_all(live, head);
    let b = apply_all(a, rem);
    let c = apply_all(b, ups);
    lemma_apply_all_concat(live, head, rem);
    lemma_apply_all_concat(live, head + rem, ups);
    lemma_apply_all_sorted(live, diff(desired, live));
    assert(a.peers == live.peers && a.listen_port == live.listen_port && a.fwmark
        == desired.fwmark && (desired.private_key is Some ==> a.private_key
        == desired.private_key)) by {
        reveal_with_fuel(apply_all, 3);
        let h1 = if desired.private_key is Some && live.private_key != desired.private_key {
            seq![OpView::SetPrivateKey(desired.private_key.unwrap())]
        } else {
            Seq::<OpView>::empty()
        };
        let h2 = if live.fwmark != desired.fwmark {
            seq![OpView::SetFwmark(desired.fwmark)]
        } else {
            Seq::<OpView>::empty()
        };
        lemma_apply_all_concat(live, h1, h2);
    }
    lemma_apply_removals(a, live.peers, desired.peers, PublicKey { hi: 0, lo: 0 });
    assert forall|j: int| 0 <= j < desired.peers.len() implies lookup(
        b.peers,
        (#[trigger] desired.peers[j]).public_key,
    ) == lookup(live.peers, desired.peers[j].public_key) by {
        lemma_apply_removals(a, live.peers, desired.peers, desired.peers[j].public_key);
        lemma_lookup_at(desired.peers, j);
    }
    lemma_apply_upserts(b, desired.peers, live.peers, PublicKey { hi: 0, lo: 0 });
    assert forall|key: PublicKey|
        config_matches(#[trigger] lookup(c.peers, key), lookup(desired.peers, key)) by {
        lemma_apply_removals(a, live.peers, desired.peers, key);
        lemma_apply_upserts(b, desired.peers, live.peers, key);
        lemma_lookup_some(desired.peers, key);
        lemma_lookup_some(live.peers, key);
    }
}

/// Where every peer's key is asked for, nothing is removed.
pub proof fn lemma_no_removals(ls: Seq<PeerView>, desired: Seq<PeerView>)
    requires
        forall|i: int| 0 <= i < ls.len() ==> lookup(desired, (#[trigger] ls[i]).public_key) is Some,
    ensures
        removals(ls, desired) == Seq::<OpView>::empty(),
    decreases ls.len(),
{
    if ls.len() > 0 {
        assert(ls[ls.len() - 1] == ls.last());
        assert forall|i: int| 0 <= i < ls.drop_last().len() implies lookup(
            desired,
            (#[trigger] ls.drop_last()[i]).public_key,
        ) is Some by {
            assert(ls.drop_last()[i] == ls[i]);
        }
        lemma_no_removals(ls.drop_last(), desired);
    }
}

/// Where no peer asked for needs a write, none is made.
pub proof fn lemma_no_upserts(ds: Seq<PeerView>, live: Seq<PeerView>)
    requires
        forall|i: int| 0 <= i < ds.len() ==> op_for(#[trigger] ds[i], live) is None,
    ensures
        upserts(ds, live) == Seq::<OpView>::empty(),
    decreases ds.len(),
{
    if ds.len() > 0 {
        assert(ds[ds.len() - 1] == ds.last());
        assert forall|i: int| 0 <= i < ds.drop_last().len() implies op_for(
            #[trigger] ds.drop_last()[i],
            live,
        ) is None by {
            assert(ds.drop_last()[i] == ds[i]);
        }
        lemma_no_upserts(ds.drop_last(), live);
    }
}

/// Consolidation is idempotent: once the writes that take the interface to
/// what is asked for are made, asking again for the same needs no write.
pub proof fn lemma_consolidation_idempotent(desired: InterfaceView, live: InterfaceView)
    requires
        keys_sorted(desired.peers),
        keys_sorted(live.peers),
        desired.private_key is Some,
    ensures
        diff(desired, reconciled(desired, live)) == Seq::<OpView>::empty(),
{
    let r = reconciled(desired, live);
    lemma_diff_reaches_desired(desired, live);
    assert forall|i: int| 0 <= i < r.peers.len() implies lookup(
        desired.peers,
        (#[trigger] r.peers[i]).public_key,
    ) is Some by {
        lemma_lookup_at(r.peers, i);
        assert(config_matches(
            lookup(r.peers, r.peers[i].public_key),
            lookup(desired.peers, r.peers[i].public_key),
        ));
    }
    lemma_no_removals(r.peers, desired.peers);
    assert forall|i: int| 0 <= i < desired.peers.len() implies op_for(
        #[trigger] desired.peers[i],
        r.peers,
    ) is None by {
        lemma_lookup_at(desired.peers, i);
        assert(config_matches(
            lookup(r.peers, desired.peers[i].public_key),
            lookup(desired.peers, desired.peers[i].public_key),
        ));
    }
    lemma_no_upserts(desired.peers, r.peers);
    assert(head_ops(desired, r) =~= Seq::<OpView>::empty());
    assert(diff(desired, r) =~= Seq::<OpView>::empty());
}

/// Allowed networks stay disjoint: where no allowed network is asked for
/// two peers, none belongs to two peers of the interface once the writes
/// are made.
pub proof fn lemma_reconciled_disjoint(desired: InterfaceView, live: InterfaceView)
    requires
        keys_sorted(desired.peers),
        keys_sorted(live.peers),
        allowed_ips_disjoint(desired.peers),
    ensures
        allowed_ips_disjoint(reconciled(desired, live).peers),
{
    let r = reconciled(desired, live);
    lemma_diff_reaches_desired(desired, live);
    assert forall|i: int, j: int, a: int, b: int|
        0 <= i < r.peers.len() && 0 <= j < r.peers.len() && i != j && 0 <= a
            < r.peers[i].allowed_ips.len() && 0 <= b
            < r.peers[j].allowed_ips.len() implies #[trigger] r.peers[i].allowed_ips[a]
        != #[trigger] r.peers[j].allowed_ips[b] by {
        lemma_lookup_at(r.peers, i);
        lemma_lookup_at(r.peers, j);
        let ki = r.peers[i].public_key;
        let kj = r.peers[j].public_key;
        if i < j {
            assert(r.peers[i].public_key.spec_lt(r.peers[j].public_key));
        } else {
            assert(r.peers[j].public_key.spec_lt(r.peers[i].public_key));
        }
        assert(config_matches(lookup(r.peers, ki), lookup(desired.peers, ki)));
        assert(config_matches(lookup(r.peers, kj), lookup(desired.peers, kj)));
        lemma_lookup_some(desired.peers, ki);
        lemma_lookup_some(desired.peers, kj);
        let di = lookup(desired.peers, ki).unwrap();
        let dj = lookup(desired.peers, kj).unwrap();
        let x = choose|x: int| 0 <= x < desired.peers.len() && desired.peers[x] == di;
        let y = choose|y: int| 0 <= y < desired.peers.len() && desired.peers[y] == dj;
        assert(x != y);
        assert(desired.peers[x].allowed_ips[a] != desired.peers[y].allowed_ips[b]);
    }
}

/// The exit is unique: where no allowed network belongs to two peers, at
/// most one peer has the IPv4 default route among its allowed networks.
pub proof fn lemma_exit_unique(peers: Seq<PeerView>, i: int, j: int)
    requires
        allowed_ips_disjoint(peers),
        0 <= i < peers.len(),
        0 <= j < peers.len(),
        peers[i].allowed_ips.contains(crate::ip::IpNet { ip: crate::ip::IpAddress::V4(0), prefix: 0 }),
        peers[j].allowed_ips.contains(crate::ip::IpNet { ip: crate::ip::IpAddress::V4(0), prefix: 0 }),
    ensures
        i == j,
{
    let route = crate::ip::IpNet { ip: crate::ip::IpAddress::V4(0), prefix: 0 };
    let a = choose|a: int| 0 <= a < peers[i].allowed_ips.len() && peers[i].allowed_ips[a] == route;
    let b = choose|b: int| 0 <= b < peers[j].allowed_ips.len() && peers[j].allowed_ips[b] == route;
    if i != j {
        assert(peers[i].allowed_ips[a] != peers[j].allowed_ips[b]);
    }
}


/// The network of each address alone.
pub open spec fn host_nets(ips: Seq<IpAddress>) -> Seq<IpNet> {
    Seq::new(ips.len(), |i: int| ips[i].spec_host_net())
}

/// The routes for every address: `0.0.0.0/0` and `::/0`.
pub open spec fn default_routes() -> Seq<IpNet> {
    seq![
        IpNet { ip: IpAddress::V4(0), prefix: 0 },
        IpNet { ip: IpAddress::V6(0), prefix: 0 },
    ]
}

/// The endpoints that the cross-ping check has found, none without the
/// parts for direct connections.
pub open spec fn checked_endpoints(entities: Entities) -> Seq<(PublicKey, Endpoint)> {
    match entities.direct {
        Some(d) => d.cross_ping_check.entries@,
        None => Seq::empty(),
    }
}

/// The peers that have agreed to a direct connection.
pub open spec fn upgraded(entities: Entities) -> Seq<PublicKey> {
    match entities.direct {
        Some(d) => d.upgrade_sync@,
        None => Seq::empty(),
    }
}

/// A peer is reached directly where the cross-ping check has found an
/// endpoint of it and the peer has agreed to the upgrade.
pub open spec fn is_direct(entities: Entities, key: PublicKey) -> bool {
    endpoint_of(checked_endpoints(entities), key) is Some && upgraded(entities).contains(key)
}

/// The peer asked for a node of the mesh: its addresses as allowed
/// networks, with the default routes where it is the exit node; the
/// endpoint found by the cross-ping check where it is reached directly, and
/// else the proxy's; the keepalive interval of the path.
pub open spec fn mesh_peer(rs: RequestedState, entities: Entities, cp: crate::config::Peer) -> PeerView {
    let key = cp.base.public_key;
    let own = match cp.base.ip_addresses {
        Some(v) => host_nets(v@),
        None => Seq::<IpNet>::empty(),
    };
    let is_exit = rs.exit_node is Some && rs.exit_node.unwrap().public_key == key;
    PeerView {
        endpoint: if is_direct(entities, key) {
            endpoint_of(checked_endpoints(entities), key)
        } else {
            endpoint_of(entities.proxy.entries@, key)
        },
        persistent_keepalive_interval: if is_direct(entities, key) {
            Some(rs.keepalive_periods.direct)
        } else {
            rs.keepalive_periods.proxying
        },
        allowed_ips: if is_exit {
            own + default_routes()
        } else {
            own
        },
        ..PeerView::new(key)
    }
}

/// The peers asked for the nodes of the mesh. Of two nodes with one key
/// the later counts.
pub open spec fn mesh_peers(rs: RequestedState, entities: Entities, cps: Seq<crate::config::Peer>) -> Seq<
    PeerView,
>
    decreases cps.len(),
{
    if cps.len() == 0 {
        Seq::empty()
    } else {
        upsert(mesh_peers(rs, entities, cps.drop_last()), mesh_peer(rs, entities, cps.last()))
    }
}

/// The peer asked for an exit node that is no node of the mesh.
pub open spec fn exit_peer(rs: RequestedState, exit: ExitNode) -> PeerView {
    PeerView {
        endpoint: exit.endpoint,
        persistent_keepalive_interval: rs.keepalive_periods.vpn,
        allowed_ips: match exit.allowed_ips {
            Some(v) => v@,
            None => default_routes(),
        },
        ..PeerView::new(exit.public_key)
    }
}

/// The peer asked for the STUN server: the server's address alone is routed to it.
pub open spec fn stun_peer(rs: RequestedState, server: StunServer) -> PeerView {
    PeerView {
        endpoint: Some(Endpoint { ip: IpAddress::V4(server.ipv4), port: server.stun_port, scope_id: 0 }),
        persistent_keepalive_interval: rs.keepalive_periods.stun,
        allowed_ips: seq![IpNet { ip: IpAddress::V4(server.ipv4), prefix: 32 }],
        ..PeerView::new(server.public_key)
    }
}

/// The peers asked for: the nodes of the mesh, the exit node where it is
/// none of them, and the STUN server while the mesh is on.
pub open spec fn desired_peers(rs: RequestedState, entities: Entities) -> Seq<PeerView> {
    let mesh = match rs.meshnet_config {
        Some(c) => mesh_peers(rs, entities, c.spec_peers()),
        None => Seq::<PeerView>::empty(),
    };
    let with_exit = if rs.exit_node is Some && lookup(mesh, rs.exit_node.unwrap().public_key)
        is None {
        upsert(mesh, exit_peer(rs, rs.exit_node.unwrap()))
    } else {
        mesh
    };
    if rs.meshnet_config is Some && rs.wg_stun_server is Some {
        upsert(with_exit, stun_peer(rs, rs.wg_stun_server.unwrap()))
    } else {
        with_exit
    }
}

/// The interface asked for. Its listen port is left to the driver.
pub open spec fn desired_interface(rs: RequestedState, entities: Entities) -> InterfaceView {
    InterfaceView {
        private_key: Some(rs.device_config.private_key),
        listen_port: None,
        fwmark: match rs.device_config.fwmark {
            Some(m) => m,
            None => 0,
        },
        peers: desired_peers(rs, entities),
    }
}

impl Interface {
    /// Makes one write.
    pub fn apply(&mut self, op: &UapiOp)
        requires
            old(self).wf(),
        ensures
            final(self).wf(),
            final(self)@ == apply(old(self)@, op@),
    {
        match op {
            UapiOp::SetPrivateKey(k) => {
                self.private_key = Some(*k);
            },
            UapiOp::SetFwmark(m) => {
                self.fwmark = *m;
            },
            UapiOp::RemovePeer(k) => {
                self.remove_peer(k);
            },
            UapiOp::AddPeer(p) => {
                self.insert_peer(p.clone());
            },
            UapiOp::UpdateEndpoint(k, e) => {
                match self.position_of(k) {
                    Some(i) => {
                        let mut changed = self.peers[i].clone();
                        changed.endpoint = Some(*e);
                        self.insert_peer(changed);
                    },
                    None => {},
                }
            },
        }
    }

    /// Makes some writes in their order.
    pub fn apply_all(&mut self, ops: &Vec<UapiOp>)
        requires
            old(self).wf(),
        ensures
            final(self).wf(),
            final(self)@ == apply_all(old(self)@, op_views(ops@)),
    {
        let ghost start = self@;
        let mut i: usize = 0;
        while i < ops.len()
            invariant
                i <= ops@.len(),
                self.wf(),
                self@ == apply_all(start, op_views(ops@).subrange(0, i as int)),
            decreases ops@.len() - i,
        {
            proof {
                let next = op_views(ops@).subrange(0, i + 1);
                assert(next.drop_last() =~= op_views(ops@).subrange(0, i as int));
                assert(next.last() == ops@[i as int]@);
            }
            self.apply(&ops[i]);
            i = i + 1;
        }
        proof {
            assert(op_views(ops@).subrange(0, ops@.len() as int) =~= op_views(ops@));
        }
    }
}

/// The network of each address alone.
fn host_nets_of(ips: &Vec<IpAddress>) -> (nets: Vec<IpNet>)
    ensures
        nets@ == host_nets(ips@),
{
    let mut out: Vec<IpNet> = Vec::new();
    let mut i: usize = 0;
    while i < ips.len()
        invariant
            i <= ips@.len(),
            out@.len() == i,
            forall|j: int| 0 <= j < i ==> out@[j] == (#[trigger] ips@[j]).spec_host_net(),
        decreases ips@.len() - i,
    {
        out.push(ips[i].host_net());
        i = i + 1;
    }
    proof {
        assert(out@ =~= host_nets(ips@));
    }
    out
}

/// The endpoint found by the cross-ping check, where the peer has agreed
/// to the upgrade.
fn direct_endpoint(entities: &Entities, key: &PublicKey) -> (e: Option<Endpoint>)
    ensures
        e is Some == is_direct(*entities, *key),
        e is Some ==> e == endpoint_of(checked_endpoints(*entities), *key),
{
    match &entities.direct {
        Some(d) => {
            let found = d.cross_ping_check.get(key);
            if found.is_some() && contains_key(&d.upgrade_sync, key) {
                found
            } else {
                None
            }
        },
        None => {
            proof {
                assert(endpoint_of(Seq::<(PublicKey, Endpoint)>::empty(), *key) is None);
            }
            None
        },
    }
}

/// The peer asked for a node of the mesh.
fn build_mesh_peer(requested_state: &RequestedState, entities: &Entities, cp: &crate::config::Peer) -> (peer:
    Peer)
    ensures
        peer@ == mesh_peer(*requested_state, *entities, *cp),
{
    let key = cp.base.public_key;
    let mut allowed_ips = match &cp.base.ip_addresses {
        Some(v) => host_nets_of(v),
        None => Vec::new(),
    };
    let ghost own = allowed_ips@;
    let is_exit = match &requested_state.exit_node {
        Some(e) => e.public_key == key,
        None => false,
    };
    if is_exit {
        allowed_ips.push(IpNet::default_v4());
        allowed_ips.push(IpNet::default_v6());
        proof {
            assert(allowed_ips@ =~= own + default_routes());
        }
    }
    let direct = direct_endpoint(entities, &key);
    let (endpoint, keepalive) = match direct {
        Some(e) => (Some(e), Some(requested_state.keepalive_periods.direct)),
        None => (entities.proxy.get(&key), requested_state.keepalive_periods.proxying),
    };
    Peer {
        public_key: key,
        endpoint,
        persistent_keepalive_interval: keepalive,
        allowed_ips,
        rx_bytes: None,
        tx_bytes: None,
        time_since_last_handshake: None,
    }
}

/// The interface asked for.
pub fn build_requested_peers_list(requested_state: &RequestedState, entities: &Entities) -> (desired:
    Interface)
    ensures
        desired@ == desired_interface(*requested_state, *entities),
        desired.wf(),
{
    let mut desired = Interface::new();
    desired.private_key = Some(requested_state.device_config.private_key);
    desired.fwmark = match requested_state.device_config.fwmark {
        Some(m) => m,
        None => 0,
    };
    match &requested_state.meshnet_config {
        Some(config) => {
            match &config.peers {
                Some(peers) => {
                    let mut i: usize = 0;
                    while i < peers.len()
                        invariant
                            i <= peers@.len(),
                            desired.wf(),
                            desired.private_key == Some(requested_state.device_config.private_key),
                            desired.listen_port is None,
                            desired.fwmark == match requested_state.device_config.fwmark {
                                Some(m) => m,
                                None => 0,
                            },
                            desired@.peers == mesh_peers(
                                *requested_state,
                                *entities,
                                peers@.subrange(0, i as int),
                            ),
                        decreases peers@.len() - i,
                    {
                        proof {
                            let next = peers@.subrange(0, i + 1);
                            assert(next.drop_last() =~= peers@.subrange(0, i as int));
                            assert(next.last() == peers@[i as int]);
                        }
                        desired.insert_peer(build_mesh_peer(requested_state, entities, &peers[i]));
                        i = i + 1;
                    }
                    proof {
                        assert(peers@.subrange(0, peers@.len() as int) =~= peers@);
                    }
                },
                None => {},
            }
        },
        None => {},
    }
    match &requested_state.exit_node {
        Some(exit) => {
            if desired.position_of(&exit.public_key).is_none() {
                let allowed_ips = match &exit.allowed_ips {
                    Some(v) => crate::mesh::copy_nets(v),
                    None => {
                        let mut routes: Vec<IpNet> = Vec::new();
                        routes.push(IpNet::default_v4());
                        routes.push(IpNet::default_v6());
                        proof {
                            assert(routes@ =~= default_routes());
                        }
                        routes
                    },
                };
                desired.insert_peer(
                    Peer {
                        public_key: exit.public_key,
                        endpoint: exit.endpoint,
                        persistent_keepalive_interval: requested_state.keepalive_periods.vpn,
                        allowed_ips,
                        rx_bytes: None,
                        tx_bytes: None,
                        time_since_last_handshake: None,
                    },
                );
            }
        },
        None => {},
    }
    match (&requested_state.meshnet_config, &requested_state.wg_stun_server) {
        (Some(_), Some(server)) => {
            let mut allowed_ips: Vec<IpNet> = Vec::new();
            allowed_ips.push(IpNet { ip: IpAddress::V4(server.ipv4), prefix: 32 });
            proof {
                assert(allowed_ips@ =~= seq![IpNet { ip: IpAddress::V4(server.ipv4), prefix: 32 }]);
            }
            desired.insert_peer(
                Peer {
                    public_key: server.public_key,
                    endpoint: Some(
                        Endpoint {
                            ip: IpAddress::V4(server.ipv4),
                            port: server.stun_port,
                            scope_id: 0,
                        },
                    ),
                    persistent_keepalive_interval: requested_state.keepalive_periods.stun,
                    allowed_ips,
                    rx_bytes: None,
                    tx_bytes: None,
                    time_since_last_handshake: None,
                },
            );
        },
        _ => {},
    }
    desired
}

/// Whether one of the networks is among the others.
fn shares_net(a: &Vec<IpNet>, b: &Vec<IpNet>) -> (r: bool)
    ensures
        r == exists|x: int, y: int|
            0 <= x < a@.len() && 0 <= y < b@.len() && #[trigger] a@[x] == #[trigger] b@[y],
{
    let mut x: usize = 0;
    while x < a.len()
        invariant
            x <= a@.len(),
            forall|i: int, j: int|
                0 <= i < x && 0 <= j < b@.len() ==> #[trigger] a@[i] != #[trigger] b@[j],
        decreases a@.len() - x,
    {
        let mut y: usize = 0;
        while y < b.len()
            invariant
                x < a@.len(),
                y <= b@.len(),
                forall|j: int| 0 <= j < y ==> a@[x as int] != #[trigger] b@[j],
            decreases b@.len() - y,
        {
            if a[x] == b[y] {
                return true;
            }
            y = y + 1;
        }
        x = x + 1;
    }
    false
}

/// Whether no allowed network of one peer is one of another peer.
pub fn check_allowed_ips_correctness(peers: &Vec<Peer>) -> (r: bool)
    ensures
        r == allowed_ips_disjoint(peer_views(peers@)),
{
    let ghost s = peer_views(peers@);
    let mut i: usize = 0;
    while i < peers.len()
        invariant
            i <= peers@.len(),
            s == peer_views(peers@),
            forall|p: int, q: int, a: int, b: int|
                0 <= p < i && 0 <= q < p && 0 <= a < s[p].allowed_ips.len() && 0 <= b
                    < s[q].allowed_ips.len() ==> #[trigger] s[p].allowed_ips[a]
                    != #[trigger] s[q].allowed_ips[b],
        decreases peers@.len() - i,
    {
        let mut j: usize = 0;
        while j < i
            invariant
                j <= i < peers@.len(),
                s == peer_views(peers@),
                forall|q: int, a: int, b: int|
                    0 <= q < j && 0 <= a < s[i as int].allowed_ips.len() && 0 <= b
                        < s[q].allowed_ips.len() ==> #[trigger] s[i as int].allowed_ips[a]
                        != #[trigger] s[q].allowed_ips[b],
            decreases i - j,
        {
            if shares_net(&peers[i].allowed_ips, &peers[j].allowed_ips) {
                proof {
                    let (x, y) = choose|x: int, y: int|
                        0 <= x < peers@[i as int].allowed_ips@.len() && 0 <= y
                            < peers@[j as int].allowed_ips@.len()
                            && #[trigger] peers@[i as int].allowed_ips@[x]
                            == #[trigger] peers@[j as int].allowed_ips@[y];
                    assert(s[i as int].allowed_ips[x] == s[j as int].allowed_ips[y]);
                }
                return false;
            }
            proof {
                assert forall|a: int, b: int|
                    0 <= a < s[i as int].allowed_ips.len() && 0 <= b
                        < s[j as int].allowed_ips.len() implies #[trigger] s[i as int].allowed_ips[a]
                    != #[trigger] s[j as int].allowed_ips[b] by {
                    assert(peers@[i as int].allowed_ips@[a] != peers@[j as int].allowed_ips@[b]);
                }
            }
            j = j + 1;
        }
        i = i + 1;
    }
    proof {
        assert forall|p: int, q: int, a: int, b: int|
            0 <= p < s.len() && 0 <= q < s.len() && p != q && 0 <= a < s[p].allowed_ips.len()
                && 0 <= b < s[q].allowed_ips.len() implies #[trigger] s[p].allowed_ips[a]
            != #[trigger] s[q].allowed_ips[b] by {
            if q < p {
                assert(s[p].allowed_ips[a] != s[q].allowed_ips[b]);
            } else {
                assert(s[q].allowed_ips[b] != s[p].allowed_ips[a]);
            }
        }
    }
    true
}

/// The writes that take the interface `live` to `desired`: the private key
/// and the firewall mark where they differ, a removal for each peer that
/// is not asked for, and for each peer asked for that is new or changed the
/// peer, or its endpoint where nothing else differs.
pub fn reduce(desired: &Interface, live: &Interface) -> (ops: Vec<UapiOp>)
    requires
        desired.wf(),
        live.wf(),
    ensures
        op_views(ops@) == diff(desired@, live@),
{
    let mut ops: Vec<UapiOp> = Vec::new();
    match desired.private_key {
        Some(k) => {
            if live.private_key != Some(k) {
                ops.push(UapiOp::SetPrivateKey(k));
            }
        },
        None => {},
    }
    if live.fwmark != desired.fwmark {
        ops.push(UapiOp::SetFwmark(desired.fwmark));
    }
    let ghost head = head_ops(desired@, live@);
    proof {
        assert(op_views(ops@) =~= head);
    }
    let mut i: usize = 0;
    while i < live.peers.len()
        invariant
            i <= live.peers@.len(),
            desired.wf(),
            live.wf(),
            op_views(ops@) == head + removals(live@.peers.subrange(0, i as int), desired@.peers),
        decreases live.peers@.len() - i,
    {
        let ghost before = op_views(ops@);
        proof {
            let next = live@.peers.subrange(0, i + 1);
            assert(next.drop_last() =~= live@.peers.subrange(0, i as int));
            assert(next.last() == live.peers@[i as int]@);
        }
        if desired.position_of(&live.peers[i].public_key).is_none() {
            ops.push(UapiOp::RemovePeer(live.peers[i].public_key));
            proof {
                assert(op_views(ops@) =~= before.push(
                    OpView::RemovePeer(live.peers@[i as int].public_key),
                ));
                assert(op_views(ops@) =~= head + removals(
                    live@.peers.subrange(0, i + 1),
                    desired@.peers,
                ));
            }
        }
        i = i + 1;
    }
    let ghost removed = head + removals(live@.peers, desired@.peers);
    proof {
        assert(live@.peers.subrange(0, live.peers@.len() as int) =~= live@.peers);
    }
    let mut j: usize = 0;
    while j < desired.peers.len()
        invariant
            j <= desired.peers@.len(),
            desired.wf(),
            live.wf(),
            op_views(ops@) == removed + upserts(desired@.peers.subrange(0, j as int), live@.peers),
        decreases desired.peers@.len() - j,
    {
        let ghost before = op_views(ops@);
        let d = &desired.peers[j];
        proof {
            let next = desired@.peers.subrange(0, j + 1);
            assert(next.drop_last() =~= desired@.peers.subrange(0, j as int));
            assert(next.last() == d@);
        }
        let op: Option<UapiOp> = match live.get_peer(&d.public_key) {
            None => Some(UapiOp::AddPeer(d.clone())),
            Some(l) => {
                if l.same_config(d) {
                    None
                } else {
                    match d.endpoint {
                        Some(e) => {
                            let mut moved = l.clone();
                            moved.endpoint = Some(e);
                            if moved.same_config(d) {
                                Some(UapiOp::UpdateEndpoint(d.public_key, e))
                            } else {
                                Some(UapiOp::AddPeer(d.clone()))
                            }
                        },
                        None => Some(UapiOp::AddPeer(d.clone())),
                    }
                }
            },
        };
        proof {
            assert(match op {
                Some(o) => op_for(d@, live@.peers) == Some(o@),
                None => op_for(d@, live@.peers) is None,
            });
        }
        match op {
            Some(o) => {
                let ghost ov = o@;
                ops.push(o);
                proof {
                    assert(op_views(ops@) =~= before.push(ov));
                    assert(op_views(ops@) =~= removed + upserts(
                        desired@.peers.subrange(0, j + 1),
                        live@.peers,
                    ));
                }
            },
            None => {},
        }
        j = j + 1;
    }
    proof {
        assert(desired@.peers.subrange(0, desired.peers@.len() as int) =~= desired@.peers);
    }
    ops
}

/// Reconciles the interface with what is asked for. Gives the writes to
/// make, in their order; and `BadAllowedIps`, with nothing to write, where
/// an allowed network is asked for two peers.
///
/// Once the writes are made, no allowed network belongs to two peers of
/// the interface, and reconciling again needs no write.
pub fn consolidate_wg_state(requested_state: &RequestedState, entities: &Entities) -> (r: Result<
    Vec<UapiOp>,
    Error,
>)
    requires
        entities.wireguard_interface.wf(),
    ensures
        match r {
            Ok(ops) => {
                let desired = desired_interface(*requested_state, *entities);
                let after = apply_all(entities.wireguard_interface@, op_views(ops@));
                &&& allowed_ips_disjoint(desired_peers(*requested_state, *entities))
                &&& op_views(ops@) == diff(desired, entities.wireguard_interface@)
                &&& allowed_ips_disjoint(after.peers)
                &&& keys_sorted(after.peers)
                &&& diff(desired, after) == Seq::<OpView>::empty()
            },
            Err(e) => e == Error::BadAllowedIps && !allowed_ips_disjoint(
                desired_peers(*requested_state, *entities),
            ),
        },
{
    let desired = build_requested_peers_list(requested_state, entities);
    if !check_allowed_ips_correctness(&desired.peers) {
        return Err(Error::BadAllowedIps);
    }
    proof {
        lemma_diff_reaches_desired(desired@, entities.wireguard_interface@);
        lemma_reconciled_disjoint(desired@, entities.wireguard_interface@);
        lemma_consolidation_idempotent(desired@, entities.wireguard_interface@);
    }
    Ok(reduce(&desired, &entities.wireguard_interface))
}

} // verus!
