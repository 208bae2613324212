//! Which peer simulates the shared entities of a shard.
//!
//! Among the participants that report themselves in a shard, the one with
//! the greatest identity is its host. Every client works this out for itself
//! from the self-reports it has, each time it needs to know: nothing is
//! exchanged for it and nothing is kept between two decisions.

use crate::message::PeerIdentity;
use crate::registry::{PeerModel, PeerRegistry, RemotePlayer};
use vstd::prelude::*;

verus! {

/// Whether `id` reports itself in shard `level`: the local participant by
/// where it is now (`current`), a remote peer by its record.
pub open spec fn reports(
    peers: Map<PeerIdentity, PeerModel>,
    local: PeerIdentity,
    current: Option<i32>,
    level: i32,
    id: PeerIdentity,
) -> bool {
    (id == local && current == Some(level)) || (peers.contains_key(id) && peers[id].level == Some(
        level,
    ))
}

/// Whether `id` is the host of shard `level`: it reports itself there, and
/// nobody who does has a greater identity.
pub open spec fn is_host(
    peers: Map<PeerIdentity, PeerModel>,
    local: PeerIdentity,
    current: Option<i32>,
    level: i32,
    id: PeerIdentity,
) -> bool {
    &&& reports(peers, local, current, level, id)
    &&& forall|other: PeerIdentity| #[trigger]
        reports(peers, local, current, level, other) ==> other <= id
}

/// A shard has at most one host.
pub proof fn lemma_host_unique(
    peers: Map<PeerIdentity, PeerModel>,
    local: PeerIdentity,
    current: Option<i32>,
    level: i32,
    a: PeerIdentity,
    b: PeerIdentity,
)
    requires
        is_host(peers, local, current, level, a),
        is_host(peers, local, current, level, b),
    ensures
        a == b,
{
}

/// The host of shard `level`, or `None` where nobody reports itself there.
pub fn host_of(registry: &PeerRegistry, current: Option<i32>, level: i32) -> (r: Option<
    PeerIdentity,
>)
    requires
        registry.wf(),
    ensures
        r matches Some(h) ==> is_host(registry@, registry.local(), current, level, h),
        r is None ==> forall|id: PeerIdentity|
            !reports(registry@, registry.local(), current, level, id),
{
    let local: PeerIdentity = registry.local_identity();
    let peers: &Vec<RemotePlayer> = registry.all();
    let mut best: Option<PeerIdentity> = if current == Some(level) {
        Some(local)
    } else {
        None
    };
    proof {
        registry.lemma_wf();
    }
    let mut i: usize = 0;
    while i < peers.len()
        invariant
            i <= peers@.len(),
            registry.wf(),
            local == registry.local(),
            peers@.len() == registry.entries().len(),
            forall|k: int| 0 <= k < peers@.len() ==> (#[trigger] peers@[k])@ == registry.entries()[k],
            best matches Some(h) ==> reports(registry@, local, current, level, h),
            current == Some(level) ==> best is Some && best->0 >= local,
            forall|k: int|
                0 <= k < i && (#[trigger] registry.entries()[k]).level == Some(level) ==> best is Some
                    && registry.entries()[k].uuid <= best->0,
        decreases peers@.len() - i,
    {
        proof {
            registry.lemma_wf();
        }
        let p: &RemotePlayer = &peers[i];
        assert(p@ == registry.entries()[i as int]);
        if p.level == Some(level) {
            let better: bool = match best {
                Some(h) => p.uuid > h,
                None => true,
            };
            if better {
                best = Some(p.uuid);
            }
        }
        i += 1;
    }
    proof {
        registry.lemma_wf();
        assert forall|id: PeerIdentity|
            reports(registry@, local, current, level, id) implies best is Some && id
            <= best->0 by {
            if registry@.contains_key(id) && registry@[id].level == Some(level) {
                let k = choose|k: int|
                    0 <= k < registry.entries().len() && registry.entries()[k] == registry@[id];
                assert(registry.entries()[k].level == Some(level));
            }
        }
    }
    best
}

/// Whether the local participant is the host of shard `level`, and so the
/// one whose changes to the shared entities of that shard count.
pub fn is_local_host(registry: &PeerRegistry, current: Option<i32>, level: i32) -> (r: bool)
    requires
        registry.wf(),
    ensures
        r == is_host(registry@, registry.local(), current, level, registry.local()),
{
    match host_of(registry, current, level) {
        Some(h) => h == registry.local_identity(),
        None => false,
    }
}

/// A peer is not followed while a greater one contends for the shard.
pub proof fn lemma_lower_peer_ignored(
    peers: Map<PeerIdentity, PeerModel>,
    local: PeerIdentity,
    current: Option<i32>,
    level: i32,
    sender: PeerIdentity,
    contender: PeerIdentity,
)
    requires
        reports(peers, local, current, level, contender),
        sender < contender,
    ensures
        !is_host(peers, local, current, level, sender),
{
}

/// Wherever somebody reports itself in a shard, the shard has a host. With
/// `lemma_host_unique` this makes the host of an occupied shard exactly one.
pub proof fn lemma_host_exists(
    peers: Map<PeerIdentity, PeerModel>,
    local: PeerIdentity,
    current: Option<i32>,
    level: i32,
    somebody: PeerIdentity,
) -> (h: PeerIdentity)
    requires
        peers.dom().finite(),
        reports(peers, local, current, level, somebody),
    ensures
        is_host(peers, local, current, level, h),
    decreases peers.dom().len(),
{
    if peers.dom().len() == 0 {
        assert(!peers.contains_key(somebody));
        assert forall|other: PeerIdentity| #[trigger]
            reports(peers, local, current, level, other) implies other <= local by {
            assert(!peers.contains_key(other));
        }
        local
    } else {
        let k = peers.dom().choose();
        let rest = peers.remove(k);
        assert(rest.dom() =~= peers.dom().remove(k));
        assert forall|id: PeerIdentity| id != k implies (reports(
            peers,
            local,
            current,
            level,
            id,
        ) <==> #[trigger] reports(rest, local, current, level, id)) by {}
        let by_record = peers[k].level == Some(level);
        let by_presence = k == local && current == Some(level);
        if exists|id: PeerIdentity| reports(rest, local, current, level, id) {
            let witness = choose|id: PeerIdentity| reports(rest, local, current, level, id);
            let h0 = lemma_host_exists(rest, local, current, level, witness);
            let h = if by_record && k > h0 {
                k
            } else {
                h0
            };
            assert forall|other: PeerIdentity| #[trigger]
                reports(peers, local, current, level, other) implies other <= h by {
                if other != k {
                    assert(reports(rest, local, current, level, other));
                } else if by_presence {
                    assert(reports(rest, local, current, level, other));
                }
            }
            if h == h0 && h0 != k {
                assert(reports(rest, local, current, level, h0));
            }
            h
        } else {
            if somebody != k {
                assert(reports(rest, local, current, level, somebody));
            }
            assert forall|other: PeerIdentity| #[trigger]
                reports(peers, local, current, level, other) implies other <= k by {
                if other != k {
                    assert(reports(rest, local, current, level, other));
                }
            }
            k
        }
    }
}

/// Whether a message of `sender` about the shared entities of shard `level`
/// is to be followed: it is if `sender` is the host of that shard, and is
/// ignored if a peer with a greater identity contends for the shard.
pub fn is_authoritative(
    registry: &PeerRegistry,
    current: Option<i32>,
    level: i32,
    sender: PeerIdentity,
) -> (r: bool)
    requires
        registry.wf(),
    ensures
        r == is_host(registry@, registry.local(), current, level, sender),
{
    match host_of(registry, current, level) {
        Some(h) => h == sender,
        None => false,
    }
}

} // verus!
